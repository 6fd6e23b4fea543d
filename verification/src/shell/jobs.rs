//! Background commands: a backgrounded `bash` returns a `job_id` and outlives the turn. The
//! table maps each id to one job; its owner cancels the processes, the table only records them.

use vstd::prelude::*;

use crate::clock::{mint_after, mint_view, minted_after, saturated_millis, v7_parts};
use crate::shell::provider::Execution;
use crate::text::{lemma_text_lt_total, lemma_text_lt_transitive, text_less, text_lt};

verus! {

#[derive(Debug)]
pub enum JobState {
    Running,
    Finished(Execution),
}

impl Clone for JobState {
    fn clone(&self) -> (r: JobState)
        ensures
            r == *self,
    {
        match self {
            JobState::Running => JobState::Running,
            JobState::Finished(run) => JobState::Finished(run.clone()),
        }
    }
}

#[derive(Debug)]
pub struct Job {
    pub id: String,
    pub command: String,
    pub cwd: String,
    pub state: JobState,
}

impl Clone for Job {
    fn clone(&self) -> (r: Job)
        ensures
            r == *self,
    {
        Job {
            id: self.id.clone(),
            command: self.command.clone(),
            cwd: self.cwd.clone(),
            state: self.state.clone(),
        }
    }
}

/// The table as a map from id text to job.
pub open spec fn table_of(jobs: Seq<Job>) -> Map<Seq<char>, Job>
    decreases jobs.len(),
{
    if jobs.len() == 0 {
        Map::empty()
    } else {
        table_of(jobs.drop_last()).insert(jobs.last().id@, jobs.last())
    }
}

/// No two entries share an id.
pub open spec fn distinct_ids(jobs: Seq<Job>) -> bool {
    forall|i: int, j: int| 0 <= i < j < jobs.len() ==> #[trigger] jobs[i].id@ != #[trigger] jobs[j].id@
}

/// Ids in strictly increasing order.
pub open spec fn sorted_by_id(jobs: Seq<Job>) -> bool {
    forall|i: int, j: int| 0 <= i < j < jobs.len() ==> text_lt(#[trigger] jobs[i].id@, #[trigger] jobs[j].id@)
}

pub proof fn lemma_table_of(jobs: Seq<Job>)
    requires
        distinct_ids(jobs),
    ensures
        table_of(jobs).dom().finite(),
        forall|k: Seq<char>| #[trigger] table_of(jobs).dom().contains(k) <==> exists|i: int| 0 <= i < jobs.len() && jobs[i].id@ == k,
        forall|i: int| 0 <= i < jobs.len() ==> #[trigger] table_of(jobs)[jobs[i].id@] == jobs[i],
    decreases jobs.len(),
{
    if jobs.len() > 0 {
        let init = jobs.drop_last();
        assert(distinct_ids(init)) by {
            assert forall|i: int, j: int| 0 <= i < j < init.len() implies #[trigger] init[i].id@ != #[trigger] init[j].id@ by {
                assert(init[i] == jobs[i] && init[j] == jobs[j]);
            }
        }
        lemma_table_of(init);
        assert forall|k: Seq<char>| #[trigger] table_of(jobs).dom().contains(k) <==> exists|i: int| 0 <= i < jobs.len() && jobs[i].id@ == k by {
            if table_of(jobs).dom().contains(k) && k != jobs.last().id@ {
                let i = choose|i: int| 0 <= i < init.len() && init[i].id@ == k;
                assert(jobs[i] == init[i]);
            }
            if exists|i: int| 0 <= i < jobs.len() && jobs[i].id@ == k {
                let i = choose|i: int| 0 <= i < jobs.len() && jobs[i].id@ == k;
                if i < jobs.len() - 1 {
                    assert(init[i] == jobs[i]);
                }
            }
        }
        assert forall|i: int| 0 <= i < jobs.len() implies #[trigger] table_of(jobs)[jobs[i].id@] == jobs[i] by {
            if i < jobs.len() - 1 {
                assert(init[i] == jobs[i]);
                assert(jobs[i].id@ != jobs[jobs.len() - 1].id@);
            }
        }
    }
}

/// The background jobs of one plugin instance: a list in which no id occurs twice, viewed as
/// the map from id to job that callers see.
pub struct Jobs {
    entries: Vec<Job>,
    /// The last id this table minted, with its milliseconds and random bytes.
    last: Option<(String, u64, [u8; 10])>,
}

impl View for Jobs {
    type V = Map<Seq<char>, Job>;

    closed spec fn view(&self) -> Map<Seq<char>, Job> {
        table_of(self.entries@)
    }
}

impl Jobs {
    /// Ids are unique in the table.
    pub closed spec fn wf(&self) -> bool {
        distinct_ids(self.entries@)
    }

    /// The last id this table minted, with its milliseconds and random bytes.
    pub closed spec fn last_mint(&self) -> Option<(Seq<char>, u64, Seq<u8>)> {
        mint_view(self.last)
    }

    /// The last id this table minted, if it minted one.
    pub open spec fn minted(&self) -> Option<Seq<char>> {
        match self.last_mint() {
            Some(l) => Some(l.0),
            None => None,
        }
    }

    pub fn new() -> (t: Jobs)
        ensures
            t.wf(),
            t@ == Map::<Seq<char>, Job>::empty(),
            t.minted() is None,
    {
        Jobs { entries: Vec::new(), last: None }
    }

    fn position(&self, id: &str) -> (r: Option<usize>)
        requires
            self.wf(),
        ensures
            match r {
                Some(i) => i < self.entries@.len() && self.entries@[i as int].id@ == id@,
                None => forall|i: int| 0 <= i < self.entries@.len() ==> #[trigger] self.entries@[i].id@ != id@,
            },
    {
        let mut i: usize = 0;
        while i < self.entries.len()
            invariant
                i <= self.entries@.len(),
                forall|k: int| 0 <= k < i ==> #[trigger] self.entries@[k].id@ != id@,
            decreases self.entries.len() - i,
        {
            if crate::text::str_eq(self.entries[i].id.as_str(), id) {
                return Some(i);
            }
            i = i + 1;
        }
        None
    }

    /// Record a started job under a fresh version 7 UUID, and hand the job back. The id is
    /// `mint_after` the table's last one, from the clock's milliseconds and fresh random
    /// bytes, so ids minted by one table sort in the order the jobs started. `None`, with the
    /// table unchanged, when the clock reads before 1970, no random bytes can be had, or no id
    /// sorts after the last.
    pub fn start(&mut self, command: String, cwd: String) -> (job: Option<Job>)
        requires
            old(self).wf(),
        ensures
            final(self).wf(),
            match job {
                Some(j) => {
                    &&& j.command == command && j.cwd == cwd && j.state is Running
                    &&& exists|millis: u64, random: Seq<u8>|
                        random.len() == 10 && #[trigger] minted_after(old(self).last_mint(), millis, random) == final(self).last_mint()
                        && exists|secs: u64, nanos: u32| nanos < 1_000_000_000 && millis == #[trigger] saturated_millis(secs, nanos)
                    &&& final(self).minted() == Some(j.id@)
                    &&& old(self).minted() matches Some(l) ==> text_lt(l, j.id@)
                    &&& final(self)@ == old(self)@.insert(j.id@, j)
                },
                None => final(self)@ == old(self)@ && final(self).last_mint() == old(self).last_mint(),
            },
    {
        let (millis, random) = match v7_parts() {
            Some(parts) => parts,
            None => return None,
        };
        proof {
            assert(random@.len() == 10);
        }
        let minted = match mint_after(&self.last, millis, random) {
            Some(m) => m,
            None => return None,
        };
        let id = minted.0.clone();
        proof {
            assert(mint_view(Some(minted)) == minted_after(mint_view(self.last), millis, random@));
        }
        let job = Job { id: id.clone(), command: command.clone(), cwd: cwd.clone(), state: JobState::Running };
        self.start_with_id(id, command, cwd);
        self.last = Some(minted);
        Some(job)
    }

    /// Record a started job under its id; an id already present is replaced, as a map insert does.
    pub fn start_with_id(&mut self, id: String, command: String, cwd: String)
        requires
            old(self).wf(),
        ensures
            final(self).wf(),
            final(self)@ == old(self)@.insert(id@, Job { id, command, cwd, state: JobState::Running }),
            final(self).minted() == old(self).minted(),
    {
        let ghost before = self.entries@;
        proof {
            lemma_table_of(before);
        }
        let job = Job { id, command, cwd, state: JobState::Running };
        match self.position(job.id.as_str()) {
            Some(i) => {
                self.entries.set(i, job);
                proof {
                    let after = self.entries@;
                    assert(distinct_ids(after)) by {
                        assert forall|a: int, b: int| 0 <= a < b < after.len() implies #[trigger] after[a].id@ != #[trigger] after[b].id@ by {
                            if a != i && b != i {
                                assert(after[a] == before[a] && after[b] == before[b]);
                            } else if a == i {
                                assert(after[b] == before[b]);
                                assert(before[i as int].id@ == job.id@);
                            } else {
                                assert(after[a] == before[a]);
                                assert(before[i as int].id@ == job.id@);
                            }
                        }
                    }
                    lemma_table_of(after);
                    assert(self@ =~= table_of(before).insert(job.id@, job)) by {
                        assert forall|k: Seq<char>| #[trigger] self@.dom().contains(k) <==> table_of(before).insert(job.id@, job).dom().contains(k) by {
                            if self@.dom().contains(k) {
                                let x = choose|x: int| 0 <= x < after.len() && after[x].id@ == k;
                                if x != i {
                                    assert(after[x] == before[x]);
                                }
                            }
                            if table_of(before).dom().contains(k) {
                                let x = choose|x: int| 0 <= x < before.len() && before[x].id@ == k;
                                if x != i {
                                    assert(after[x] == before[x]);
                                } else {
                                    assert(after[x].id@ == k);
                                }
                            }
                            if k == job.id@ {
                                assert(after[i as int].id@ == k);
                            }
                        }
                        assert forall|k: Seq<char>| #[trigger] self@.dom().contains(k) implies self@[k] == table_of(before).insert(job.id@, job)[k] by {
                            let x = choose|x: int| 0 <= x < after.len() && after[x].id@ == k;
                            if x != i {
                                assert(after[x] == before[x]);
                            }
                        }
                    }
                }
            },
            None => {
                self.entries.push(job);
                proof {
                    let after = self.entries@;
                    assert(after.drop_last() =~= before);
                    assert(distinct_ids(after)) by {
                        assert forall|a: int, b: int| 0 <= a < b < after.len() implies #[trigger] after[a].id@ != #[trigger] after[b].id@ by {
                            assert(after[a] == before[a]);
                            if b < before.len() {
                                assert(after[b] == before[b]);
                            }
                        }
                    }
                }
            },
        }
    }

    /// The job carrying this id.
    pub fn get(&self, id: &str) -> (r: Option<&Job>)
        requires
            self.wf(),
        ensures
            match r {
                Some(job) => self@.dom().contains(id@) && *job == self@[id@],
                None => !self@.dom().contains(id@),
            },
    {
        proof {
            lemma_table_of(self.entries@);
        }
        match self.position(id) {
            Some(i) => Some(&self.entries[i]),
            None => None,
        }
    }

    /// Kill one job: whether a job carries that id. The caller cancels its process tree.
    pub fn kill(&self, id: &str) -> (r: bool)
        requires
            self.wf(),
        ensures
            r == self@.dom().contains(id@),
    {
        proof {
            lemma_table_of(self.entries@);
        }
        self.position(id).is_some()
    }

    /// Record how a job ended; an unknown id changes nothing.
    pub fn finish(&mut self, id: &str, run: Execution)
        requires
            old(self).wf(),
        ensures
            final(self).wf(),
            old(self)@.dom().contains(id@) ==> final(self)@ == old(self)@.insert(
                id@,
                Job { state: JobState::Finished(run), ..old(self)@[id@] },
            ),
            !old(self)@.dom().contains(id@) ==> final(self)@ == old(self)@,
            final(self).minted() == old(self).minted(),
    {
        let ghost before = self.entries@;
        proof {
            lemma_table_of(before);
        }
        match self.position(id) {
            Some(i) => {
                let old_job = self.entries[i].clone();
                let job = Job { state: JobState::Finished(run), ..old_job };
                self.entries.set(i, job);
                proof {
                    let after = self.entries@;
                    assert(distinct_ids(after)) by {
                        assert forall|a: int, b: int| 0 <= a < b < after.len() implies #[trigger] after[a].id@ != #[trigger] after[b].id@ by {
                            if a != i {
                                assert(after[a] == before[a]);
                            }
                            if b != i {
                                assert(after[b] == before[b]);
                            }
                        }
                    }
                    lemma_table_of(after);
                    assert(before[i as int].id@ == id@);
                    assert(table_of(before)[id@] == before[i as int]);
                    assert(self@ =~= table_of(before).insert(id@, job)) by {
                        assert forall|k: Seq<char>| #[trigger] self@.dom().contains(k) <==> table_of(before).insert(id@, job).dom().contains(k) by {
                            if self@.dom().contains(k) {
                                let x = choose|x: int| 0 <= x < after.len() && after[x].id@ == k;
                                if x != i {
                                    assert(after[x] == before[x]);
                                }
                            }
                            if table_of(before).dom().contains(k) {
                                let x = choose|x: int| 0 <= x < before.len() && before[x].id@ == k;
                                if x != i {
                                    assert(after[x] == before[x]);
                                } else {
                                    assert(after[x].id@ == k);
                                }
                            }
                            if k == id@ {
                                assert(after[i as int].id@ == k);
                            }
                        }
                        assert forall|k: Seq<char>| #[trigger] self@.dom().contains(k) implies self@[k] == table_of(before).insert(id@, job)[k] by {
                            let x = choose|x: int| 0 <= x < after.len() && after[x].id@ == k;
                            if x != i {
                                assert(after[x] == before[x]);
                            }
                        }
                    }
                }
            },
            None => {},
        }
    }

    /// Every job, ordered by id.
    pub fn list(&self) -> (r: Vec<Job>)
        requires
            self.wf(),
        ensures
            sorted_by_id(r@),
            r@.len() == self@.dom().len(),
            forall|i: int| 0 <= i < r@.len() ==> self@.dom().contains(#[trigger] r@[i].id@) && r@[i]
                == self@[r@[i].id@],
    {
        proof {
            lemma_table_of(self.entries@);
        }
        let ghost all = self.entries@;
        let mut out: Vec<Job> = Vec::new();
        let mut i: usize = 0;
        while i < self.entries.len()
            invariant
                all == self.entries@,
                distinct_ids(all),
                i <= all.len(),
                out@.len() == i,
                sorted_by_id(out@),
                forall|k: int| 0 <= k < out@.len() ==> exists|x: int| 0 <= x < i && #[trigger] out@[k] == all[x],
                forall|x: int| #![trigger all[x]] 0 <= x < i ==> exists|k: int| 0 <= k < out@.len() && #[trigger] out@[k] == all[x],
            decreases all.len() - i,
        {
            let job = self.entries[i].clone();
            proof {
                assert forall|k: int| 0 <= k < out@.len() implies #[trigger] out@[k].id@ != job.id@ by {
                    let x = choose|x: int| 0 <= x < i && out@[k] == all[x];
                    assert(all[x].id@ != all[i as int].id@);
                }
            }
            let ghost before = out@;
            let p = insert_by_id(&mut out, job);
            proof {
                assert(out@ == before.insert(p as int, job));
                assert forall|k: int| 0 <= k < out@.len() implies exists|x: int| 0 <= x < i + 1 && #[trigger] out@[k] == all[x] by {
                    if k < p {
                        assert(out@[k] == before[k]);
                    } else if k == p {
                        assert(out@[k] == all[i as int]);
                    } else {
                        assert(out@[k] == before[k - 1]);
                    }
                }
                assert forall|x: int| #![trigger all[x]] 0 <= x < i + 1 implies exists|k: int| 0 <= k < out@.len() && #[trigger] out@[k] == all[x] by {
                    if x < i {
                        let k = choose|k: int| 0 <= k < before.len() && before[k] == all[x];
                        if k < p {
                            assert(out@[k] == all[x]);
                        } else {
                            assert(out@[k + 1] == all[x]);
                        }
                    } else {
                        assert(out@[p as int] == all[x]);
                    }
                }
            }
            i = i + 1;
        }
        proof {
            assert forall|k: int| 0 <= k < out@.len() implies self@.dom().contains(#[trigger] out@[k].id@) && out@[k] == self@[out@[k].id@] by {
                let x = choose|x: int| 0 <= x < all.len() && out@[k] == all[x];
                assert(table_of(all)[all[x].id@] == all[x]);
            }
            lemma_dom_len(all);
        }
        out
    }
}

/// The table has one key per entry.
pub proof fn lemma_dom_len(jobs: Seq<Job>)
    requires
        distinct_ids(jobs),
    ensures
        table_of(jobs).dom().len() == jobs.len(),
    decreases jobs.len(),
{
    if jobs.len() > 0 {
        let init = jobs.drop_last();
        assert(distinct_ids(init)) by {
            assert forall|i: int, j: int| 0 <= i < j < init.len() implies #[trigger] init[i].id@ != #[trigger] init[j].id@ by {
                assert(init[i] == jobs[i] && init[j] == jobs[j]);
            }
        }
        lemma_dom_len(init);
        lemma_table_of(init);
        assert(!table_of(init).dom().contains(jobs.last().id@)) by {
            if table_of(init).dom().contains(jobs.last().id@) {
                let i = choose|i: int| 0 <= i < init.len() && init[i].id@ == jobs.last().id@;
                assert(jobs[i] == init[i]);
            }
        }
    }
}

/// In a sorted list of ids all different from `id`, everything before the first place where
/// `id` is not below is itself below `id`.
pub proof fn lemma_below(sorted: Seq<Job>, id: Seq<char>, p: int)
    requires
        sorted_by_id(sorted),
        0 <= p <= sorted.len(),
        forall|k: int| 0 <= k < sorted.len() ==> #[trigger] sorted[k].id@ != id,
        p > 0 ==> !text_lt(id, sorted[p - 1].id@),
    ensures
        forall|k: int| 0 <= k < p ==> text_lt(#[trigger] sorted[k].id@, id),
{
    if p > 0 {
        lemma_text_lt_total(sorted[p - 1].id@, id);
        assert forall|k: int| 0 <= k < p implies text_lt(#[trigger] sorted[k].id@, id) by {
            if k < p - 1 {
                assert(text_lt(sorted[k].id@, sorted[p - 1].id@));
                lemma_text_lt_transitive(sorted[k].id@, sorted[p - 1].id@, id);
            }
        }
    }
}

/// Inserting a job between the ids below it and the ids above it keeps the list sorted.
pub proof fn lemma_insert_sorted(sorted: Seq<Job>, job: Job, p: int)
    requires
        sorted_by_id(sorted),
        0 <= p <= sorted.len(),
        forall|k: int| 0 <= k < p ==> text_lt(#[trigger] sorted[k].id@, job.id@),
        forall|k: int| p <= k < sorted.len() ==> text_lt(job.id@, #[trigger] sorted[k].id@),
    ensures
        sorted_by_id(sorted.insert(p, job)),
{
    let out = sorted.insert(p, job);
    assert forall|a: int, b: int| 0 <= a < b < out.len() implies text_lt(#[trigger] out[a].id@, #[trigger] out[b].id@) by {
        if b < p {
            assert(out[a] == sorted[a] && out[b] == sorted[b]);
        } else if b == p {
            assert(out[a] == sorted[a]);
        } else if a < p {
            assert(out[a] == sorted[a] && out[b] == sorted[b - 1]);
            lemma_text_lt_transitive(sorted[a].id@, job.id@, sorted[b - 1].id@);
        } else if a == p {
            assert(out[b] == sorted[b - 1]);
        } else {
            assert(out[a] == sorted[a - 1] && out[b] == sorted[b - 1]);
        }
    }
}

/// Insert a job into a list sorted by id, at the one place that keeps it sorted; returns
/// that place.
fn insert_by_id(out: &mut Vec<Job>, job: Job) -> (p: usize)
    requires
        sorted_by_id(old(out)@),
        forall|k: int| 0 <= k < old(out)@.len() ==> #[trigger] old(out)@[k].id@ != job.id@,
    ensures
        p <= old(out)@.len(),
        final(out)@ == old(out)@.insert(p as int, job),
        sorted_by_id(final(out)@),
{
    let n = out.len();
    let mut p = n;
    while p > 0 && text_less(job.id.as_str(), out[p - 1].id.as_str())
        invariant
            p <= n,
            n == out@.len(),
            forall|k: int| p <= k < n ==> text_lt(job.id@, #[trigger] out@[k].id@),
        decreases p,
    {
        p = p - 1;
    }
    proof {
        lemma_below(out@, job.id@, p as int);
        lemma_insert_sorted(out@, job, p as int);
    }
    out.insert(p, job);
    p
}

} // verus!
