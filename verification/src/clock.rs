//! The wall clock, and the two values the library takes from it: a time stamp in epoch
//! milliseconds for session events, and a version 7 UUID for background jobs. A clock set
//! before 1970, or a system with no random bytes to give, yields nothing rather than a panic.

use vstd::prelude::*;

use crate::text::{text_less, text_lt};

verus! {

/// `chrono::DateTime::<Utc>::from_timestamp(secs, nanos)` followed by `timestamp_millis`: the
/// instant's epoch milliseconds, or `None` where chrono has no such instant.
pub uninterp spec fn utc_millis_of(secs: i64, nanos: u32) -> Option<i64>;

/// `uuid::Builder::from_unix_timestamp_millis(millis, random)` as hyphenated text.
pub uninterp spec fn uuid_v7_text(millis: u64, random: Seq<u8>) -> Seq<char>;

/// Calls `std::time::SystemTime::elapsed` on `UNIX_EPOCH`: whole seconds and the nanoseconds
/// past them since 1970, or `None` when the clock reads earlier. The reading itself depends on
/// the moment of the call and is not stated.
#[verifier::external_body]
fn since_epoch() -> (r: Option<(u64, u32)>)
    ensures
        r matches Some(p) ==> p.1 < 1_000_000_000,
{
    match std::time::UNIX_EPOCH.elapsed() {
        Ok(d) => Some((d.as_secs(), d.subsec_nanos())),
        Err(_) => None,
    }
}

/// Calls `chrono::DateTime::<chrono::Utc>::from_timestamp` and `timestamp_millis` on the
/// result. Which instants chrono has is taken as `utc_millis_of` of the two arguments; an
/// instant it has reads back as `secs * 1000` plus the whole milliseconds of `nanos`, since
/// `timestamp_millis` is `timestamp() * 1000 + timestamp_subsec_millis()`.
#[verifier::external_body]
fn utc_millis(secs: i64, nanos: u32) -> (r: Option<i64>)
    ensures
        r == utc_millis_of(secs, nanos),
        r matches Some(ms) ==> ms == secs * 1000 + nanos / 1_000_000,
{
    match chrono::DateTime::<chrono::Utc>::from_timestamp(secs, nanos) {
        Some(t) => Some(t.timestamp_millis()),
        None => None,
    }
}

/// Calls `getrandom::fill` on ten bytes: `None` when the system source fails. The bytes are
/// random and nothing is stated of them.
#[verifier::external_body]
fn random_bytes() -> Option<[u8; 10]> {
    let mut bytes = [0u8; 10];
    match getrandom::fill(&mut bytes) {
        Ok(()) => Some(bytes),
        Err(_) => None,
    }
}

/// Calls `uuid::Builder::from_unix_timestamp_millis`, makes the UUID and writes it out. The
/// result is taken as `uuid_v7_text` of the two arguments.
#[verifier::external_body]
pub(crate) fn v7_text(millis: u64, random: [u8; 10]) -> (r: String)
    ensures
        r@ == uuid_v7_text(millis, random@),
{
    uuid::Builder::from_unix_timestamp_millis(millis, &random).into_uuid().to_string()
}

/// The current time in epoch milliseconds, as `chrono::Utc::now().timestamp_millis()` gives
/// it; `None` when the clock reads before 1970 or past chrono's last date.
pub fn now_ms() -> (r: Option<i64>)
    ensures
        r matches Some(ms) ==> ms >= 0 && exists|secs: i64, nanos: u32|
            secs >= 0 && #[trigger] utc_millis_of(secs, nanos) == Some(ms) && ms == secs * 1000 + nanos / 1_000_000,
{
    match since_epoch() {
        Some((secs, nanos)) => {
            if secs <= 9_223_372_036_854_775_807u64 {
                utc_millis(secs as i64, nanos)
            } else {
                None
            }
        },
        None => None,
    }
}

/// Whole milliseconds of `secs` seconds and `nanos` nanoseconds, saturating, as
/// `Uuid::new_v7` counts them.
pub open spec fn saturated_millis(secs: u64, nanos: u32) -> u64 {
    let ms = secs * 1000 + nanos / 1_000_000;
    if ms > u64::MAX {
        u64::MAX
    } else {
        ms as u64
    }
}

/// The milliseconds a version 7 UUID records for an instant.
pub fn millis_of(secs: u64, nanos: u32) -> (r: u64)
    ensures
        r == saturated_millis(secs, nanos),
{
    let part = (nanos / 1_000_000) as u64;
    match secs.checked_mul(1000) {
        Some(whole) => match whole.checked_add(part) {
            Some(ms) => ms,
            None => u64::MAX,
        },
        None => u64::MAX,
    }
}

/// The parts of a version 7 UUID for now: the clock's milliseconds and ten random bytes;
/// `None` when the clock reads before 1970 or no random bytes can be had.
pub fn v7_parts() -> (r: Option<(u64, [u8; 10])>)
    ensures
        r matches Some(p) ==> exists|secs: u64, nanos: u32| nanos < 1_000_000_000 && p.0 == saturated_millis(secs, nanos),
{
    match since_epoch() {
        Some((secs, nanos)) => match random_bytes() {
            Some(random) => Some((millis_of(secs, nanos), random)),
            None => None,
        },
        None => None,
    }
}

/// The big-endian number in bytes `3..10`, the part of a version 7 UUID's random field that
/// the UUID keeps whole.
pub open spec fn tail_value(b: Seq<u8>, k: int) -> int
    decreases k,
{
    if k <= 3 {
        0
    } else {
        tail_value(b, k - 1) * 256 + b[k - 1]
    }
}

/// Counting the bytes up by one from position `j` down to position 3: a byte below 255 goes up
/// and the count stops; a byte at 255 wraps to 0 and carries; a carry past position 3 has
/// nowhere to go.
pub open spec fn step_from(b: Seq<u8>, j: int) -> Option<Seq<u8>>
    decreases j,
{
    if j < 3 || j >= b.len() {
        None
    } else if b[j] < 255 {
        Some(b.update(j, (b[j] + 1) as u8))
    } else {
        step_from(b.update(j, 0), j - 1)
    }
}

/// The random bytes one step on: the last seven bytes count up by one as a big-endian number,
/// the first three stay; `None` when the count is at its top.
pub fn next_random(random: [u8; 10]) -> (r: Option<[u8; 10]>)
    ensures
        match r {
            Some(next) => next@.subrange(0, 3) == random@.subrange(0, 3) && tail_value(next@, 10) == tail_value(random@, 10) + 1,
            None => forall|k: int| 3 <= k < 10 ==> #[trigger] random@[k] == 255,
        },
        match r {
            Some(next) => step_from(random@, 9) == Some(next@),
            None => step_from(random@, 9) is None,
        },
{
    let mut next = random;
    let mut k: usize = 10;
    while k > 3
        invariant
            3 <= k <= 10,
            next@.len() == 10,
            forall|j: int| 0 <= j < k ==> #[trigger] next@[j] == random@[j],
            forall|j: int| k <= j < 10 ==> #[trigger] next@[j] == 0,
            forall|j: int| k <= j < 10 ==> #[trigger] random@[j] == 255,
            step_from(random@, 9) == step_from(next@, k - 1),
        decreases k,
    {
        let j = k - 1;
        if next[j] < 255 {
            let ghost before = next@;
            next[j] = random[j] + 1;
            proof {
                assert(next@ == before.update(j as int, (before[j as int] + 1) as u8));
                lemma_tail_step(random@, next@, j as int);
            }
            return Some(next);
        }
        let ghost before = next@;
        next[j] = 0;
        proof {
            assert(next@ == before.update(j as int, 0));
        }
        k = j;
    }
    None
}

/// The next id of a table whose last minted id, with its milliseconds and random bytes, is
/// `last`, given the clock's milliseconds and fresh random bytes: the fresh id when it sorts
/// after the last one (or there is none); else the id of the last milliseconds with the last
/// random bytes one step on, when that sorts after the last one; else nothing.
pub open spec fn minted_after(last: Option<(Seq<char>, u64, Seq<u8>)>, millis: u64, random: Seq<u8>) -> Option<(Seq<char>, u64, Seq<u8>)> {
    let fresh = uuid_v7_text(millis, random);
    match last {
        None => Some((fresh, millis, random)),
        Some(l) => if text_lt(l.0, fresh) {
            Some((fresh, millis, random))
        } else {
            match step_from(l.2, 9) {
                Some(n) => if text_lt(l.0, uuid_v7_text(l.1, n)) {
                    Some((uuid_v7_text(l.1, n), l.1, n))
                } else {
                    None
                },
                None => None,
            }
        },
    }
}

/// A minted id with its parts, as values.
pub open spec fn mint_view(m: Option<(String, u64, [u8; 10])>) -> Option<(Seq<char>, u64, Seq<u8>)> {
    match m {
        Some(x) => Some((x.0@, x.1, x.2@)),
        None => None,
    }
}

/// The next id after `last`, from the clock's milliseconds and fresh random bytes, with the
/// parts it was made from.
pub fn mint_after(last: &Option<(String, u64, [u8; 10])>, millis: u64, random: [u8; 10]) -> (r: Option<(String, u64, [u8; 10])>)
    ensures
        mint_view(r) == minted_after(mint_view(*last), millis, random@),
{
    let fresh = v7_text(millis, random);
    match last {
        None => Some((fresh, millis, random)),
        Some(l) => {
            if text_less(l.0.as_str(), fresh.as_str()) {
                return Some((fresh, millis, random));
            }
            match next_random(l.2) {
                Some(n) => {
                    let id = v7_text(l.1, n);
                    if text_less(l.0.as_str(), id.as_str()) {
                        Some((id, l.1, n))
                    } else {
                        None
                    }
                },
                None => None,
            }
        },
    }
}

/// Adding one to byte `j` and wrapping every later byte from 255 to 0 adds one to the tail.
proof fn lemma_tail_step(old: Seq<u8>, new: Seq<u8>, j: int)
    requires
        3 <= j < 10,
        old.len() == 10,
        new.len() == 10,
        forall|i: int| 0 <= i < j ==> #[trigger] new[i] == old[i],
        new[j] == old[j] + 1,
        forall|i: int| j < i < 10 ==> #[trigger] new[i] == 0 && old[i] == 255,
    ensures
        new.subrange(0, 3) == old.subrange(0, 3),
        tail_value(new, 10) == tail_value(old, 10) + 1,
{
    assert(new.subrange(0, 3) =~= old.subrange(0, 3));
    assert forall|k: int| 3 <= k <= j implies #[trigger] tail_value(new, k) == tail_value(old, k) by {
        lemma_tail_prefix(old, new, k, j);
    }
    lemma_tail_carry(old, new, j, 10);
}

proof fn lemma_tail_prefix(old: Seq<u8>, new: Seq<u8>, k: int, j: int)
    requires
        3 <= k <= j,
        j < 10,
        old.len() == 10,
        new.len() == 10,
        forall|i: int| 0 <= i < j ==> #[trigger] new[i] == old[i],
    ensures
        tail_value(new, k) == tail_value(old, k),
    decreases k,
{
    if k > 3 {
        lemma_tail_prefix(old, new, k - 1, j);
        assert(new[k - 1] == old[k - 1]);
    }
}

/// `tail(new, m) == tail(old, m) + 1` for every `m` past the incremented byte.
proof fn lemma_tail_carry(old: Seq<u8>, new: Seq<u8>, j: int, m: int)
    requires
        3 <= j < m <= 10,
        old.len() == 10,
        new.len() == 10,
        tail_value(new, j) == tail_value(old, j),
        new[j] == old[j] + 1,
        forall|i: int| j < i < 10 ==> #[trigger] new[i] == 0 && old[i] == 255,
    ensures
        tail_value(new, m) == tail_value(old, m) + 1,
    decreases m,
{
    if m == j + 1 {
        assert(tail_value(new, m) == tail_value(new, j) * 256 + new[j]);
        assert(tail_value(old, m) == tail_value(old, j) * 256 + old[j]);
    } else {
        lemma_tail_carry(old, new, j, m - 1);
        assert(new[m - 1] == 0 && old[m - 1] == 255);
        assert(tail_value(new, m) == tail_value(new, m - 1) * 256 + new[m - 1]);
        assert(tail_value(old, m) == tail_value(old, m - 1) * 256 + old[m - 1]);
        assert(tail_value(new, m - 1) * 256 == (tail_value(old, m - 1) + 1) * 256);
        assert((tail_value(old, m - 1) + 1) * 256 == tail_value(old, m - 1) * 256 + 256) by (nonlinear_arith);
    }
}

} // verus!
