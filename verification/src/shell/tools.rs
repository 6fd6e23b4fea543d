//! What the four shell tools answer: `bash` runs a command (or backgrounds it), `job_output`,
//! `job_kill` and `job_list` look at what runs in the background. A non-zero exit code is a
//! result, not a failure; output that is blank still gets a line saying so.

use vstd::prelude::*;

use crate::shell::jobs::{Job, JobState};
use crate::shell::provider::Execution;
use crate::text::{blank, is_blank, signed_decimal, signed_text};

verus! {

/// The arguments of `bash`.
#[derive(Debug)]
pub struct BashArgs {
    /// The command to run, interpreted by `/bin/sh -c`.
    pub command: String,
    /// Deadline in milliseconds. Defaults to 120000.
    pub timeout: Option<u64>,
    /// Run in the background and return a `job_id` immediately. For long-lived processes.
    pub run_in_background: bool,
}

/// The argument of `job_output` and `job_kill`.
#[derive(Debug)]
pub struct JobRef {
    /// The id `bash` returns when backgrounding.
    pub job_id: String,
}

/// `job_list` takes nothing.
#[derive(Debug)]
pub struct NoArgs {}

/// Without a deadline, a command waiting on input hangs the whole turn.
pub const DEFAULT_TIMEOUT_MS: u64 = 120000;

pub const NO_OUTPUT: &'static str = "(không có output)";

pub const NO_JOBS: &'static str = "Không có job nào đang chạy nền.";

pub const RUNNING_STATE: &'static str = "đang chạy";

pub const STOPPED_STATE: &'static str = "đã dừng";

/// The deadline a foreground run gets, in milliseconds.
pub fn timeout_ms(timeout: Option<u64>) -> (r: u64)
    ensures
        r == match timeout {
            Some(ms) => ms,
            None => DEFAULT_TIMEOUT_MS,
        },
{
    match timeout {
        Some(ms) => ms,
        None => DEFAULT_TIMEOUT_MS,
    }
}

/// The output followed, when the run was cut short, by the reason in brackets.
pub open spec fn with_interruption(output: Seq<char>, interrupted: Option<String>) -> Seq<char> {
    match interrupted {
        Some(reason) => output + "\n["@ + reason@ + "]\n"@,
        None => output,
    }
}

/// A blank text replaced by a line that says so.
pub open spec fn or_no_output(text: Seq<char>) -> Seq<char> {
    if blank(text) {
        NO_OUTPUT@
    } else {
        text
    }
}

/// What `bash` shows for a finished foreground run: the output, the interruption, a non-zero
/// exit code; the tail holds the exit code and last error, so both stay at the end.
pub open spec fn rendered_run(run: Execution) -> Seq<char> {
    or_no_output(
        with_interruption(run.output@, run.interrupted) + match run.exit_code {
            Some(code) => if code != 0 {
                "\n[mã thoát "@ + signed_text(code as int) + "]\n"@
            } else {
                Seq::empty()
            },
            None => Seq::empty(),
        },
    )
}

fn append_interruption(text: &mut String, interrupted: &Option<String>)
    ensures
        final(text)@ == with_interruption(old(text)@, *interrupted),
{
    match interrupted {
        Some(reason) => {
            text.append("\n[");
            text.append(reason.as_str());
            text.append("]\n");
            proof {
                assert(final(text)@ =~= with_interruption(old(text)@, *interrupted));
            }
        },
        None => {},
    }
}

/// The text `bash` returns for a finished run.
pub fn render_run(run: &Execution) -> (r: String)
    ensures
        r@ == rendered_run(*run),
{
    let mut text = run.output.clone();
    append_interruption(&mut text, &run.interrupted);
    match run.exit_code {
        Some(code) => {
            if code != 0 {
                text.append("\n[mã thoát ");
                let digits = signed_decimal(code as i64);
                text.append(digits.as_str());
                text.append("]\n");
            }
        },
        None => {},
    }
    proof {
        assert(text@ =~= with_interruption(run.output@, run.interrupted) + match run.exit_code {
            Some(code) => if code != 0 {
                "\n[mã thoát "@ + signed_text(code as int) + "]\n"@
            } else {
                Seq::empty()
            },
            None => Seq::empty(),
        });
    }
    if is_blank(text.as_str()) {
        String::from_str(NO_OUTPUT)
    } else {
        text
    }
}

/// The answer when a command goes to the background.
pub open spec fn background_text(id: Seq<char>) -> Seq<char> {
    "Đã chạy nền, job `"@ + id + "`. Dùng `job_output` để lấy kết quả."@
}

pub fn background_notice(job_id: &str) -> (r: String)
    ensures
        r@ == background_text(job_id@),
{
    String::from_str("Đã chạy nền, job `").concat(job_id).concat("`. Dùng `job_output` để lấy kết quả.")
}

/// The error when no job carries an id.
pub open spec fn missing_job_text(id: Seq<char>) -> Seq<char> {
    "không có job `"@ + id + "`"@
}

pub fn missing_job(job_id: &str) -> (r: String)
    ensures
        r@ == missing_job_text(job_id@),
{
    String::from_str("không có job `").concat(job_id).concat("`")
}

/// The answer of `job_kill` when the job was there.
pub open spec fn killed_job_text(id: Seq<char>) -> Seq<char> {
    "Đã dừng job `"@ + id + "`."@
}

pub fn killed_job(job_id: &str) -> (r: String)
    ensures
        r@ == killed_job_text(job_id@),
{
    String::from_str("Đã dừng job `").concat(job_id).concat("`.")
}

/// What `job_output` shows: still running is not the same as hung, and the answer says so.
pub open spec fn job_output_text(job: Job) -> Seq<char> {
    match job.state {
        JobState::Running => "Job `"@ + job.id@ + "` vẫn đang chạy."@,
        JobState::Finished(run) => or_no_output(with_interruption(run.output@, run.interrupted)),
    }
}

pub fn job_output(job: &Job) -> (r: String)
    ensures
        r@ == job_output_text(*job),
{
    match &job.state {
        JobState::Running => String::from_str("Job `").concat(job.id.as_str()).concat(
            "` vẫn đang chạy.",
        ),
        JobState::Finished(run) => {
            let mut text = run.output.clone();
            append_interruption(&mut text, &run.interrupted);
            if is_blank(text.as_str()) {
                String::from_str(NO_OUTPUT)
            } else {
                text
            }
        },
    }
}

/// The state column of `job_list`.
pub open spec fn state_text(state: JobState) -> Seq<char> {
    match state {
        JobState::Running => RUNNING_STATE@,
        JobState::Finished(run) => match run.exit_code {
            Some(code) => "xong, mã thoát "@ + signed_text(code as int),
            None => STOPPED_STATE@,
        },
    }
}

/// One line of `job_list`.
pub open spec fn job_line(job: Job) -> Seq<char> {
    job.id@ + "  "@ + job.command@ + "  ("@ + state_text(job.state) + ")"@
}

/// The lines of `job_list`, joined by newlines.
pub open spec fn job_lines(jobs: Seq<Job>) -> Seq<char>
    decreases jobs.len(),
{
    if jobs.len() == 0 {
        Seq::empty()
    } else if jobs.len() == 1 {
        job_line(jobs[0])
    } else {
        job_lines(jobs.drop_last()) + "\n"@ + job_line(jobs.last())
    }
}

/// What `job_list` shows for the jobs in the order given.
pub open spec fn job_list_text(jobs: Seq<Job>) -> Seq<char> {
    if jobs.len() == 0 {
        NO_JOBS@
    } else {
        job_lines(jobs)
    }
}

fn state_label(state: &JobState) -> (r: String)
    ensures
        r@ == state_text(*state),
{
    match state {
        JobState::Running => String::from_str(RUNNING_STATE),
        JobState::Finished(run) => match run.exit_code {
            Some(code) => String::from_str("xong, mã thoát ").concat(
                signed_decimal(code as i64).as_str(),
            ),
            None => String::from_str(STOPPED_STATE),
        },
    }
}

pub fn job_list(jobs: &Vec<Job>) -> (r: String)
    ensures
        r@ == job_list_text(jobs@),
{
    if jobs.len() == 0 {
        return String::from_str(NO_JOBS);
    }
    let mut text = String::new();
    let mut i: usize = 0;
    while i < jobs.len()
        invariant
            0 < jobs@.len(),
            i <= jobs@.len(),
            text@ == job_lines(jobs@.take(i as int)),
        decreases jobs.len() - i,
    {
        let ghost t = jobs@.take(i + 1);
        proof {
            assert(t.drop_last() =~= jobs@.take(i as int));
            assert(t.last() == jobs@[i as int]);
            if i == 0 {
                assert(jobs@.take(0) =~= Seq::<Job>::empty());
                assert(t[0] == jobs@[0]);
            }
        }
        if i > 0 {
            text.append("\n");
        }
        let job = &jobs[i];
        text.append(job.id.as_str());
        text.append("  ");
        text.append(job.command.as_str());
        text.append("  (");
        let state = state_label(&job.state);
        text.append(state.as_str());
        text.append(")");
        proof {
            assert(text@ =~= job_lines(t));
        }
        i = i + 1;
    }
    proof {
        assert(jobs@.take(jobs.len() as int) =~= jobs@);
    }
    text
}

} // verus!
