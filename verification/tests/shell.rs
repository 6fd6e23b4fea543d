//! What the shell tools answer, the argv a command runs with, and the background job table.

use pai_harness::clock::{mint_after, next_random};
use pai_harness::sandbox::policy::{Mode, Policy};
use pai_harness::sandbox::seam::Enforcement;
use pai_harness::sandbox::seatbelt::Seatbelt;
use pai_harness::sandbox::unconfined::Unconfined;
use pai_harness::shell::plugin::{ShellPlugin, ask_before_shell, shell_risk};
use pai_harness::shell::jobs::{Job, JobState, Jobs};
use pai_harness::shell::provider::{
    Execution, ShellError, shell_argv, signal_name, spawn_argv, split_program, timeout_reason,
};
use pai_harness::shell::tools::{
    background_notice, job_list, job_output, killed_job, missing_job, render_run, timeout_ms,
};

fn run(output: &str, exit_code: Option<i32>, interrupted: Option<&str>) -> Execution {
    Execution {
        output: output.to_string(),
        exit_code,
        signal: None,
        interrupted: interrupted.map(|reason| reason.to_string()),
    }
}

#[test]
fn a_non_zero_exit_code_is_shown_after_the_output() {
    assert_eq!(render_run(&run("lỗi\n", Some(2), None)), "lỗi\n\n[mã thoát 2]\n");
    assert_eq!(render_run(&run("ổn\n", Some(0), None)), "ổn\n");
    assert_eq!(render_run(&run("", Some(-1), None)), "\n[mã thoát -1]\n");
}

#[test]
fn an_interrupted_run_says_why() {
    assert_eq!(
        render_run(&run("một phần\n", None, Some("lượt đã bị huỷ"))),
        "một phần\n\n[lượt đã bị huỷ]\n"
    );
    assert_eq!(timeout_reason(120), "lệnh bị dừng sau 120 giây");
}

#[test]
fn blank_output_still_gets_a_line() {
    assert_eq!(render_run(&run("  \n\t", Some(0), None)), "(không có output)");
    assert_eq!(render_run(&run("", None, None)), "(không có output)");
    assert_eq!(render_run(&Execution::default()), "(không có output)");
}

#[test]
fn deadlines_default_to_two_minutes() {
    assert_eq!(timeout_ms(None), 120_000);
    assert_eq!(timeout_ms(Some(5)), 5);
}

#[test]
fn commands_run_through_sh_and_the_sandbox() {
    let policy = Policy::workspace_write("/w".to_string());
    let bare = spawn_argv::<Seatbelt>(None, "echo hi", &policy, &Vec::new()).expect("bare");
    assert_eq!(bare, shell_argv("echo hi"));
    assert_eq!(bare, vec!["/bin/sh".to_string(), "-c".to_string(), "echo hi".to_string()]);

    let seatbelt = Seatbelt::with_runner("/usr/bin/sandbox-exec".to_string());
    let wrapped = spawn_argv(Some(&seatbelt), "echo hi", &policy, &vec!["/w".to_string()]).expect("wrapped");
    assert_eq!(wrapped[0], "/usr/bin/sandbox-exec");
    assert_eq!(&wrapped[4..], &bare[..]);

    let refusing = Unconfined::new("không có".to_string());
    match spawn_argv(Some(&refusing), "echo hi", &policy, &Vec::new()) {
        Err(ShellError::Spawn(why)) => assert_eq!(why, "không giam được tiến trình trên máy này: không có"),
        other => panic!("{:?}", other),
    }
    match split_program(Vec::new()) {
        Err(error) => assert_eq!(error.message(), "không chạy được lệnh: argv rỗng"),
        Ok(_) => panic!("argv rỗng không chạy được"),
    }
    let (program, args) = split_program(bare).expect("splits");
    assert_eq!(program, "/bin/sh");
    assert_eq!(args, vec!["-c".to_string(), "echo hi".to_string()]);
    assert_eq!(signal_name(9), "SIG9");
}

#[test]
fn background_jobs_are_listed_by_id() {
    let mut jobs = Jobs::new();
    assert_eq!(job_list(&jobs.list()), "Không có job nào đang chạy nền.");
    jobs.start_with_id("b".into(), "sleep 9".into(), "/w".into());
    jobs.start_with_id("a".into(), "make".into(), "/w".into());
    jobs.finish("a", run("xong\n", Some(0), None));
    assert!(jobs.kill("b"));
    assert!(!jobs.kill("z"));
    assert_eq!(
        job_list(&jobs.list()),
        "a  make  (xong, mã thoát 0)\nb  sleep 9  (đang chạy)"
    );
    let a: &Job = jobs.get("a").expect("có job a");
    assert_eq!(job_output(a), "xong\n");
    assert!(matches!(jobs.get("b").map(|job| &job.state), Some(JobState::Running)));
    assert_eq!(job_output(jobs.get("b").unwrap()), "Job `b` vẫn đang chạy.");
    jobs.start_with_id("b".into(), "true".into(), "/x".into());
    assert_eq!(jobs.list().len(), 2);
    assert_eq!(jobs.get("b").unwrap().command, "true");
}

#[test]
fn job_answers_name_the_job() {
    assert_eq!(background_notice("j1"), "Đã chạy nền, job `j1`. Dùng `job_output` để lấy kết quả.");
    assert_eq!(missing_job("j1"), "không có job `j1`");
    assert_eq!(killed_job("j1"), "Đã dừng job `j1`.");
    let stopped = Job {
        id: "j2".into(),
        command: "sleep 1".into(),
        cwd: "/w".into(),
        state: JobState::Finished(run("", None, Some("lượt đã bị huỷ"))),
    };
    assert_eq!(job_output(&stopped), "\n[lượt đã bị huỷ]\n");
    assert_eq!(job_list(&vec![stopped]), "j2  sleep 1  (đã dừng)");
}

#[test]
fn the_approval_question_states_the_real_risk() {
    assert_eq!(
        shell_risk(Some(&Enforcement::Full)),
        "Lệnh chạy trong vòng giam: nó chỉ ghi được vào thư mục làm việc. Nó vẫn đọc được toàn máy và vẫn ra được mạng."
    );
    assert_eq!(
        shell_risk(Some(&Enforcement::Partial("ABI 2".to_string()))),
        "Vòng giam không đầy đủ trên máy này (ABI 2). Lệnh chạy gần như với đầy đủ quyền của bạn."
    );
    assert_eq!(shell_risk(None), "Không có vòng giam nào. Lệnh chạy với đầy đủ quyền của bạn.");
}

#[test]
fn only_an_allowed_bash_call_becomes_a_question() {
    let absent = Enforcement::Absent("không có".to_string());
    assert_eq!(
        ask_before_shell("bash", true, Some(&absent)).as_deref(),
        Some("Vòng giam không đầy đủ trên máy này (không có). Lệnh chạy gần như với đầy đủ quyền của bạn.")
    );
    assert_eq!(ask_before_shell("bash", false, Some(&absent)), None);
    assert_eq!(ask_before_shell("job_list", true, None), None);
}

#[test]
fn the_shell_writes_only_in_its_working_directory() {
    let plugin = ShellPlugin::new("/home/u/repo".to_string());
    assert_eq!(plugin.name(), "shell");
    assert_eq!(plugin.cwd(), "/home/u/repo");
    let policy = plugin.policy();
    assert_eq!(policy.mode, Mode::WorkspaceWrite);
    assert_eq!(policy.workspace_root, "/home/u/repo");
    assert!(!policy.deny_network);
}

#[test]
fn a_started_job_gets_a_fresh_id_and_runs() {
    let mut jobs = Jobs::new();
    let first = jobs.start("sleep 9".into(), "/w".into()).expect("an id from the clock");
    let second = jobs.start("make".into(), "/w".into()).expect("an id from the clock");
    assert_ne!(first.id, second.id);
    assert!(first.id < second.id, "ids must sort in start order: {} {}", first.id, second.id);
    assert_eq!(first.id.len(), 36);
    assert!(matches!(jobs.get(&first.id).expect("listed").state, JobState::Running));
    assert_eq!(jobs.get(&second.id).expect("listed").command, "make");
    assert_eq!(jobs.list().len(), 2);
}

#[test]
fn ids_minted_in_one_burst_sort_in_start_order() {
    let mut jobs = Jobs::new();
    let mut ids = Vec::new();
    for k in 0..200 {
        ids.push(jobs.start(format!("job {k}"), "/w".into()).expect("an id from the clock").id);
    }
    let mut sorted = ids.clone();
    sorted.sort();
    assert_eq!(ids, sorted);
    let listed: Vec<String> = jobs.list().into_iter().map(|job| job.id).collect();
    assert_eq!(listed, ids);
}

#[test]
fn random_bytes_count_up_in_their_last_seven() {
    assert_eq!(next_random([9, 9, 9, 0, 0, 0, 0, 0, 0, 255]), Some([9, 9, 9, 0, 0, 0, 0, 0, 1, 0]));
    assert_eq!(next_random([9, 9, 9, 255, 255, 255, 255, 255, 255, 255]), None);
}

#[test]
fn an_id_that_would_not_sort_later_steps_the_last_random_bytes() {
    use_mint();
}

fn use_mint() {
    let first = mint_after(&None, 1_000, [0; 10]).expect("the first id");
    assert_eq!((first.1, first.2), (1_000, [0; 10]));
    let second = mint_after(&Some(first.clone()), 1_000, [0; 10]).expect("a later id");
    assert_eq!((second.1, second.2), (1_000, [0, 0, 0, 0, 0, 0, 0, 0, 0, 1]));
    assert!(first.0 < second.0);
    let fresh = mint_after(&Some(first.clone()), 2_000, [0; 10]).expect("a later millisecond");
    assert_eq!(fresh.1, 2_000);
    let full = (first.0.clone(), 1_000u64, [0, 0, 0, 255, 255, 255, 255, 255, 255, 255]);
    assert_eq!(mint_after(&Some((full.0.clone(), full.1, full.2)), 1_000, [0; 10]), None);
}
