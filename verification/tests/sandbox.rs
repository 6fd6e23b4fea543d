//! The confinement seam on concrete policies: what each provider wraps, refuses and reports,
//! and where writes are allowed.

use pai_harness::sandbox::landlock::Landlock;
use pai_harness::sandbox::machine::{Host, Sandbox, for_this_machine};
use pai_harness::sandbox::plugin::SandboxPlugin;
use pai_harness::sandbox::runner::{RunnerError, parse_runner_args};
use pai_harness::sandbox::policy::{Mode, Policy, dedup_nested, is_writable, keep_resolved, writable_candidates};
use pai_harness::sandbox::seam::{Enforcement, SandboxError, SandboxProvider};
use pai_harness::sandbox::seatbelt::{Seatbelt, profile, sbpl_string};
use pai_harness::sandbox::unconfined::{Unconfined, WINDOWS_REASON};

fn strings(items: &[&str]) -> Vec<String> {
    items.iter().map(|item| item.to_string()).collect()
}

#[test]
fn a_provider_that_does_not_confine_never_reports_that_it_does() {
    let unconfined = Unconfined::new("máy này không có gì để giam".to_string());
    assert!(!unconfined.enforcement().confines());
    assert!(unconfined.enforcement().reason().is_some());
}

#[test]
fn confinement_danger_full_access_wraps_nothing() {
    let policy = Policy::danger_full_access("/tmp/pai-workspace".to_string());
    let argv = strings(&["/bin/echo", "hello"]);

    let seatbelt = Seatbelt::with_runner("/usr/bin/sandbox-exec".to_string());
    let wrapped = seatbelt.wrap(argv.clone(), &policy, &Vec::new()).expect("wraps");
    assert_eq!(wrapped, argv);
    assert_eq!(policy.mode, Mode::DangerFullAccess);
}

#[test]
fn landlock_confinement_danger_full_access_wraps_nothing() {
    let policy = Policy::danger_full_access("/tmp/pai-workspace".to_string());
    let argv = strings(&["/bin/echo", "hello"]);
    let provider = Landlock::with_runner("/opt/pai/pai-landlock-run".to_string(), None, false);
    assert_eq!(provider.wrap(argv.clone(), &policy, &Vec::new()).expect("wraps"), argv);
    assert_eq!(policy.mode, Mode::DangerFullAccess);
}

#[test]
fn without_confinement_it_refuses_to_run_rather_than_running_bare() {
    let policy = Policy::workspace_write("/tmp/pai-workspace".to_string());
    let broken = Landlock::with_runner("/no-such-file".to_string(), Some(4), false);
    let err = broken
        .wrap(strings(&["/bin/echo", "hello"]), &policy, &Vec::new())
        .expect_err("no confinement means nothing runs");
    assert!(err.message().contains("không giam được"), "{}", err.message());
}

#[test]
fn the_default_still_leaves_the_network_alone() {
    let roots = strings(&["/tmp/pai-workspace"]);
    let profile_text = profile(&Policy::new(Mode::WorkspaceWrite, "/tmp/pai-workspace".to_string()), &roots);
    assert!(!profile_text.contains("network"), "{profile_text}");

    let denied = profile(&Policy::new(Mode::WorkspaceWrite, "/tmp/pai-workspace".to_string()).deny_network(), &roots);
    let allow_at = denied.find("(allow default)").expect("has allow default");
    let deny_at = denied.find("(deny network*)").expect("has deny network");
    assert!(deny_at > allow_at, "{denied}");
}

#[test]
fn profile_text_is_exact() {
    let roots = strings(&["/a", "/b c"]);
    let text = profile(&Policy::workspace_write("/a".to_string()).deny_network(), &roots);
    assert_eq!(
        text,
        "(version 1)\n(allow default)\n(deny file-write*)\n(allow file-write* (literal \"/dev/null\"))\n(deny network*)\n(allow file-write* (subpath \"/a\") (subpath \"/b c\"))"
    );
    let read_only = profile(&Policy::read_only("/a".to_string()), &Vec::new());
    assert!(read_only.ends_with("(literal \"/dev/null\"))"));
}

#[test]
fn sbpl_strings_escape_quotes_and_backslashes() {
    assert_eq!(sbpl_string("a\"b\\c"), "\"a\\\"b\\\\c\"");
}

#[test]
fn seatbelt_wraps_with_profile_and_closes_options() {
    let policy = Policy::workspace_write("/w".to_string());
    let seatbelt = Seatbelt::with_runner("/usr/bin/sandbox-exec".to_string());
    let roots = strings(&["/w"]);
    let wrapped = seatbelt.wrap(strings(&["-x"]), &policy, &roots).expect("wraps");
    assert_eq!(wrapped[0], "/usr/bin/sandbox-exec");
    assert_eq!(wrapped[1], "-p");
    assert_eq!(wrapped[2], profile(&policy, &roots));
    assert_eq!(&wrapped[3..], &["--".to_string(), "-x".to_string()]);
    assert!(seatbelt.enforcement().is_full());
    assert!(seatbelt.network_confinable());
    assert!(matches!(seatbelt.wrap(Vec::new(), &policy, &roots), Err(SandboxError::EmptyArgv)));
}

#[test]
fn landlock_wraps_through_its_runner() {
    let policy = Policy::workspace_write("/w".to_string()).deny_network();
    let provider = Landlock::with_runner("/opt/pai/pai-landlock-run".to_string(), Some(5), true);
    let wrapped = provider
        .wrap(strings(&["/bin/sh", "-c", "ls"]), &policy, &strings(&["/w", "/tmp"]))
        .expect("wraps");
    assert_eq!(
        wrapped,
        strings(&[
            "/opt/pai/pai-landlock-run",
            "--deny-network",
            "--allow-write",
            "/w",
            "--allow-write",
            "/tmp",
            "--",
            "/bin/sh",
            "-c",
            "ls",
        ])
    );
    assert!(provider.network_confinable());
    assert!(provider.enforcement().is_full());
}

#[test]
fn landlock_enforcement_by_abi() {
    let at = |abi: Option<i32>, present: bool| Landlock::with_runner("/r".to_string(), abi, present).enforcement();
    assert_eq!(at(None, true).label(), "none");
    assert!(at(None, true).reason().unwrap().starts_with("kernel này không có Landlock"));
    assert_eq!(
        at(Some(3), false),
        Enforcement::Absent("không tìm thấy `pai-landlock-run` cạnh tệp thực thi; bản cài đặt thiếu tệp".to_string())
    );
    assert_eq!(at(Some(1), true).label(), "partial");
    assert_eq!(at(Some(2), true).label(), "partial");
    assert_eq!(at(Some(3), true), Enforcement::Full);
    assert!(!Landlock::with_runner("/r".to_string(), Some(3), true).network_confinable());
    assert!(at(Some(1), true).confines());
    assert!(!at(Some(1), true).is_full());
}

#[test]
fn unconfined_refuses_confining_modes() {
    let unconfined = Unconfined::new("không có".to_string());
    let argv = strings(&["/bin/true"]);
    match unconfined.wrap(argv.clone(), &Policy::read_only("/w".to_string()), &Vec::new()) {
        Err(SandboxError::Unavailable(why)) => assert_eq!(why, "không có"),
        other => panic!("{:?}", other),
    }
    assert_eq!(
        unconfined.wrap(argv.clone(), &Policy::danger_full_access("/w".to_string()), &Vec::new()).unwrap(),
        argv
    );
    assert!(!unconfined.network_confinable());
    assert_eq!(
        SandboxError::Unresolvable("/x".to_string(), "lỗi".to_string()).message(),
        "không phân giải được /x: lỗi"
    );
}

#[test]
fn modes_have_wire_names() {
    assert_eq!(Mode::ReadOnly.as_str(), "read-only");
    assert_eq!(Mode::WorkspaceWrite.as_str(), "workspace-write");
    assert_eq!(Mode::DangerFullAccess.as_str(), "danger-full-access");
    assert!(Mode::ReadOnly.confining());
    assert!(!Mode::DangerFullAccess.confining());
}

#[test]
fn only_workspace_write_opens_roots() {
    let write = Policy::workspace_write("/w".to_string());
    assert_eq!(writable_candidates(&write, "/t".to_string()), strings(&["/w", "/t", "/tmp", "/var/tmp"]));
    assert!(writable_candidates(&Policy::read_only("/w".to_string()), "/t".to_string()).is_empty());
    assert_eq!(
        keep_resolved(vec![Some("/a".to_string()), None, Some("/b".to_string())]),
        strings(&["/a", "/b"])
    );
}

#[test]
fn nested_and_duplicate_roots_collapse() {
    let roots = dedup_nested(strings(&["/tmp/x", "/var/tmp", "/tmp", "/tmp", "/tmpfoo"]));
    assert_eq!(roots, strings(&["/tmp", "/tmpfoo", "/var/tmp"]));
    let ordered = dedup_nested(strings(&["/a-c", "/a/b"]));
    assert_eq!(ordered, strings(&["/a/b", "/a-c"]));
}

#[test]
fn writes_land_only_inside_roots() {
    let policy = Policy::workspace_write("/w".to_string());
    let roots = strings(&["/w", "/tmp"]);
    assert!(is_writable(&policy, &roots, "/w/src/a.rs"));
    assert!(is_writable(&policy, &roots, "/tmp"));
    assert!(!is_writable(&policy, &roots, "/tmpfoo/a"));
    assert!(!is_writable(&policy, &roots, "/home/a"));
    assert!(!is_writable(&Policy::read_only("/w".to_string()), &Vec::new(), "/w/a"));
    assert!(!is_writable(&Policy::read_only("/w".to_string()), &roots, "/w/a"));
    assert!(is_writable(&Policy::danger_full_access("/w".to_string()), &Vec::new(), "/etc/x"));
}

#[test]
fn each_machine_gets_a_provider_with_its_reason() {
    let mac = for_this_machine(Host::MacOs { sandbox_exec_usable: true });
    assert!(matches!(&mac, Sandbox::Seatbelt(b) if b.runner() == "/usr/bin/sandbox-exec"));
    assert_eq!(mac.enforcement(), Enforcement::Full);
    assert!(mac.network_confinable());

    let broken_mac = for_this_machine(Host::MacOs { sandbox_exec_usable: false });
    assert_eq!(
        broken_mac.enforcement().reason(),
        Some("không tìm thấy /usr/bin/sandbox-exec trên máy này")
    );

    let windows = for_this_machine(Host::Other);
    assert_eq!(windows.enforcement().reason(), Some(WINDOWS_REASON));
    assert!(!windows.network_confinable());
    let refused = windows.wrap(strings(&["ls"]), &Policy::read_only("/w".to_string()), &Vec::new());
    assert!(matches!(refused, Err(SandboxError::Unavailable(why)) if why == WINDOWS_REASON));

    let linux = for_this_machine(Host::Linux { runner: Some("/opt/pai/pai-landlock-run".to_string()), abi: Some(4) });
    assert_eq!(linux.enforcement(), Enforcement::Full);
    assert!(linux.network_confinable());
    let wrapped = linux
        .wrap(strings(&["ls"]), &Policy::workspace_write("/w".to_string()), &strings(&["/w"]))
        .expect("wraps");
    assert_eq!(wrapped, strings(&["/opt/pai/pai-landlock-run", "--allow-write", "/w", "--", "ls"]));

    let old_kernel = for_this_machine(Host::Linux { runner: Some("/opt/pai/pai-landlock-run".to_string()), abi: Some(2) });
    assert!(matches!(old_kernel.enforcement(), Enforcement::Partial(_)));
    assert!(!old_kernel.network_confinable());
}

#[test]
fn landlock_detect_keeps_both_halves_of_the_probe() {
    let missing = Landlock::detect(None, Some(3));
    assert_eq!(missing.runner(), "");
    assert!(matches!(missing.enforcement(), Enforcement::Absent(_)));
    let no_kernel = Landlock::detect(Some("/opt/pai/pai-landlock-run".to_string()), None);
    assert_eq!(no_kernel.runner(), "/opt/pai/pai-landlock-run");
    assert!(matches!(no_kernel.enforcement(), Enforcement::Absent(why) if why.contains("Landlock")));
}

#[test]
fn the_plugin_mounts_only_a_provider() {
    let plugin = SandboxPlugin::new(Host::Other);
    assert_eq!(plugin.name(), "sandbox");
    assert!(!plugin.provider().enforcement().confines());
    let chosen = SandboxPlugin::with_provider(Seatbelt::with_runner("/x/sandbox-exec".to_string()));
    assert_eq!(chosen.provider().runner(), "/x/sandbox-exec");
}

#[test]
fn the_runner_reads_back_what_landlock_wrote() {
    let landlock = Landlock::with_runner("/opt/pai/pai-landlock-run".to_string(), Some(5), true);
    let mut policy = Policy::workspace_write("/w".to_string());
    policy.deny_network = true;
    let command = strings(&["--", "-n", "--allow-write"]);
    let wrapped = landlock.wrap(command.clone(), &policy, &strings(&["/w", "/tmp"])).expect("wraps");
    let parsed = parse_runner_args(&wrapped[1..].to_vec()).expect("reads");
    assert_eq!(parsed.writable, strings(&["/w", "/tmp"]));
    assert!(parsed.deny_network);
    assert_eq!(parsed.argv, command);
}

#[test]
fn the_runner_refuses_a_command_line_it_cannot_read() {
    let missing = parse_runner_args(&strings(&["--allow-write"])).err().expect("refused");
    assert!(matches!(missing, RunnerError::MissingPath));
    assert_eq!(missing.message(), "--allow-write thiếu đường dẫn");
    assert_eq!(missing.code(), 2);

    let unknown = parse_runner_args(&strings(&["--read-only", "--", "ls"])).err().expect("refused");
    assert_eq!(unknown.message(), "tham số lạ: --read-only");

    for line in [strings(&[]), strings(&["--allow-write", "/w"]), strings(&["--deny-network", "--"])] {
        let refused = parse_runner_args(&line).err().expect("refused");
        assert!(matches!(refused, RunnerError::NoCommand));
        assert_eq!(refused.message(), "không có lệnh nào để chạy");
    }

    let plain = parse_runner_args(&strings(&["--", "ls", "-la"])).expect("reads");
    assert!(plain.writable.is_empty());
    assert!(!plain.deny_network);
    assert_eq!(plain.argv, strings(&["ls", "-la"]));
}
