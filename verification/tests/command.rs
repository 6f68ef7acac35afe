use std::path::PathBuf;

use shhhfs::command::mount::{
    macos_fuse_hint, mount_error_context, mount_options, mount_step, provider_from_args,
    MountAction, MountArgs, MountEvent, MountPhase, MountSetting,
};
use shhhfs::command::unmount::{
    is_white_space, trim_white_space, unmount_commands, unmount_failure_message, unmount_failure_reason,
    unmount_step, CommandOutcome, UnmountStep,
};
use shhhfs::command::Platform;
use shhhfs::provider::json::ProviderError;
use shhhfs::provider::ShhhFsProvider;

fn plan(path: &str, platform: Platform) -> Vec<(String, Vec<String>)> {
    unmount_commands(path, platform).into_iter().map(|(p, a)| (p.to_string(), a)).collect()
}

fn cmd(program: &str, args: &[&str]) -> (String, Vec<String>) {
    (program.to_string(), args.iter().map(|a| a.to_string()).collect())
}

#[test]
fn unmount_commands_on_linux() {
    assert_eq!(
        plan("/mnt/s", Platform::Linux),
        vec![
            cmd("fusermount3", &["-u", "/mnt/s"]),
            cmd("fusermount", &["-u", "/mnt/s"]),
            cmd("fusermount3", &["-u", "-z", "/mnt/s"]),
            cmd("fusermount", &["-u", "-z", "/mnt/s"]),
            cmd("umount", &["/mnt/s"]),
            cmd("umount", &["-l", "/mnt/s"]),
        ]
    );
}

#[test]
fn unmount_commands_on_macos() {
    assert_eq!(
        plan("/Volumes/x y", Platform::MacOs),
        vec![cmd("umount", &["/Volumes/x y"]), cmd("diskutil", &["unmount", "/Volumes/x y"])]
    );
}

#[test]
fn unmount_commands_elsewhere() {
    assert_eq!(plan("dir", Platform::Other), vec![cmd("umount", &["dir"])]);
}

#[test]
fn unmount_success_stops() {
    assert_eq!(
        unmount_step(Some("earlier".to_string()), "umount", CommandOutcome::Succeeded),
        UnmountStep::Unmounted
    );
}

#[test]
fn unmount_failure_with_stderr() {
    let step = unmount_step(
        None,
        "fusermount3",
        CommandOutcome::Failed { stderr: b"  not mounted\n".to_vec(), status: "exit status: 1".to_string() },
    );
    assert_eq!(step, UnmountStep::TryNext { last_error: Some("fusermount3: not mounted".to_string()) });
}

#[test]
fn unmount_failure_without_stderr() {
    let step = unmount_step(
        Some("old".to_string()),
        "umount",
        CommandOutcome::Failed { stderr: b" \n\t".to_vec(), status: "exit status: 32".to_string() },
    );
    assert_eq!(step, UnmountStep::TryNext { last_error: Some("umount exited with exit status: 32".to_string()) });
}

#[test]
fn unmount_missing_program_keeps_last_error() {
    assert_eq!(
        unmount_step(Some("fusermount3: busy".to_string()), "fusermount", CommandOutcome::NotFound),
        UnmountStep::TryNext { last_error: Some("fusermount3: busy".to_string()) }
    );
    assert_eq!(unmount_step(None, "fusermount", CommandOutcome::NotFound), UnmountStep::TryNext { last_error: None });
}

#[test]
fn unmount_error_output_is_read_leniently() {
    let step = unmount_step(
        None,
        "umount",
        CommandOutcome::Failed { stderr: b"bad \xff byte".to_vec(), status: "exit status: 1".to_string() },
    );
    assert_eq!(step, UnmountStep::TryNext { last_error: Some("umount: bad \u{fffd} byte".to_string()) });
}

#[test]
fn unmount_spawn_error() {
    assert_eq!(
        unmount_step(None, "umount", CommandOutcome::SpawnFailed { error: "permission denied".to_string() }),
        UnmountStep::TryNext { last_error: Some("umount: permission denied".to_string()) }
    );
}

#[test]
fn unmount_failure_reasons() {
    assert_eq!(unmount_failure_reason(Some("umount: busy".to_string())), "umount: busy");
    assert_eq!(unmount_failure_reason(None), "no unmount command was available");
}

#[test]
fn unmount_failure_messages_name_the_path() {
    assert_eq!(
        unmount_failure_message(&PathBuf::from("/mnt/s"), None),
        "failed to unmount \"/mnt/s\": no unmount command was available"
    );
    assert_eq!(
        unmount_failure_message(&PathBuf::from("/mnt/s"), Some("umount: busy".to_string())),
        "failed to unmount \"/mnt/s\": umount: busy"
    );
}

#[test]
fn trimming_drops_unicode_white_space_at_both_ends() {
    assert_eq!(trim_white_space("  a b \n"), "a b");
    assert_eq!(trim_white_space("\u{3000}\u{85}x\u{a0}\u{2029}"), "x");
    assert_eq!(trim_white_space(" \t\r\n "), "");
    assert_eq!(trim_white_space(""), "");
    assert_eq!(trim_white_space("x\u{200b}"), "x\u{200b}");
    for c in ['\u{9}', '\u{d}', ' ', '\u{1680}', '\u{2000}', '\u{200a}', '\u{2028}', '\u{202f}', '\u{205f}'] {
        assert!(is_white_space(c));
    }
    for c in ['a', '\u{8}', '\u{e}', '\u{200b}', '\u{feff}', '\u{180e}'] {
        assert!(!is_white_space(c));
    }
    for s in ["  a b \n", "\u{3000}x\u{85}", "\u{feff}y\u{feff}", " \u{180e} "] {
        assert_eq!(trim_white_space(s), s.trim());
    }
}

#[test]
fn unmount_run_reports_last_real_error() {
    let outcomes = vec![
        CommandOutcome::Failed { stderr: b"a".to_vec(), status: "exit status: 1".to_string() },
        CommandOutcome::SpawnFailed { error: "b".to_string() },
        CommandOutcome::NotFound,
    ];
    let programs = ["p1", "p2", "p3"];
    let mut last = None;
    for (program, outcome) in programs.iter().zip(outcomes) {
        match unmount_step(last, program, outcome) {
            UnmountStep::Unmounted => panic!("nothing succeeded"),
            UnmountStep::TryNext { last_error } => last = last_error,
        }
    }
    assert_eq!(unmount_failure_reason(last), "p2: b");
}

fn args(provider: &str, opts: Option<&str>) -> MountArgs {
    MountArgs { path: PathBuf::from("/mnt"), provider: provider.to_string(), provider_opts: opts.map(str::to_string) }
}

#[test]
fn json_provider_from_args() {
    let provider = provider_from_args(&args("json", Some(r#"{"k": "v"}"#))).unwrap();
    assert_eq!(provider.entries().len(), 1);
    assert_eq!(provider.entries()[0].name, "k");
    assert_eq!(provider.entries()[0].contents, b"v".to_vec());
}

#[test]
fn json_provider_needs_options() {
    assert!(matches!(provider_from_args(&args("json", None)), Err(ProviderError::MissingOptions)));
}

#[test]
fn json_provider_bad_options() {
    assert!(matches!(provider_from_args(&args("json", Some("nope"))), Err(ProviderError::InvalidJson(_))));
    assert!(matches!(provider_from_args(&args("json", Some("[]"))), Err(ProviderError::NotAnObject)));
}

#[test]
fn unknown_provider() {
    match provider_from_args(&args("1password", Some("{}"))) {
        Err(ProviderError::UnknownProvider(name)) => assert_eq!(name, "1password"),
        other => panic!("unexpected: {other:?}"),
    }
    assert!(matches!(provider_from_args(&args("JSON", Some("{}"))), Err(ProviderError::UnknownProvider(_))));
}

#[test]
fn mount_error_context_adds_path_and_macos_hint() {
    let err = std::io::Error::new(std::io::ErrorKind::NotFound, "no fuse");
    let failure = mount_error_context(err, PathBuf::from("/mnt/s"), Platform::MacOs);
    assert_eq!(failure.path, PathBuf::from("/mnt/s"));
    assert_eq!(failure.cause.to_string(), "no fuse");
    assert_eq!(
        failure.contexts,
        vec![macos_fuse_hint().to_string(), "failed to mount virtual file system at \"/mnt/s\"".to_string()]
    );
    assert!(macos_fuse_hint().starts_with("macOS requires macFUSE."));

    let err = std::io::Error::new(std::io::ErrorKind::PermissionDenied, "denied");
    let failure = mount_error_context(err, PathBuf::from("/mnt/s"), Platform::Linux);
    assert_eq!(failure.contexts, vec!["failed to mount virtual file system at \"/mnt/s\"".to_string()]);
    assert_eq!(failure.cause.kind(), std::io::ErrorKind::PermissionDenied);
}

#[test]
fn mount_error_message_quotes_the_path() {
    let err = std::io::Error::new(std::io::ErrorKind::Other, "boom");
    let failure = mount_error_context(err, PathBuf::from("/tmp/s"), Platform::Other);
    assert_eq!(failure.contexts, vec!["failed to mount virtual file system at \"/tmp/s\"".to_string()]);
    let err = std::io::Error::new(std::io::ErrorKind::Other, "boom");
    let failure = mount_error_context(err, PathBuf::from("/tmp/a \"b\""), Platform::Linux);
    assert_eq!(failure.contexts, vec!["failed to mount virtual file system at \"/tmp/a \\\"b\\\"\"".to_string()]);
}

#[test]
fn mount_is_read_only_and_named() {
    assert_eq!(mount_options(), vec![MountSetting::ReadOnly, MountSetting::FsName("shhhfs".to_string())]);
}

#[test]
fn mount_prepares_then_starts() {
    assert_eq!(
        mount_step(MountPhase::ChoosingProvider, MountEvent::ProviderBuilt { ok: true }),
        (MountPhase::Preparing, MountAction::CreateDirectory)
    );
    assert_eq!(
        mount_step(MountPhase::ChoosingProvider, MountEvent::ProviderBuilt { ok: false }),
        (MountPhase::Finished, MountAction::Fail)
    );
    assert_eq!(
        mount_step(MountPhase::ChoosingProvider, MountEvent::DirectoryReady { ok: true }),
        (MountPhase::ChoosingProvider, MountAction::Ignore)
    );
    assert_eq!(
        mount_step(MountPhase::Preparing, MountEvent::DirectoryReady { ok: true }),
        (MountPhase::Starting, MountAction::StartMount)
    );
    assert_eq!(
        mount_step(MountPhase::Starting, MountEvent::MountStarted { ok: true }),
        (MountPhase::Serving, MountAction::AwaitSessionOrSignal)
    );
    assert_eq!(
        mount_step(MountPhase::Preparing, MountEvent::DirectoryReady { ok: false }),
        (MountPhase::Finished, MountAction::Fail)
    );
    assert_eq!(
        mount_step(MountPhase::Starting, MountEvent::MountStarted { ok: false }),
        (MountPhase::Finished, MountAction::Fail)
    );
    assert_eq!(
        mount_step(MountPhase::Preparing, MountEvent::SessionEnded { ok: true }),
        (MountPhase::Preparing, MountAction::Ignore)
    );
}

#[test]
fn mount_ends_when_session_ends() {
    assert_eq!(
        mount_step(MountPhase::Serving, MountEvent::SessionEnded { ok: true }),
        (MountPhase::Finished, MountAction::Succeed)
    );
    assert_eq!(
        mount_step(MountPhase::Serving, MountEvent::SessionEnded { ok: false }),
        (MountPhase::Finished, MountAction::Fail)
    );
}

#[test]
fn mount_unmounts_on_signal_then_drains() {
    let (phase, action) = mount_step(MountPhase::Serving, MountEvent::ShutdownSignal { ok: true });
    assert_eq!((phase, action), (MountPhase::Unmounting, MountAction::Unmount));
    let (phase, action) = mount_step(phase, MountEvent::UnmountDone { ok: true });
    assert_eq!((phase, action), (MountPhase::Draining, MountAction::AwaitSession));
    let (phase, action) = mount_step(phase, MountEvent::SessionEnded { ok: true });
    assert_eq!((phase, action), (MountPhase::Finished, MountAction::Succeed));
}

#[test]
fn mount_failures_while_stopping() {
    assert_eq!(
        mount_step(MountPhase::Serving, MountEvent::ShutdownSignal { ok: false }),
        (MountPhase::Finished, MountAction::Fail)
    );
    assert_eq!(
        mount_step(MountPhase::Unmounting, MountEvent::UnmountDone { ok: false }),
        (MountPhase::Finished, MountAction::Fail)
    );
    assert_eq!(
        mount_step(MountPhase::Draining, MountEvent::SessionEnded { ok: false }),
        (MountPhase::Finished, MountAction::Fail)
    );
}

#[test]
fn mount_ignores_out_of_place_events() {
    assert_eq!(
        mount_step(MountPhase::Finished, MountEvent::SessionEnded { ok: true }),
        (MountPhase::Finished, MountAction::Ignore)
    );
    assert_eq!(
        mount_step(MountPhase::Serving, MountEvent::UnmountDone { ok: true }),
        (MountPhase::Serving, MountAction::Ignore)
    );
    assert_eq!(
        mount_step(MountPhase::Draining, MountEvent::ShutdownSignal { ok: true }),
        (MountPhase::Draining, MountAction::Ignore)
    );
}
