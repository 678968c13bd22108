use openshell::policy::{
    FilesystemPolicy, LandlockCompatibility, LandlockPolicy, NetworkPolicy, ProcessPolicy,
    SandboxPolicy,
};
use openshell::sandbox::landlock::{
    access_rights, classify_io_error, classify_path_fd_error, compat_level, finalize_result,
    io_error_reason, open_event, plan_grants, resolve_paths, skip_level, try_open_path, CompatLevel,
    IoErrorKind, LandlockError, PathAccess, RulesetAction, RulesetBuild, RulesetEvent, SkipLevel,
};

use landlock::{Access, PathFd};

fn open(
    path: &str,
    compatibility: LandlockCompatibility,
) -> Result<Option<PathFd>, LandlockError> {
    try_open_path(path, PathFd::new(path), &compatibility)
}

#[test]
fn try_open_path_best_effort_returns_none_for_missing_path() {
    let result = open(
        "/nonexistent/openshell/test/path",
        LandlockCompatibility::BestEffort,
    );
    assert!(result.is_ok());
    assert!(result.unwrap().is_none());
}

#[test]
fn try_open_path_hard_requirement_errors_for_missing_path() {
    let result = open(
        "/nonexistent/openshell/test/path",
        LandlockCompatibility::HardRequirement,
    );
    assert!(result.is_err());
    let err_msg = result.unwrap_err().message();
    assert!(
        err_msg.contains("hard_requirement"),
        "error should mention hard_requirement mode: {err_msg}"
    );
    assert!(
        err_msg.contains("does not exist"),
        "error should include the classified reason: {err_msg}"
    );
}

#[test]
fn try_open_path_succeeds_for_existing_path() {
    let dir = tempfile::tempdir().unwrap();
    let path = dir.path().to_str().unwrap();
    let result = open(path, LandlockCompatibility::BestEffort);
    assert!(result.is_ok());
    assert!(result.unwrap().is_some());
}

#[test]
fn classify_not_found() {
    let err = std::io::Error::from_raw_os_error(libc::ENOENT);
    assert_eq!(classify_io_error(&err), "path does not exist");
}

#[test]
fn classify_permission_denied() {
    let err = std::io::Error::from_raw_os_error(libc::EACCES);
    assert_eq!(classify_io_error(&err), "permission denied");
}

#[test]
fn classify_symlink_loop() {
    let err = std::io::Error::from_raw_os_error(libc::ELOOP);
    assert_eq!(classify_io_error(&err), "too many symlink levels");
}

#[test]
fn classify_name_too_long() {
    let err = std::io::Error::from_raw_os_error(libc::ENAMETOOLONG);
    assert_eq!(classify_io_error(&err), "path name too long");
}

#[test]
fn classify_not_a_directory() {
    let err = std::io::Error::from_raw_os_error(libc::ENOTDIR);
    assert_eq!(classify_io_error(&err), "path component is not a directory");
}

fn fs_policy(
    read_only: Vec<String>,
    read_write: Vec<String>,
    include_workdir: bool,
) -> SandboxPolicy {
    SandboxPolicy {
        version: 1,
        filesystem: FilesystemPolicy {
            read_only,
            read_write,
            include_workdir,
        },
        network: NetworkPolicy::default(),
        landlock: LandlockPolicy::default(),
        process: ProcessPolicy::default(),
    }
}

#[test]
fn resolve_paths_appends_workdir_as_read_write() {
    let (ro, rw) = resolve_paths(&fs_policy(vec![], vec![], true), Some("/work"));
    assert!(ro.is_empty());
    assert_eq!(rw, vec!["/work".to_string()]);
}

#[test]
fn resolve_paths_does_not_duplicate_existing_workdir() {
    let policy = fs_policy(vec![], vec!["/work".to_string()], true);
    let (_, rw) = resolve_paths(&policy, Some("/work"));
    assert_eq!(
        rw,
        vec!["/work".to_string()],
        "an already-present workdir must not be duplicated"
    );
}

#[test]
fn resolve_paths_skips_workdir_when_not_included() {
    let (ro, rw) = resolve_paths(&fs_policy(vec![], vec![], false), Some("/work"));
    assert!(
        ro.is_empty() && rw.is_empty(),
        "workdir must be ignored when include_workdir is false"
    );
}

#[test]
fn resolve_paths_empty_policy_stays_empty() {
    let (ro, rw) = resolve_paths(&fs_policy(vec![], vec![], true), None);
    assert!(ro.is_empty() && rw.is_empty());
}

#[test]
fn finalize_best_effort_downgrades_error_to_ok() {
    // The central tradeoff: a failed ruleset build in best-effort mode runs
    // the process WITHOUT a filesystem sandbox instead of aborting.
    let out = finalize_result(
        Err(miette::Report::msg("ruleset failed")),
        &LandlockCompatibility::BestEffort,
    );
    assert!(
        out.is_ok(),
        "best-effort must swallow the error and continue"
    );
}

#[test]
fn finalize_hard_requirement_propagates_error() {
    let out = finalize_result(
        Err(miette::Report::msg("ruleset failed")),
        &LandlockCompatibility::HardRequirement,
    );
    assert!(out.is_err(), "hard-requirement must propagate the error");
    assert_eq!(out.unwrap_err().to_string(), "ruleset failed");
}

#[test]
fn finalize_success_passes_through_in_both_modes() {
    assert!(finalize_result::<LandlockError>(Ok(()), &LandlockCompatibility::BestEffort).is_ok());
    assert!(
        finalize_result::<LandlockError>(Ok(()), &LandlockCompatibility::HardRequirement).is_ok()
    );
}

#[test]
fn classify_unknown_error() {
    let err = std::io::Error::from_raw_os_error(libc::EIO);
    assert_eq!(classify_io_error(&err), "unexpected error");
}

#[test]
fn classify_path_fd_error_extracts_io_error() {
    // Use PathFd::new on a non-existent path to get a real PathFdError
    // (the OpenCall variant is #[non_exhaustive] and can't be constructed directly).
    let err = PathFd::new("/nonexistent/openshell/classify/test").unwrap_err();
    assert_eq!(classify_path_fd_error(&err), "path does not exist");
}

#[test]
fn classify_path_fd_error_extracts_not_a_directory() {
    // Opening a path *beneath* a regular file yields ENOTDIR from open(2).
    let file = tempfile::NamedTempFile::new().unwrap();
    let beneath = file.path().join("child");
    let err = PathFd::new(&beneath).unwrap_err();
    assert_eq!(
        classify_path_fd_error(&err),
        "path component is not a directory"
    );
}

#[test]
fn classify_io_error_falls_back_for_kind_without_raw_errno() {
    // An error constructed without a raw OS errno (only an ErrorKind) that
    // is not NotFound / PermissionDenied must take the `raw_os_error() ==
    // None` branch and resolve to the generic reason.
    let err = std::io::Error::new(std::io::ErrorKind::Other, "synthetic");
    assert_eq!(classify_io_error(&err), "unexpected error");
}

#[test]
fn classify_io_error_unhandled_errno_is_unexpected() {
    // EISDIR is a real errno but not one of the specifically classified
    // values, so it must fall through to the generic reason rather than
    // being mislabelled.
    let err = std::io::Error::from_raw_os_error(libc::EISDIR);
    assert_eq!(classify_io_error(&err), "unexpected error");
}

#[test]
fn compat_level_best_effort_maps_to_best_effort() {
    assert_eq!(
        compat_level(&LandlockCompatibility::BestEffort),
        CompatLevel::BestEffort
    );
}

#[test]
fn compat_level_hard_requirement_maps_to_hard_requirement() {
    assert_eq!(
        compat_level(&LandlockCompatibility::HardRequirement),
        CompatLevel::HardRequirement
    );
}

#[test]
fn try_open_path_succeeds_for_existing_file() {
    // A regular file (not just a directory) is a valid Landlock path target.
    let file = tempfile::NamedTempFile::new().unwrap();
    let path = file.path().to_str().unwrap();
    let result = open(path, LandlockCompatibility::BestEffort);
    assert!(result.is_ok());
    assert!(result.unwrap().is_some());
}

#[test]
fn try_open_path_hard_requirement_succeeds_for_existing_path() {
    // Hard-requirement mode must still open paths that exist; failure is
    // only fatal when the path is genuinely inaccessible.
    let dir = tempfile::tempdir().unwrap();
    let path = dir.path().to_str().unwrap();
    let result = open(path, LandlockCompatibility::HardRequirement);
    assert!(result.is_ok());
    assert!(result.unwrap().is_some());
}

#[test]
fn try_open_path_hard_requirement_error_includes_path() {
    let missing = "/nonexistent/openshell/hard/req/path";
    let err = open(missing, LandlockCompatibility::HardRequirement)
        .unwrap_err()
        .message();
    assert!(
        err.contains("/nonexistent/openshell/hard/req/path"),
        "error should name the offending path: {err}"
    );
}

#[test]
fn path_errors_are_told_word_for_word() {
    let missing = "/nonexistent/openshell/words";
    let shown = PathFd::new(missing).unwrap_err().to_string();
    assert!(shown.starts_with("failed to open \""));
    let err = open(missing, LandlockCompatibility::HardRequirement).unwrap_err();
    assert_eq!(
        err.message(),
        format!(
            "Landlock path unavailable in hard_requirement mode: {missing} (path does not exist): {shown}"
        )
    );
    assert_eq!(
        err,
        LandlockError::PathUnavailable {
            path: missing.to_string(),
            reason: "path does not exist",
            detail: shown,
        }
    );
    assert_eq!(
        LandlockError::NoValidPaths { total: 12 }.message(),
        "Landlock ruleset has zero valid paths — all 12 path(s) failed to open. Refusing to apply an empty ruleset that would block all filesystem access."
    );
    assert_eq!(
        LandlockError::Ruleset {
            detail: "create failed".to_string()
        }
        .message(),
        "create failed"
    );
}

#[test]
fn reasons_by_kind_and_number() {
    assert_eq!(io_error_reason(IoErrorKind::NotFound, Some(40)), "path does not exist");
    assert_eq!(io_error_reason(IoErrorKind::PermissionDenied, None), "permission denied");
    assert_eq!(io_error_reason(IoErrorKind::Other, Some(40)), "too many symlink levels");
    assert_eq!(io_error_reason(IoErrorKind::Other, Some(36)), "path name too long");
    assert_eq!(
        io_error_reason(IoErrorKind::Other, Some(20)),
        "path component is not a directory"
    );
    assert_eq!(io_error_reason(IoErrorKind::Other, Some(21)), "unexpected error");
    assert_eq!(io_error_reason(IoErrorKind::Other, None), "unexpected error");
}

#[test]
fn only_missing_paths_are_skipped_quietly() {
    let missing = PathFd::new("/nonexistent/openshell/quiet").unwrap_err();
    assert_eq!(skip_level(&missing), SkipLevel::Debug);
    let file = tempfile::NamedTempFile::new().unwrap();
    let beneath = PathFd::new(file.path().join("child")).unwrap_err();
    assert_eq!(skip_level(&beneath), SkipLevel::Warn);
}

#[test]
fn rights_are_those_of_the_second_interface_version() {
    let read = landlock::AccessFs::from_read(landlock::ABI::V2);
    let all = landlock::AccessFs::from_all(landlock::ABI::V2);
    assert_eq!(access_rights(PathAccess::Read), read.bits());
    assert_eq!(access_rights(PathAccess::ReadWrite), all.bits());
    assert_eq!(access_rights(PathAccess::Read), 0xd);
    assert_eq!(access_rights(PathAccess::ReadWrite), 0x3fff);
    assert_eq!(
        access_rights(PathAccess::Read) & landlock::AccessFs::WriteFile as u64,
        0
    );
}

#[test]
fn workdir_is_compared_by_components() {
    let policy = fs_policy(vec![], vec!["/work/".to_string()], true);
    let (_, rw) = resolve_paths(&policy, Some("/work/."));
    assert_eq!(rw, vec!["/work/".to_string()]);
    let (_, rw) = resolve_paths(&policy, Some("/work/sub"));
    assert_eq!(rw, vec!["/work/".to_string(), "/work/sub".to_string()]);
    // A relative path is another one.
    let (_, rw) = resolve_paths(&policy, Some("work"));
    assert_eq!(rw, vec!["/work/".to_string(), "work".to_string()]);
}

#[test]
fn read_only_paths_are_granted_first() {
    let policy = fs_policy(
        vec!["/usr".to_string(), "/lib".to_string()],
        vec!["/tmp".to_string()],
        true,
    );
    let grants = plan_grants(&policy, Some("/work"));
    let listed: Vec<(&str, PathAccess)> = grants
        .iter()
        .map(|grant| (grant.path.as_str(), grant.access))
        .collect();
    assert_eq!(
        listed,
        vec![
            ("/usr", PathAccess::Read),
            ("/lib", PathAccess::Read),
            ("/tmp", PathAccess::ReadWrite),
            ("/work", PathAccess::ReadWrite),
        ]
    );
}

/// Runs a build, with the paths that open and an operation that fails, and lists what it did.
fn run_build(
    policy: &SandboxPolicy,
    openable: &[&str],
    failing: &str,
) -> (Vec<String>, Result<(), LandlockError>) {
    let broken = || {
        RulesetEvent::Failed(LandlockError::Ruleset {
            detail: format!("{failing} failed"),
        })
    };
    let mut log = Vec::new();
    let (mut build, mut action) = RulesetBuild::start(policy, None);
    loop {
        let event = match action {
            RulesetAction::CreateRuleset { level, handled } => {
                log.push(format!("create {level:?} {handled:x}"));
                if failing == "create" { broken() } else { RulesetEvent::Succeeded }
            }
            RulesetAction::OpenPath { path } => {
                log.push(format!("open {path}"));
                if openable.contains(&path.as_str()) {
                    RulesetEvent::Succeeded
                } else {
                    let missing = PathFd::new("/nonexistent/openshell/run");
                    open_event(try_open_path(&path, missing, &policy.landlock.compatibility)).1
                }
            }
            RulesetAction::AddRule { access, rights } => {
                log.push(format!("add {access:?} {rights:x}"));
                if failing == "add" { broken() } else { RulesetEvent::Succeeded }
            }
            RulesetAction::RestrictSelf { rules_applied, skipped } => {
                log.push(format!("restrict {rules_applied} {skipped}"));
                if failing == "restrict" { broken() } else { RulesetEvent::Succeeded }
            }
            RulesetAction::Finish(result) => return (log, result),
        };
        action = build.step(event);
    }
}

fn two_paths(compatibility: LandlockCompatibility) -> SandboxPolicy {
    SandboxPolicy {
        landlock: LandlockPolicy { compatibility },
        ..fs_policy(vec!["/usr".to_string()], vec!["/tmp".to_string()], true)
    }
}

#[test]
fn build_adds_a_rule_for_each_path() {
    let (log, result) = run_build(
        &two_paths(LandlockCompatibility::HardRequirement),
        &["/usr", "/tmp"],
        "",
    );
    assert_eq!(
        log,
        vec![
            "create HardRequirement 3fff",
            "open /usr",
            "add Read d",
            "open /tmp",
            "add ReadWrite 3fff",
            "restrict 2 0",
        ]
    );
    assert!(result.is_ok());
}

#[test]
fn build_without_paths_does_nothing() {
    let (log, result) = run_build(&fs_policy(vec![], vec![], true), &[], "");
    assert!(log.is_empty());
    assert!(result.is_ok());
}

#[test]
fn best_effort_build_leaves_missing_paths_out() {
    let policy = two_paths(LandlockCompatibility::BestEffort);
    let (log, result) = run_build(&policy, &["/tmp"], "");
    assert_eq!(
        log,
        vec![
            "create BestEffort 3fff",
            "open /usr",
            "open /tmp",
            "add ReadWrite 3fff",
            "restrict 1 1",
        ]
    );
    assert!(result.is_ok());
}

#[test]
fn build_refuses_an_empty_ruleset() {
    let policy = two_paths(LandlockCompatibility::BestEffort);
    let (log, result) = run_build(&policy, &[], "");
    assert_eq!(log, vec!["create BestEffort 3fff", "open /usr", "open /tmp"]);
    assert_eq!(result, Err(LandlockError::NoValidPaths { total: 2 }));
    assert!(finalize_result(result, &LandlockCompatibility::BestEffort).is_ok());
}

#[test]
fn hard_requirement_build_stops_at_a_missing_path() {
    let policy = two_paths(LandlockCompatibility::HardRequirement);
    let (log, result) = run_build(&policy, &["/tmp"], "");
    assert_eq!(log, vec!["create HardRequirement 3fff", "open /usr"]);
    assert!(matches!(
        finalize_result(result, &LandlockCompatibility::HardRequirement),
        Err(LandlockError::PathUnavailable { reason: "path does not exist", .. })
    ));
}

#[test]
fn build_ends_at_a_failing_operation() {
    for (failing, steps) in [("create", 1), ("add", 3), ("restrict", 6)] {
        let policy = two_paths(LandlockCompatibility::BestEffort);
        let (log, result) = run_build(&policy, &["/usr", "/tmp"], failing);
        assert_eq!(log.len(), steps);
        let detail = format!("{failing} failed");
        assert_eq!(result, Err(LandlockError::Ruleset { detail }));
    }
}

#[test]
fn opening_is_reported_as_the_mode_has_it() {
    let missing = "/nonexistent/openshell/event";
    let (fd, event) = open_event(open(missing, LandlockCompatibility::BestEffort));
    assert!(fd.is_none());
    assert!(matches!(event, RulesetEvent::Skipped));

    let (fd, event) = open_event(open(missing, LandlockCompatibility::HardRequirement));
    assert!(fd.is_none());
    assert!(matches!(
        event,
        RulesetEvent::Failed(LandlockError::PathUnavailable { path, .. }) if path == missing
    ));

    let dir = tempfile::tempdir().unwrap();
    let path = dir.path().to_str().unwrap();
    for mode in [LandlockCompatibility::BestEffort, LandlockCompatibility::HardRequirement] {
        let (fd, event) = open_event(open(path, mode));
        assert!(fd.is_some());
        assert!(matches!(event, RulesetEvent::Succeeded));
    }
}
