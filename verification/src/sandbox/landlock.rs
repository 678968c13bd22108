//! Landlock filesystem sandboxing: which paths are granted, what a path that cannot be
//! opened means, and in which order a ruleset is built.
//!
//! The kernel is not called from here. [`RulesetBuild`] asks for one operation at a time
//! and is told how it went.

use crate::path::paths_equal;
use crate::policy::{LandlockCompatibility, SandboxPolicy};
use crate::text::append_decimal;
use vstd::prelude::*;

verus! {

// ---------------------------------------------------------------------------
// Errors of the outside world
// ---------------------------------------------------------------------------

#[verifier::external_type_specification]
#[verifier::external_body]
pub struct ExIoError(std::io::Error);

#[verifier::external_type_specification]
#[verifier::external_body]
pub struct ExPathFdError(landlock::PathFdError);

/// The kinds of I/O error that are told apart.
#[derive(Debug, Clone, Copy, PartialEq, Eq, Structural)]
pub enum IoErrorKind {
    NotFound,
    PermissionDenied,
    Other,
}

/// The kind of an I/O error.
pub uninterp spec fn io_error_kind(err: std::io::Error) -> IoErrorKind;

/// The OS error number that an I/O error was made from, if it was made from one.
pub uninterp spec fn io_error_number(err: std::io::Error) -> Option<i32>;

/// The I/O error of the failed open that a path error reports, if it reports one.
pub uninterp spec fn open_call_error(err: landlock::PathFdError) -> Option<std::io::Error>;

/// `std::io::Error::kind`: the kind is a property of the error.
#[verifier::external_body]
fn error_kind(err: &std::io::Error) -> (r: IoErrorKind)
    ensures
        r == io_error_kind(*err),
{
    match err.kind() {
        std::io::ErrorKind::NotFound => IoErrorKind::NotFound,
        std::io::ErrorKind::PermissionDenied => IoErrorKind::PermissionDenied,
        _ => IoErrorKind::Other,
    }
}

/// `std::io::Error::raw_os_error`: the number is a property of the error.
#[verifier::external_body]
fn error_number(err: &std::io::Error) -> (r: Option<i32>)
    ensures
        r == io_error_number(*err),
{
    err.raw_os_error()
}

/// The `source` of a `PathFdError::OpenCall`; no other variant has one.
#[verifier::external_body]
fn open_call_source(err: &landlock::PathFdError) -> (r: Option<&std::io::Error>)
    ensures
        r matches Some(source) ==> open_call_error(*err) == Some(*source),
        r is None ==> open_call_error(*err) is None,
{
    match err {
        landlock::PathFdError::OpenCall { source, .. } => Some(source),
        _ => None,
    }
}

/// The text is one that a path error is displayed as. The text ends in the words that the
/// machine has for the OS error, so an error need not have one text alone.
pub uninterp spec fn displayed_as(err: landlock::PathFdError, text: Seq<char>) -> bool;

/// The `Display` text of a `PathFdError`. That of a failed open begins with `failed to open "`;
/// the path and the words for the OS error follow, of which nothing is said.
#[verifier::external_body]
fn path_error_text(err: &landlock::PathFdError) -> (r: String)
    ensures
        displayed_as(*err, r@),
        open_call_error(*err) is Some ==> "failed to open \""@.is_prefix_of(r@),
{
    format!("{}", err)
}

// ---------------------------------------------------------------------------
// Reasons
// ---------------------------------------------------------------------------

/// The reason of an I/O error in words.
pub open spec fn reason_text(kind: IoErrorKind, number: Option<i32>) -> Seq<char> {
    match kind {
        IoErrorKind::NotFound => "path does not exist"@,
        IoErrorKind::PermissionDenied => "permission denied"@,
        IoErrorKind::Other => if number == Some(40i32) {
            "too many symlink levels"@
        } else if number == Some(36i32) {
            "path name too long"@
        } else if number == Some(20i32) {
            "path component is not a directory"@
        } else {
            "unexpected error"@
        },
    }
}

/// The reason of an I/O error in words, from its kind and OS error number.
pub fn io_error_reason(kind: IoErrorKind, number: Option<i32>) -> (r: &'static str)
    ensures
        r@ == reason_text(kind, number),
{
    match kind {
        IoErrorKind::NotFound => "path does not exist",
        IoErrorKind::PermissionDenied => "permission denied",
        IoErrorKind::Other => match number {
            Some(40) => "too many symlink levels",  // ELOOP
            Some(36) => "path name too long",  // ENAMETOOLONG
            Some(20) => "path component is not a directory",  // ENOTDIR
            _ => "unexpected error",
        },
    }
}

/// Classify a `std::io::Error` into a human-readable reason string.
pub fn classify_io_error(err: &std::io::Error) -> (r: &'static str)
    ensures
        r@ == reason_text(io_error_kind(*err), io_error_number(*err)),
{
    io_error_reason(error_kind(err), error_number(err))
}

/// The reason of a path error in words.
pub open spec fn path_error_reason(err: landlock::PathFdError) -> Seq<char> {
    match open_call_error(err) {
        Some(source) => reason_text(io_error_kind(source), io_error_number(source)),
        None => "unexpected error"@,
    }
}

/// Classify a `PathFdError` into a human-readable reason.
///
/// Opening a path can fail for several reasons beyond simple non-existence.
pub fn classify_path_fd_error(err: &landlock::PathFdError) -> (r: &'static str)
    ensures
        r@ == path_error_reason(*err),
{
    match open_call_source(err) {
        Some(source) => classify_io_error(source),
        None => "unexpected error",
    }
}

// ---------------------------------------------------------------------------
// Compatibility
// ---------------------------------------------------------------------------

/// How the kernel interface treats a feature that the kernel lacks.
#[derive(Debug, Clone, Copy, PartialEq, Eq, Structural)]
pub enum CompatLevel {
    BestEffort,
    HardRequirement,
}

/// The level that a policy asks for.
pub fn compat_level(level: &LandlockCompatibility) -> (r: CompatLevel)
    ensures
        r == compat_level_spec(*level),
{
    match level {
        LandlockCompatibility::BestEffort => CompatLevel::BestEffort,
        LandlockCompatibility::HardRequirement => CompatLevel::HardRequirement,
    }
}

pub open spec fn compat_level_spec(level: LandlockCompatibility) -> CompatLevel {
    match level {
        LandlockCompatibility::BestEffort => CompatLevel::BestEffort,
        LandlockCompatibility::HardRequirement => CompatLevel::HardRequirement,
    }
}

/// Why the filesystem sandbox could not be set up.
#[derive(Debug, PartialEq, Eq)]
pub enum LandlockError {
    /// A path could not be opened, and the policy insists on every path.
    PathUnavailable { path: String, reason: &'static str, detail: String },
    /// None of the paths could be opened.
    NoValidPaths { total: usize },
    /// The kernel interface refused an operation.
    Ruleset { detail: String },
}

impl LandlockError {
    /// The error in words.
    pub open spec fn text(self) -> Seq<char> {
        match self {
            LandlockError::PathUnavailable { path, reason, detail } =>
                "Landlock path unavailable in hard_requirement mode: "@ + path@ + " ("@ + reason@
                    + "): "@ + detail@,
            LandlockError::NoValidPaths { total } =>
                "Landlock ruleset has zero valid paths — all "@ + crate::text::decimal(total as nat)
                    + " path(s) failed to open. Refusing to apply an empty ruleset that would block all filesystem access."@,
            LandlockError::Ruleset { detail } => detail@,
        }
    }

    /// The error in words.
    pub fn message(&self) -> (r: String)
        ensures
            r@ == self.text(),
    {
        let mut out = String::new();
        match self {
            LandlockError::PathUnavailable { path, reason, detail } => {
                out.append("Landlock path unavailable in hard_requirement mode: ");
                out.append(path.as_str());
                out.append(" (");
                out.append(reason);
                out.append("): ");
                out.append(detail.as_str());
            },
            LandlockError::NoValidPaths { total } => {
                out.append("Landlock ruleset has zero valid paths — all ");
                append_decimal(&mut out, *total as u64);
                out.append(
                    " path(s) failed to open. Refusing to apply an empty ruleset that would block all filesystem access.",
                );
            },
            LandlockError::Ruleset { detail } => {
                out.append(detail.as_str());
            },
        }
        assert(out@ =~= self.text());
        out
    }
}

// ---------------------------------------------------------------------------
// Access rights
// ---------------------------------------------------------------------------

/// What a rule lets a process do beneath a path.
#[derive(Debug, Clone, Copy, PartialEq, Eq, Structural)]
pub enum PathAccess {
    Read,
    ReadWrite,
}

/// Bits of `linux/landlock.h`: execute a file, read a file, list a directory.
pub const READ_RIGHTS: u64 = 0x000d;

/// Bits of `linux/landlock.h`: the fourteen rights of the second version of the interface,
/// which are the first fourteen bits.
pub const ALL_RIGHTS: u64 = 0x3fff;

/// The rights that an access stands for.
pub open spec fn rights_of(access: PathAccess) -> u64 {
    match access {
        PathAccess::Read => READ_RIGHTS,
        PathAccess::ReadWrite => ALL_RIGHTS,
    }
}

/// `AccessFs::from_read` for `ABI::V2`: `Execute`, `ReadFile` and `ReadDir`.
#[verifier::external_body]
fn read_rights() -> (r: u64)
    ensures
        r == READ_RIGHTS,
{
    landlock::AccessFs::from_read(landlock::ABI::V2).bits()
}

/// `AccessFs::from_all` for `ABI::V2`: every right from `Execute` to `Refer`.
#[verifier::external_body]
fn all_rights() -> (r: u64)
    ensures
        r == ALL_RIGHTS,
{
    <landlock::AccessFs as landlock::Access>::from_all(landlock::ABI::V2).bits()
}

/// The rights that an access stands for.
pub fn access_rights(access: PathAccess) -> (r: u64)
    ensures
        r == rights_of(access),
{
    match access {
        PathAccess::Read => read_rights(),
        PathAccess::ReadWrite => all_rights(),
    }
}

/// Every bit of `right` is set.
pub open spec fn has_right(rights: u64, right: u64) -> bool {
    rights & right == right
}

/// Read access allows reading, listing and executing and none of the eleven rights that
/// change something; read-write access allows both.
pub proof fn law_read_access_changes_nothing(right: u64)
    requires
        right & ALL_RIGHTS == right,
        right & READ_RIGHTS == 0,
        right != 0,
    ensures
        !has_right(rights_of(PathAccess::Read), right),
        has_right(rights_of(PathAccess::ReadWrite), right),
        has_right(rights_of(PathAccess::ReadWrite), rights_of(PathAccess::Read)),
{
    assert(READ_RIGHTS & right == 0) by (bit_vector)
        requires
            right & READ_RIGHTS == 0,
    ;
    assert(ALL_RIGHTS & right == right) by (bit_vector)
        requires
            right & ALL_RIGHTS == right,
    ;
    assert(ALL_RIGHTS & READ_RIGHTS == READ_RIGHTS) by (bit_vector);
}

// ---------------------------------------------------------------------------
// Paths
// ---------------------------------------------------------------------------

/// One of the paths has the same components as `path`.
pub open spec fn lists_path(list: Seq<Seq<char>>, path: Seq<char>) -> bool {
    exists|i: int| 0 <= i < list.len() && crate::path::same_path(#[trigger] list[i], path)
}

/// The read-write paths with the workdir behind them, where it is included and not among
/// them already.
pub open spec fn with_workdir(
    read_write: Seq<Seq<char>>,
    include_workdir: bool,
    workdir: Option<Seq<char>>,
) -> Seq<Seq<char>> {
    match workdir {
        Some(dir) => if include_workdir && !lists_path(read_write, dir) {
            read_write.push(dir)
        } else {
            read_write
        },
        None => read_write,
    }
}

/// The text of an optional string.
pub open spec fn optional_text(text: Option<&str>) -> Option<Seq<char>> {
    match text {
        Some(text) => Some(text@),
        None => None,
    }
}

fn contains_path(list: &Vec<String>, path: &str) -> (r: bool)
    ensures
        r == lists_path(crate::path::texts(list@), path@),
{
    let mut i: usize = 0;
    while i < list.len()
        invariant
            i <= list.len(),
            forall|j: int|
                0 <= j < i ==> !crate::path::same_path(
                    #[trigger] crate::path::texts(list@)[j],
                    path@,
                ),
        decreases list.len() - i,
    {
        if paths_equal(list[i].as_str(), path) {
            assert(crate::path::same_path(crate::path::texts(list@)[i as int], path@));
            return true;
        }
        i += 1;
    }
    false
}

fn copy_paths(list: &Vec<String>) -> (r: Vec<String>)
    ensures
        r@ == list@,
{
    let mut out: Vec<String> = Vec::new();
    let mut i: usize = 0;
    while i < list.len()
        invariant
            i <= list.len(),
            out@ == list@.take(i as int),
        decreases list.len() - i,
    {
        out.push(list[i].clone());
        assert(out@ =~= list@.take(i + 1));
        i += 1;
    }
    assert(list@.take(list@.len() as int) =~= list@);
    out
}

/// Resolve the effective read-only / read-write path lists for `policy`, folding
/// `workdir` into the read-write set when requested (deduped).
pub fn resolve_paths(policy: &SandboxPolicy, workdir: Option<&str>) -> (r: (
    Vec<String>,
    Vec<String>,
))
    ensures
        r.0@ == policy.filesystem.read_only@,
        crate::path::texts(r.1@) == with_workdir(
            crate::path::texts(policy.filesystem.read_write@),
            policy.filesystem.include_workdir,
            optional_text(workdir),
        ),
{
    let read_only = copy_paths(&policy.filesystem.read_only);
    let mut read_write = copy_paths(&policy.filesystem.read_write);
    let ghost before = crate::path::texts(read_write@);
    if policy.filesystem.include_workdir {
        if let Some(dir) = workdir {
            if !contains_path(&read_write, dir) {
                read_write.push(dir.to_owned());
                assert(crate::path::texts(read_write@) =~= before.push(dir@));
            }
        }
    }
    (read_only, read_write)
}

/// An included workdir is writable, and every path that was writable still is.
pub proof fn law_workdir_is_writable(read_write: Seq<Seq<char>>, dir: Seq<char>)
    ensures
        lists_path(with_workdir(read_write, true, Some(dir)), dir),
        forall|path: Seq<char>|
            lists_path(read_write, path) ==> #[trigger] lists_path(
                with_workdir(read_write, true, Some(dir)),
                path,
            ),
{
    let after = with_workdir(read_write, true, Some(dir));
    if !lists_path(read_write, dir) {
        assert(crate::path::same_path(after[read_write.len() as int], dir));
        assert forall|path: Seq<char>| lists_path(read_write, path) implies #[trigger] lists_path(
            after,
            path,
        ) by {
            let i = choose|i: int|
                0 <= i < read_write.len() && crate::path::same_path(#[trigger] read_write[i], path);
            assert(after[i] == read_write[i]);
        }
    }
}

/// Including the workdir makes nothing else writable.
pub proof fn law_only_workdir_is_added(
    read_write: Seq<Seq<char>>,
    include_workdir: bool,
    workdir: Option<Seq<char>>,
    path: Seq<char>,
)
    requires
        lists_path(with_workdir(read_write, include_workdir, workdir), path),
    ensures
        lists_path(read_write, path) || include_workdir && workdir is Some
            && crate::path::same_path(workdir->0, path),
{
    let after = with_workdir(read_write, include_workdir, workdir);
    let i = choose|i: int|
        0 <= i < after.len() && crate::path::same_path(#[trigger] after[i], path);
    if i < read_write.len() {
        assert(after[i] == read_write[i]);
    }
}

/// The workdir is never listed twice: where no two paths were the same, none are.
pub proof fn law_no_duplicate_paths(
    read_write: Seq<Seq<char>>,
    include_workdir: bool,
    workdir: Option<Seq<char>>,
)
    requires
        forall|i: int, j: int|
            0 <= i < j < read_write.len() ==> !crate::path::same_path(
                #[trigger] read_write[i],
                #[trigger] read_write[j],
            ),
    ensures
        ({
            let after = with_workdir(read_write, include_workdir, workdir);
            forall|i: int, j: int|
                0 <= i < j < after.len() ==> !crate::path::same_path(
                    #[trigger] after[i],
                    #[trigger] after[j],
                )
        }),
{
    let after = with_workdir(read_write, include_workdir, workdir);
    assert forall|i: int, j: int| 0 <= i < j < after.len() implies !crate::path::same_path(
        #[trigger] after[i],
        #[trigger] after[j],
    ) by {
        assert(after[i] == read_write[i]);
        if j < read_write.len() {
            assert(after[j] == read_write[j]);
        }
    }
}

// ---------------------------------------------------------------------------
// Decisions
// ---------------------------------------------------------------------------

/// What becomes of the outcome of a ruleset build.
pub open spec fn finalized<E>(
    result: Result<(), E>,
    compatibility: LandlockCompatibility,
) -> Result<(), E> {
    match compatibility {
        LandlockCompatibility::BestEffort => Ok(()),
        LandlockCompatibility::HardRequirement => result,
    }
}

/// Apply the compatibility-mode outcome to the ruleset build `result`: a
/// hard-requirement propagates any error, while best-effort downgrades an error
/// to `Ok` and runs WITHOUT filesystem restrictions. This is the central
/// tradeoff of the module.
pub fn finalize_result<E>(result: Result<(), E>, compatibility: &LandlockCompatibility) -> (r:
    Result<(), E>)
    ensures
        r == finalized(result, *compatibility),
{
    match compatibility {
        LandlockCompatibility::BestEffort => Ok(()),
        LandlockCompatibility::HardRequirement => result,
    }
}

/// How loudly a skipped path is reported.
#[derive(Debug, Clone, Copy, PartialEq, Eq, Structural)]
pub enum SkipLevel {
    Debug,
    Warn,
}

/// A path that does not exist is expected (stale baseline paths), so skipping it is
/// reported at debug level; any other failure is unexpected and reported as a warning.
pub fn skip_level(err: &landlock::PathFdError) -> (r: SkipLevel)
    ensures
        r is Debug <==> open_call_error(*err) is Some && io_error_kind(open_call_error(*err)->0)
            is NotFound,
{
    match open_call_source(err) {
        Some(source) => match error_kind(source) {
            IoErrorKind::NotFound => SkipLevel::Debug,
            _ => SkipLevel::Warn,
        },
        None => SkipLevel::Warn,
    }
}

/// What the opening of a path comes to: what was opened; nothing, where a failure is skipped;
/// or the failure as an error that names the path, the reason and the displayed error.
pub open spec fn is_open_outcome<T>(
    path: Seq<char>,
    opened: Result<T, landlock::PathFdError>,
    compatibility: LandlockCompatibility,
    outcome: Result<Option<T>, LandlockError>,
) -> bool {
    match opened {
        Ok(fd) => outcome == Ok::<Option<T>, LandlockError>(Some(fd)),
        Err(err) => match compatibility {
            LandlockCompatibility::BestEffort => outcome == Ok::<Option<T>, LandlockError>(None),
            LandlockCompatibility::HardRequirement => {
                &&& outcome matches Err(
                    LandlockError::PathUnavailable { path: named, reason, detail },
                )
                &&& named@ == path
                &&& reason@ == path_error_reason(err)
                &&& displayed_as(err, detail@)
                &&& open_call_error(err) is Some ==> "failed to open \""@.is_prefix_of(detail@)
            },
        },
    }
}

/// Decide what the outcome of opening `path` for a Landlock rule means.
///
/// In `BestEffort` mode, inaccessible paths (missing, permission denied, symlink
/// loops, etc.) are skipped and `Ok(None)` is returned so the caller can continue
/// building the ruleset from the remaining valid paths.
///
/// In `HardRequirement` mode, any failure is fatal.
pub fn try_open_path<T>(
    path: &str,
    opened: Result<T, landlock::PathFdError>,
    compatibility: &LandlockCompatibility,
) -> (r: Result<Option<T>, LandlockError>)
    ensures
        is_open_outcome(path@, opened, *compatibility, r),
{
    match opened {
        Ok(fd) => Ok(Some(fd)),
        Err(err) => match compatibility {
            LandlockCompatibility::BestEffort => Ok(None),
            LandlockCompatibility::HardRequirement => Err(
                LandlockError::PathUnavailable {
                    path: path.to_owned(),
                    reason: classify_path_fd_error(&err),
                    detail: path_error_text(&err),
                },
            ),
        },
    }
}

// ---------------------------------------------------------------------------
// Building the ruleset
// ---------------------------------------------------------------------------

/// A path and what is allowed beneath it.
#[derive(Debug)]
pub struct Grant {
    pub path: String,
    pub access: PathAccess,
}

/// The paths and accesses of a list of grants.
pub open spec fn grant_texts(grants: Seq<Grant>) -> Seq<(Seq<char>, PathAccess)> {
    grants.map_values(|grant: Grant| (grant.path@, grant.access))
}

/// Every path of a list with one access.
pub open spec fn granted(paths: Seq<Seq<char>>, access: PathAccess) -> Seq<
    (Seq<char>, PathAccess),
> {
    paths.map_values(|path: Seq<char>| (path, access))
}

/// What a policy grants: its read-only paths, then its read-write paths and the workdir.
pub open spec fn policy_grants(policy: SandboxPolicy, workdir: Option<Seq<char>>) -> Seq<
    (Seq<char>, PathAccess),
> {
    granted(crate::path::texts(policy.filesystem.read_only@), PathAccess::Read) + granted(
        with_workdir(
            crate::path::texts(policy.filesystem.read_write@),
            policy.filesystem.include_workdir,
            workdir,
        ),
        PathAccess::ReadWrite,
    )
}

/// The read-only paths of a policy are granted read access, the read-write paths and the
/// workdir read-write access, and nothing else is granted.
pub proof fn law_policy_grants(policy: SandboxPolicy, workdir: Option<Seq<char>>)
    ensures
        ({
            let grants = policy_grants(policy, workdir);
            let read_only = crate::path::texts(policy.filesystem.read_only@);
            let read_write = with_workdir(
                crate::path::texts(policy.filesystem.read_write@),
                policy.filesystem.include_workdir,
                workdir,
            );
            &&& grants.len() == read_only.len() + read_write.len()
            &&& forall|i: int|
                0 <= i < read_only.len() ==> #[trigger] grants[i] == (
                    read_only[i],
                    PathAccess::Read,
                )
            &&& forall|i: int|
                read_only.len() <= i < grants.len() ==> #[trigger] grants[i] == (
                    read_write[i - read_only.len()],
                    PathAccess::ReadWrite,
                )
        }),
{
}

fn push_grants(grants: &mut Vec<Grant>, paths: &Vec<String>, access: PathAccess)
    ensures
        grant_texts(final(grants)@) == grant_texts(old(grants)@) + granted(
            crate::path::texts(paths@),
            access,
        ),
{
    let ghost before = grant_texts(grants@);
    let ghost added = granted(crate::path::texts(paths@), access);
    let mut i: usize = 0;
    assert(before =~= before + added.take(0));
    while i < paths.len()
        invariant
            i <= paths.len(),
            added == granted(crate::path::texts(paths@), access),
            grant_texts(grants@) == before + added.take(i as int),
        decreases paths.len() - i,
    {
        let ghost last = grant_texts(grants@);
        grants.push(Grant { path: paths[i].clone(), access });
        assert(grant_texts(grants@) =~= last.push(added[i as int]));
        assert(added.take(i + 1) =~= added.take(i as int).push(added[i as int]));
        assert(last.push(added[i as int]) =~= before + added.take(i + 1));
        i += 1;
    }
    assert(added.take(added.len() as int) =~= added);
}

/// What a policy grants, in the order in which the rules are added.
pub fn plan_grants(policy: &SandboxPolicy, workdir: Option<&str>) -> (r: Vec<Grant>)
    ensures
        grant_texts(r@) == policy_grants(*policy, optional_text(workdir)),
{
    let (read_only, read_write) = resolve_paths(policy, workdir);
    let mut grants: Vec<Grant> = Vec::new();
    assert(grant_texts(grants@) =~= Seq::empty());
    push_grants(&mut grants, &read_only, PathAccess::Read);
    push_grants(&mut grants, &read_write, PathAccess::ReadWrite);
    assert(grant_texts(grants@) =~= policy_grants(*policy, optional_text(workdir)));
    grants
}

/// An operation on the kernel interface that comes next.
#[derive(Debug)]
pub enum RulesetAction {
    /// Create a ruleset that handles these rights.
    CreateRuleset { level: CompatLevel, handled: u64 },
    /// Open the path.
    OpenPath { path: String },
    /// Add a rule that allows these rights beneath the path that was just opened.
    AddRule { access: PathAccess, rights: u64 },
    /// Enforce the ruleset on the process.
    RestrictSelf { rules_applied: usize, skipped: usize },
    /// Nothing is left to do; this is how it went.
    Finish(Result<(), LandlockError>),
}

/// How an operation went.
#[derive(Debug)]
pub enum RulesetEvent {
    Succeeded,
    /// The path could not be opened and is left out.
    Skipped,
    Failed(LandlockError),
}

/// The operation that a build waits for.
#[derive(Debug, Clone, Copy, PartialEq, Eq, Structural)]
pub enum Phase {
    Creating,
    Opening,
    Adding,
    Restricting,
    Finished,
}

/// A ruleset that is being built.
#[derive(Debug)]
pub struct RulesetBuild {
    grants: Vec<Grant>,
    phase: Phase,
    next: usize,
    rules_applied: usize,
}

/// The state of a build: `next` grants are done, for `rules_applied` of them there is a rule.
pub struct BuildState {
    pub grants: Seq<Grant>,
    pub phase: Phase,
    pub next: nat,
    pub rules_applied: nat,
}

impl BuildState {
    /// The phase agrees with how far the build is.
    pub open spec fn wf(self) -> bool {
        &&& self.grants.len() <= usize::MAX
        &&& self.rules_applied <= self.next <= self.grants.len()
        &&& match self.phase {
            Phase::Creating => self.grants.len() > 0 && self.next == 0,
            Phase::Opening | Phase::Adding => self.next < self.grants.len(),
            Phase::Restricting => self.next == self.grants.len() && self.rules_applied > 0,
            Phase::Finished => true,
        }
    }

    /// Something is still to be done, and the event can come of it: only an open is skipped.
    pub open spec fn awaits(self, event: RulesetEvent) -> bool {
        &&& !(self.phase is Finished)
        &&& event is Skipped ==> self.phase is Opening
    }

    /// An upper bound on the number of events that are still to come.
    pub open spec fn remaining(self) -> int {
        let left = self.grants.len() - self.next;
        match self.phase {
            Phase::Creating => 2 * left + 3,
            Phase::Opening => 2 * left + 2,
            Phase::Adding => 2 * left + 1,
            Phase::Restricting => 1,
            Phase::Finished => 0,
        }
    }

    /// The build is over, with this result.
    pub open spec fn finish(self, result: Result<(), LandlockError>) -> (
        BuildState,
        RulesetAction,
    ) {
        (BuildState { phase: Phase::Finished, ..self }, RulesetAction::Finish(result))
    }

    /// Goes on with the next grant. After the last one the ruleset is enforced, unless it
    /// is empty.
    pub open spec fn resume(self) -> (BuildState, RulesetAction) {
        if self.next < self.grants.len() {
            (
                BuildState { phase: Phase::Opening, ..self },
                RulesetAction::OpenPath { path: self.grants[self.next as int].path },
            )
        } else if self.rules_applied == 0 {
            self.finish(Err(LandlockError::NoValidPaths { total: self.grants.len() as usize }))
        } else {
            (
                BuildState { phase: Phase::Restricting, ..self },
                RulesetAction::RestrictSelf {
                    rules_applied: self.rules_applied as usize,
                    skipped: (self.grants.len() - self.rules_applied) as usize,
                },
            )
        }
    }

    /// The state after an event, and the operation that comes next.
    pub open spec fn after(self, event: RulesetEvent) -> (BuildState, RulesetAction) {
        match event {
            RulesetEvent::Failed(err) => self.finish(Err(err)),
            RulesetEvent::Skipped => BuildState { next: self.next + 1, ..self }.resume(),
            RulesetEvent::Succeeded => match self.phase {
                Phase::Creating => self.resume(),
                Phase::Opening => {
                    let access = self.grants[self.next as int].access;
                    (
                        BuildState { phase: Phase::Adding, ..self },
                        RulesetAction::AddRule { access, rights: rights_of(access) },
                    )
                },
                Phase::Adding => (BuildState {
                    next: self.next + 1,
                    rules_applied: self.rules_applied + 1,
                    ..self
                }).resume(),
                Phase::Restricting | Phase::Finished => self.finish(Ok(())),
            },
        }
    }

    /// The first state for these grants, and the first operation. Without grants there is
    /// nothing to enforce.
    pub open spec fn first(grants: Seq<Grant>, compatibility: LandlockCompatibility) -> (
        BuildState,
        RulesetAction,
    ) {
        let state = BuildState { grants, phase: Phase::Creating, next: 0, rules_applied: 0 };
        if grants.len() == 0 {
            state.finish(Ok(()))
        } else {
            (
                state,
                RulesetAction::CreateRuleset {
                    level: compat_level_spec(compatibility),
                    handled: rights_of(PathAccess::ReadWrite),
                },
            )
        }
    }
}

impl View for RulesetBuild {
    type V = BuildState;

    closed spec fn view(&self) -> BuildState {
        BuildState {
            grants: self.grants@,
            phase: self.phase,
            next: self.next as nat,
            rules_applied: self.rules_applied as nat,
        }
    }
}

impl RulesetBuild {
    /// Starts to build the ruleset of a policy.
    pub fn start(policy: &SandboxPolicy, workdir: Option<&str>) -> (r: (
        RulesetBuild,
        RulesetAction,
    ))
        ensures
            r.0@.wf(),
            grant_texts(r.0@.grants) == policy_grants(*policy, optional_text(workdir)),
            (r.0@, r.1) == BuildState::first(r.0@.grants, policy.landlock.compatibility),
    {
        let grants = plan_grants(policy, workdir);
        if grants.len() == 0 {
            let build = RulesetBuild { grants, phase: Phase::Finished, next: 0, rules_applied: 0 };
            (build, RulesetAction::Finish(Ok(())))
        } else {
            let build = RulesetBuild { grants, phase: Phase::Creating, next: 0, rules_applied: 0 };
            let level = compat_level(&policy.landlock.compatibility);
            let handled: u64 = access_rights(PathAccess::ReadWrite);
            (build, RulesetAction::CreateRuleset { level, handled })
        }
    }

    fn resume(&mut self) -> (r: RulesetAction)
        requires
            old(self)@.grants.len() <= usize::MAX,
            old(self)@.rules_applied <= old(self)@.next <= old(self)@.grants.len(),
        ensures
            (final(self)@, r) == old(self)@.resume(),
    {
        if self.next < self.grants.len() {
            self.phase = Phase::Opening;
            RulesetAction::OpenPath { path: self.grants[self.next].path.clone() }
        } else if self.rules_applied == 0 {
            self.phase = Phase::Finished;
            RulesetAction::Finish(Err(LandlockError::NoValidPaths { total: self.grants.len() }))
        } else {
            self.phase = Phase::Restricting;
            RulesetAction::RestrictSelf {
                rules_applied: self.rules_applied,
                skipped: self.grants.len() - self.rules_applied,
            }
        }
    }

    /// Takes in how the last operation went and gives the next one.
    pub fn step(&mut self, event: RulesetEvent) -> (r: RulesetAction)
        requires
            old(self)@.wf(),
            old(self)@.awaits(event),
        ensures
            final(self)@.wf(),
            (final(self)@, r) == old(self)@.after(event),
    {
        match event {
            RulesetEvent::Failed(err) => {
                self.phase = Phase::Finished;
                RulesetAction::Finish(Err(err))
            },
            RulesetEvent::Skipped => {
                self.next = self.next + 1;
                self.resume()
            },
            RulesetEvent::Succeeded => match self.phase {
                Phase::Creating => self.resume(),
                Phase::Opening => {
                    self.phase = Phase::Adding;
                    let access = self.grants[self.next].access;
                    RulesetAction::AddRule { access, rights: access_rights(access) }
                },
                Phase::Adding => {
                    self.next = self.next + 1;
                    self.rules_applied = self.rules_applied + 1;
                    self.resume()
                },
                Phase::Restricting | Phase::Finished => {
                    self.phase = Phase::Finished;
                    RulesetAction::Finish(Ok(()))
                },
            },
        }
    }
}

/// How the opening of a path goes.
pub enum OpenReply {
    Opened,
    Skipped,
    Failed(LandlockError),
}

impl OpenReply {
    /// How the opening went, from what it came to.
    pub open spec fn of<T>(outcome: Result<Option<T>, LandlockError>) -> OpenReply {
        match outcome {
            Ok(Some(_)) => OpenReply::Opened,
            Ok(None) => OpenReply::Skipped,
            Err(err) => OpenReply::Failed(err),
        }
    }

    /// The event that a build is told.
    pub open spec fn event(self) -> RulesetEvent {
        match self {
            OpenReply::Opened => RulesetEvent::Succeeded,
            OpenReply::Skipped => RulesetEvent::Skipped,
            OpenReply::Failed(err) => RulesetEvent::Failed(err),
        }
    }

    /// The mode admits it: a path that cannot be opened is skipped under best effort and an
    /// error under a hard requirement.
    pub open spec fn follows(self, compatibility: LandlockCompatibility) -> bool {
        match self {
            OpenReply::Opened => true,
            OpenReply::Skipped => compatibility is BestEffort,
            OpenReply::Failed(_) => compatibility is HardRequirement,
        }
    }
}

/// The event that a build is told after a path was tried, and what was opened.
pub fn open_event<T>(outcome: Result<Option<T>, LandlockError>) -> (r: (Option<T>, RulesetEvent))
    ensures
        outcome matches Ok(Some(fd)) ==> r == (Some(fd), RulesetEvent::Succeeded),
        outcome matches Ok(None) ==> r == (None::<T>, RulesetEvent::Skipped),
        outcome matches Err(err) ==> r == (None::<T>, RulesetEvent::Failed(err)),
        r.1 == OpenReply::of(outcome).event(),
{
    match outcome {
        Ok(Some(fd)) => (Some(fd), RulesetEvent::Succeeded),
        Ok(None) => (None, RulesetEvent::Skipped),
        Err(err) => (None, RulesetEvent::Failed(err)),
    }
}

/// What `try_open_path` comes to is reported as the mode has it: a path that was opened as
/// opened, one that was not as skipped under best effort and as failed under a hard
/// requirement, where the error names the path. A build that opens a path awaits the event.
pub proof fn law_open_event_follows_the_mode<T>(
    path: Seq<char>,
    opened: Result<T, landlock::PathFdError>,
    compatibility: LandlockCompatibility,
    outcome: Result<Option<T>, LandlockError>,
    state: BuildState,
)
    requires
        is_open_outcome(path, opened, compatibility, outcome),
        state.phase is Opening,
    ensures
        OpenReply::of(outcome).follows(compatibility),
        OpenReply::of(outcome) is Opened <==> opened is Ok,
        OpenReply::of(outcome).event() is Succeeded <==> opened is Ok,
        OpenReply::of(outcome).event() is Skipped <==> opened is Err && compatibility is BestEffort,
        OpenReply::of(outcome).event() is Failed <==> opened is Err && compatibility
            is HardRequirement,
        OpenReply::of(outcome).event() matches RulesetEvent::Failed(err) ==> err
            is PathUnavailable && err->path@ == path,
        state.awaits(OpenReply::of(outcome).event()),
{
}

// ---------------------------------------------------------------------------
// Whole builds
// ---------------------------------------------------------------------------

/// How each operation of a build goes; `opened` and `added` by the number of the grant.
pub struct Replies {
    pub created: Result<(), LandlockError>,
    pub opened: spec_fn(int) -> OpenReply,
    pub added: spec_fn(int) -> Result<(), LandlockError>,
    pub restricted: Result<(), LandlockError>,
}

/// The event that an outcome is reported as.
pub open spec fn as_event(result: Result<(), LandlockError>) -> RulesetEvent {
    match result {
        Ok(_) => RulesetEvent::Succeeded,
        Err(err) => RulesetEvent::Failed(err),
    }
}

impl Replies {
    /// The event with which a waiting build is answered.
    pub open spec fn event(self, state: BuildState) -> RulesetEvent {
        match state.phase {
            Phase::Creating => as_event(self.created),
            Phase::Opening => (self.opened)(state.next as int).event(),
            Phase::Adding => as_event((self.added)(state.next as int)),
            Phase::Restricting | Phase::Finished => as_event(self.restricted),
        }
    }

    /// The paths of a build with `total` paths are opened as the compatibility mode has it.
    pub open spec fn follow(self, compatibility: LandlockCompatibility, total: int) -> bool {
        forall|i: int|
            0 <= i < total ==> (#[trigger] (self.opened)(i)).follows(compatibility)
    }
}

/// The result of a build that goes on from a state, and the numbers of the grants for which
/// it adds a rule.
pub open spec fn run(state: BuildState, action: RulesetAction, replies: Replies) -> (
    Result<(), LandlockError>,
    Seq<int>,
)
    decreases state.remaining(),
{
    if let RulesetAction::Finish(result) = action {
        (result, Seq::empty())
    } else if !state.wf() || state.phase is Finished {
        arbitrary()
    } else {
        let event = replies.event(state);
        let (next_state, next_action) = state.after(event);
        let (result, rules) = run(next_state, next_action, replies);
        if state.phase is Adding && event is Succeeded {
            (result, seq![state.next as int] + rules)
        } else {
            (result, rules)
        }
    }
}

/// The error of the first grant from `from` on that cannot be opened or added, if there is
/// one, and the grants with a rule before it.
pub open spec fn scan(total: int, from: int, replies: Replies) -> (
    Option<LandlockError>,
    Seq<int>,
)
    decreases total - from,
{
    if from >= total {
        (None, Seq::empty())
    } else {
        match (replies.opened)(from) {
            OpenReply::Failed(err) => (Some(err), Seq::empty()),
            OpenReply::Skipped => scan(total, from + 1, replies),
            OpenReply::Opened => match (replies.added)(from) {
                Err(err) => (Some(err), Seq::empty()),
                Ok(_) => {
                    let (failure, rules) = scan(total, from + 1, replies);
                    (failure, seq![from] + rules)
                },
            },
        }
    }
}

/// The result of building a ruleset, and the grants for which a rule was added: an error
/// ends the build, a ruleset without rules is refused, any other is enforced.
pub open spec fn build_result(total: int, replies: Replies) -> (
    Result<(), LandlockError>,
    Seq<int>,
) {
    if total == 0 {
        (Ok(()), Seq::empty())
    } else {
        match replies.created {
            Err(err) => (Err(err), Seq::empty()),
            Ok(_) => {
                let (failure, rules) = scan(total, 0, replies);
                let result = match failure {
                    Some(err) => Err(err),
                    None => if rules.len() == 0 {
                        Err(LandlockError::NoValidPaths { total: total as usize })
                    } else {
                        replies.restricted
                    },
                };
                (result, rules)
            },
        }
    }
}

/// Every step brings the end nearer, so a build is over after finitely many events.
pub proof fn law_build_terminates(state: BuildState, event: RulesetEvent)
    requires
        state.wf(),
        state.awaits(event),
    ensures
        state.after(event).0.wf(),
        0 <= state.after(event).0.remaining() < state.remaining(),
        state.after(event).0.phase is Finished <==> state.after(event).1 is Finish,
{
}

/// The process is restricted only when every path was tried and there is at least one rule.
pub proof fn law_empty_ruleset_is_never_enforced(state: BuildState, event: RulesetEvent)
    requires
        state.wf(),
        state.awaits(event),
        state.after(event).1 is RestrictSelf,
    ensures
        state.after(event).0.rules_applied > 0,
        state.after(event).0.next == state.grants.len(),
        state.after(event).1->rules_applied == state.after(event).0.rules_applied,
        state.after(event).1->rules_applied + state.after(event).1->skipped
            == state.grants.len(),
{
}

/// A rule allows what its grant stands for, and nothing that the ruleset does not handle.
pub proof fn law_rules_stay_within_the_handled_rights(
    state: BuildState,
    event: RulesetEvent,
    compatibility: LandlockCompatibility,
)
    requires
        state.wf(),
        state.awaits(event),
        state.after(event).1 is AddRule,
    ensures
        state.after(event).1->access == state.grants[state.next as int].access,
        state.after(event).1->rights == rights_of(state.grants[state.next as int].access),
        has_right(
            BuildState::first(state.grants, compatibility).1->handled,
            state.after(event).1->rights,
        ),
{
    assert(ALL_RIGHTS & READ_RIGHTS == READ_RIGHTS) by (bit_vector);
    assert(ALL_RIGHTS & ALL_RIGHTS == ALL_RIGHTS) by (bit_vector);
}

proof fn lemma_resumed_run(state: BuildState, action: RulesetAction, replies: Replies)
    requires
        state.wf(),
        !(state.phase is Creating),
        (state, action) == state.resume(),
    ensures
        ({
            let (result, rules) = run(state, action, replies);
            let (failure, scanned) = scan(state.grants.len() as int, state.next as int, replies);
            &&& rules == scanned
            &&& result == match failure {
                Some(err) => Err(err),
                None => if state.rules_applied + scanned.len() == 0 {
                    Err(LandlockError::NoValidPaths { total: state.grants.len() as usize })
                } else {
                    replies.restricted
                },
            }
        }),
    decreases state.grants.len() - state.next,
{
    let total = state.grants.len() as int;
    let from = state.next as int;
    reveal_with_fuel(run, 3);
    if from < total {
        match (replies.opened)(from) {
            OpenReply::Failed(err) => {},
            OpenReply::Skipped => {
                let (s, a) = BuildState { next: state.next + 1, ..state }.resume();
                assert(s.resume() == (s, a));
                lemma_resumed_run(s, a, replies);
            },
            OpenReply::Opened => {
                let adding = BuildState { phase: Phase::Adding, ..state };
                if (replies.added)(from) is Ok {
                    let (s, a) = (BuildState {
                        next: state.next + 1,
                        rules_applied: state.rules_applied + 1,
                        ..state
                    }).resume();
                    assert(adding.after(RulesetEvent::Succeeded) == (s, a));
                    assert(s.resume() == (s, a));
                    lemma_resumed_run(s, a, replies);
                }
            },
        }
    } else if let Ok(done) = replies.restricted {
        assert(done == ());
    }
}

/// A build that is answered step by step comes to the same result, with the same rules in
/// the same order, as one loop over the grants.
pub proof fn law_build_is_one_pass(
    grants: Seq<Grant>,
    compatibility: LandlockCompatibility,
    replies: Replies,
)
    requires
        grants.len() <= usize::MAX,
    ensures
        ({
            let (state, action) = BuildState::first(grants, compatibility);
            run(state, action, replies) == build_result(grants.len() as int, replies)
        }),
{
    let (state, action) = BuildState::first(grants, compatibility);
    if grants.len() > 0 {
        reveal_with_fuel(run, 2);
        if replies.created is Ok {
            let (s, a) = state.resume();
            assert(s.resume() == (s, a));
            lemma_resumed_run(s, a, replies);
        }
    }
}

proof fn lemma_scan(total: int, from: int, replies: Replies)
    requires
        from <= total,
    ensures
        ({
            let (failure, rules) = scan(total, from, replies);
            &&& forall|k: int| 0 <= k < rules.len() ==> from <= #[trigger] rules[k] < total
            &&& forall|j: int, k: int|
                0 <= j < k < rules.len() ==> #[trigger] rules[j] < #[trigger] rules[k]
            &&& forall|k: int|
                0 <= k < rules.len() ==> (replies.opened)(#[trigger] rules[k]) is Opened
            &&& failure is None ==> forall|i: int|
                from <= i < total && (#[trigger] (replies.opened)(i)) is Opened
                    ==> rules.contains(i)
            &&& failure is None ==> forall|i: int|
                from <= i < total ==> !((#[trigger] (replies.opened)(i)) is Failed)
        }),
    decreases total - from,
{
    if from < total {
        lemma_scan(total, from + 1, replies);
        let (failure, rules) = scan(total, from, replies);
        let (_, rest) = scan(total, from + 1, replies);
        if (replies.opened)(from) is Opened && (replies.added)(from) is Ok {
            assert(rules == seq![from] + rest);
            assert(rules[0] == from);
            assert forall|k: int| 0 < k < rules.len() implies rules[k] == rest[k - 1] by {}
            if failure is None {
                assert forall|i: int|
                    from <= i < total && (#[trigger] (replies.opened)(i)) is Opened implies rules.contains(
                    i,
                ) by {
                    if i > from {
                        let k = choose|k: int| 0 <= k < rest.len() && rest[k] == i;
                        assert(rules[k + 1] == i);
                    }
                }
            }
        }
    }
}

/// Rules are added in the order of the grants, each grant at most once, and only for paths
/// that were opened. Where the build does not fail on the way, every path that was opened
/// has its rule.
pub proof fn law_rules_are_the_opened_paths(total: int, replies: Replies)
    requires
        0 <= total <= usize::MAX,
    ensures
        ({
            let (result, rules) = build_result(total, replies);
            &&& forall|k: int| 0 <= k < rules.len() ==> 0 <= #[trigger] rules[k] < total
            &&& forall|j: int, k: int|
                0 <= j < k < rules.len() ==> #[trigger] rules[j] < #[trigger] rules[k]
            &&& forall|k: int|
                0 <= k < rules.len() ==> (replies.opened)(#[trigger] rules[k]) is Opened
            &&& result is Ok ==> forall|i: int|
                0 <= i < total && (#[trigger] (replies.opened)(i)) is Opened
                    ==> rules.contains(i)
        }),
{
    lemma_scan(total, 0, replies);
}

/// A build that succeeds has enforced at least one rule, if anything was granted.
pub proof fn law_success_means_restricted(total: int, replies: Replies)
    requires
        0 < total <= usize::MAX,
        build_result(total, replies).0 is Ok,
    ensures
        build_result(total, replies).1.len() > 0,
        replies.created is Ok,
        replies.restricted is Ok,
{
}

/// Under a hard requirement the sandbox is set up only if every path was opened and has its
/// rule; one path that cannot be opened is an error.
pub proof fn law_hard_requirement_needs_every_path(total: int, replies: Replies)
    requires
        0 <= total <= usize::MAX,
        replies.follow(LandlockCompatibility::HardRequirement, total),
        finalized(
            build_result(total, replies).0,
            LandlockCompatibility::HardRequirement,
        ) is Ok,
    ensures
        forall|i: int| 0 <= i < total ==> (#[trigger] (replies.opened)(i)) is Opened,
        forall|i: int|
            0 <= i < total ==> #[trigger] build_result(total, replies).1.contains(i),
{
    lemma_scan(total, 0, replies);
    assert forall|i: int| 0 <= i < total implies (#[trigger] (replies.opened)(i)) is Opened by {}
    assert forall|i: int| 0 <= i < total implies #[trigger] build_result(
        total,
        replies,
    ).1.contains(i) by {
        assert((replies.opened)(i) is Opened);
    }
}

/// Where every path is opened and every operation succeeds, the sandbox is set up in either
/// mode, with a rule for every path in order.
pub proof fn law_nothing_fails_by_itself(
    total: int,
    replies: Replies,
    compatibility: LandlockCompatibility,
)
    requires
        0 <= total <= usize::MAX,
        replies.created is Ok,
        replies.restricted is Ok,
        forall|i: int| 0 <= i < total ==> (#[trigger] (replies.opened)(i)) is Opened,
        forall|i: int| 0 <= i < total ==> (#[trigger] (replies.added)(i)) is Ok,
    ensures
        build_result(total, replies).0 is Ok,
        build_result(total, replies).1 == Seq::new(total as nat, |i: int| i),
        finalized(build_result(total, replies).0, compatibility) is Ok,
{
    lemma_scan_adds_all(total, 0, replies);
}

proof fn lemma_scan_adds_all(total: int, from: int, replies: Replies)
    requires
        0 <= from <= total,
        forall|i: int| 0 <= i < total ==> (#[trigger] (replies.opened)(i)) is Opened,
        forall|i: int| 0 <= i < total ==> (#[trigger] (replies.added)(i)) is Ok,
    ensures
        scan(total, from, replies).0 is None,
        scan(total, from, replies).1 == Seq::new((total - from) as nat, |i: int| from + i),
    decreases total - from,
{
    if from < total {
        lemma_scan_adds_all(total, from + 1, replies);
        assert((replies.opened)(from) is Opened);
        assert((replies.added)(from) is Ok);
    }
    assert(scan(total, from, replies).1 =~= Seq::new((total - from) as nat, |i: int| from + i));
}

/// Best effort never fails, whatever happens: at worst nothing is restricted.
pub proof fn law_best_effort_never_fails(total: int, replies: Replies)
    ensures
        finalized(build_result(total, replies).0, LandlockCompatibility::BestEffort) is Ok,
{
}

/// Under best effort, paths that cannot be opened do not stop the others: where the kernel
/// interface does its part and one path can be opened, the ruleset is enforced.
pub proof fn law_best_effort_keeps_the_openable_paths(total: int, replies: Replies, path: int)
    requires
        0 <= path < total <= usize::MAX,
        replies.follow(LandlockCompatibility::BestEffort, total),
        (replies.opened)(path) is Opened,
        replies.created is Ok,
        replies.restricted is Ok,
        forall|i: int| 0 <= i < total ==> (#[trigger] (replies.added)(i)) is Ok,
    ensures
        build_result(total, replies).0 is Ok,
        build_result(total, replies).1.contains(path),
{
    lemma_scan(total, 0, replies);
    lemma_no_failure(total, 0, replies);
}

proof fn lemma_no_failure(total: int, from: int, replies: Replies)
    requires
        0 <= from <= total,
        forall|i: int| 0 <= i < total ==> (#[trigger] (replies.added)(i)) is Ok,
        forall|i: int| 0 <= i < total ==> !((#[trigger] (replies.opened)(i)) is Failed),
    ensures
        scan(total, from, replies).0 is None,
    decreases total - from,
{
    if from < total {
        lemma_no_failure(total, from + 1, replies);
    }
}

/// When no path can be opened, the build is refused with the number of paths.
pub proof fn law_no_valid_paths(total: int, replies: Replies)
    requires
        0 < total <= usize::MAX,
        replies.created is Ok,
        forall|i: int| 0 <= i < total ==> (#[trigger] (replies.opened)(i)) is Skipped,
    ensures
        build_result(total, replies) == (
            Err::<(), LandlockError>(LandlockError::NoValidPaths { total: total as usize }),
            Seq::<int>::empty(),
        ),
{
    lemma_all_skipped(total, 0, replies);
}

proof fn lemma_all_skipped(total: int, from: int, replies: Replies)
    requires
        0 <= from <= total,
        forall|i: int| 0 <= i < total ==> (#[trigger] (replies.opened)(i)) is Skipped,
    ensures
        scan(total, from, replies) == (None::<LandlockError>, Seq::<int>::empty()),
    decreases total - from,
{
    if from < total {
        lemma_all_skipped(total, from + 1, replies);
    }
}

// ---------------------------------------------------------------------------
// Reasons, errors and levels
// ---------------------------------------------------------------------------

/// A missing path and a denied one are told by their kind whatever the number; of the others
/// three numbers have words of their own, and every other number and none at all has not.
pub proof fn law_reasons(kind: IoErrorKind, number: Option<i32>)
    ensures
        kind is NotFound ==> reason_text(kind, number) == "path does not exist"@,
        kind is PermissionDenied ==> reason_text(kind, number) == "permission denied"@,
        kind is Other && number == Some(40i32) ==> reason_text(kind, number)
            == "too many symlink levels"@,
        kind is Other && number == Some(36i32) ==> reason_text(kind, number)
            == "path name too long"@,
        kind is Other && number == Some(20i32) ==> reason_text(kind, number)
            == "path component is not a directory"@,
        kind is Other && number != Some(40i32) && number != Some(36i32) && number != Some(20i32)
            ==> reason_text(kind, number) == "unexpected error"@,
{
}

/// The reason of a path error is that of the failed open it reports.
pub proof fn law_path_error_reason(err: landlock::PathFdError)
    ensures
        open_call_error(err) matches Some(source) ==> path_error_reason(err) == reason_text(
            io_error_kind(source),
            io_error_number(source),
        ),
        open_call_error(err) is None ==> path_error_reason(err) == "unexpected error"@,
{
}

/// An error that names a path says the mode, the path, the reason and the detail; one that
/// refuses an empty ruleset says how many paths were tried, so that no two counts read alike;
/// any other is told in the words of the kernel interface.
pub proof fn law_error_words(
    path: String,
    reason: &'static str,
    detail: String,
    total: usize,
    other: usize,
)
    ensures
        (LandlockError::PathUnavailable { path, reason, detail }).text()
            == "Landlock path unavailable in hard_requirement mode: "@ + path@ + " ("@ + reason@
            + "): "@ + detail@,
        (LandlockError::NoValidPaths { total }).text()
            == "Landlock ruleset has zero valid paths — all "@ + crate::text::decimal(total as nat)
            + " path(s) failed to open. Refusing to apply an empty ruleset that would block all filesystem access."@,
        (LandlockError::NoValidPaths { total }).text() == (LandlockError::NoValidPaths {
            total: other,
        }).text() ==> total == other,
        (LandlockError::Ruleset { detail }).text() == detail@,
{
    let head = "Landlock ruleset has zero valid paths — all "@;
    let tail =
        " path(s) failed to open. Refusing to apply an empty ruleset that would block all filesystem access."@;
    let a = crate::text::decimal(total as nat);
    let b = crate::text::decimal(other as nat);
    if (LandlockError::NoValidPaths { total }).text() == (LandlockError::NoValidPaths {
        total: other,
    }).text() {
        let text = head + a + tail;
        assert(text == head + b + tail);
        assert(text.len() == head.len() + a.len() + tail.len());
        assert(text.len() == head.len() + b.len() + tail.len());
        assert(text.subrange(head.len() as int, head.len() as int + a.len()) =~= a);
        assert(text.subrange(head.len() as int, head.len() as int + b.len()) =~= b);
        crate::text::law_decimal_reads_back(total as nat);
        crate::text::law_decimal_reads_back(other as nat);
    }
}

/// The kernel interface is as strict as the policy: each mode asks for the level of its name.
pub proof fn law_levels(level: LandlockCompatibility)
    ensures
        compat_level_spec(level) is BestEffort <==> level is BestEffort,
        compat_level_spec(level) is HardRequirement <==> level is HardRequirement,
{
}

/// Reading, listing and executing are three rights of fourteen; read-write access is all.
pub proof fn law_rights()
    ensures
        rights_of(PathAccess::Read) == 0x1u64 | 0x4u64 | 0x8u64,
        rights_of(PathAccess::ReadWrite) == 0x3fff,
{
    assert(0x1u64 | 0x4u64 | 0x8u64 == 0xdu64) by (bit_vector);
}

/// Success stays success. A failure is dropped under best effort and handed on, as it is, under
/// a hard requirement.
pub proof fn law_finalized<E>(result: Result<(), E>, compatibility: LandlockCompatibility)
    ensures
        result is Ok ==> finalized(result, compatibility) is Ok,
        compatibility is BestEffort ==> finalized(result, compatibility) is Ok,
        compatibility is HardRequirement ==> finalized(result, compatibility) == result,
{
}

/// What was opened is handed on, whatever the mode. A path that was not is left out under best
/// effort; under a hard requirement it is an error with the path, the reason and the displayed
/// error.
pub proof fn law_open_outcome<T>(
    path: Seq<char>,
    opened: Result<T, landlock::PathFdError>,
    compatibility: LandlockCompatibility,
    outcome: Result<Option<T>, LandlockError>,
)
    requires
        is_open_outcome(path, opened, compatibility, outcome),
    ensures
        opened is Ok ==> outcome is Ok && outcome->Ok_0 == Some(opened->Ok_0),
        opened is Err && compatibility is BestEffort ==> outcome is Ok && outcome->Ok_0 is None,
        opened is Err && compatibility is HardRequirement ==> {
            &&& outcome is Err
            &&& outcome->Err_0 is PathUnavailable
            &&& outcome->Err_0->path@ == path
            &&& outcome->Err_0->reason@ == path_error_reason(opened->Err_0)
            &&& displayed_as(opened->Err_0, outcome->Err_0->PathUnavailable_detail@)
        },
{
}

// ---------------------------------------------------------------------------
// Paths and grants
// ---------------------------------------------------------------------------

/// The policy's own read-write paths come first and unchanged, whatever becomes of the workdir.
/// Behind them comes the workdir, once, where it is included and given and none of them is the
/// same path; nothing else comes.
pub proof fn law_read_write_paths_are_kept(
    read_write: Seq<Seq<char>>,
    include_workdir: bool,
    workdir: Option<Seq<char>>,
)
    ensures
        ({
            let after = with_workdir(read_write, include_workdir, workdir);
            let is_there = workdir is Some && exists|i: int|
                0 <= i < read_write.len() && crate::path::same_path(
                    #[trigger] read_write[i],
                    workdir->0,
                );
            let is_added = include_workdir && workdir is Some && !is_there;
            &&& read_write.is_prefix_of(after)
            &&& !include_workdir || workdir is None || is_there ==> after == read_write
            &&& is_added ==> after.len() == read_write.len() + 1 && after.last() == workdir->0
        }),
{
}

/// Whether a list has a path is asked of the paths themselves, not of their texts.
pub proof fn law_lists_path(list: Seq<Seq<char>>, path: Seq<char>)
    ensures
        lists_path(list, path) <==> exists|i: int|
            0 <= i < list.len() && crate::path::same_path(#[trigger] list[i], path),
{
}

/// The text of an optional string is there exactly when the string is, and is its text.
pub proof fn law_optional_text(text: Option<&str>)
    ensures
        optional_text(text) is Some <==> text is Some,
        text is Some ==> optional_text(text)->0 == text->0@,
{
}

/// The listed grants are those of the list, one for one, with path and access.
pub proof fn law_grant_texts(grants: Seq<Grant>)
    ensures
        grant_texts(grants).len() == grants.len(),
        forall|i: int|
            0 <= i < grants.len() ==> #[trigger] grant_texts(grants)[i] == (
                grants[i].path@,
                grants[i].access,
            ),
{
}

/// Every read-write path of a policy is granted read-write access and every read-only path read
/// access, whatever the workdir; a path is granted read-write access only if it is a read-write
/// path of the policy or the included workdir.
pub proof fn law_grants_follow_the_policy(
    policy: SandboxPolicy,
    workdir: Option<Seq<char>>,
    path: Seq<char>,
)
    ensures
        forall|i: int|
            0 <= i < policy.filesystem.read_only@.len() ==> policy_grants(
                policy,
                workdir,
            ).contains((#[trigger] policy.filesystem.read_only@[i]@, PathAccess::Read)),
        forall|i: int|
            0 <= i < policy.filesystem.read_write@.len() ==> policy_grants(
                policy,
                workdir,
            ).contains((#[trigger] policy.filesystem.read_write@[i]@, PathAccess::ReadWrite)),
        policy_grants(policy, workdir).contains((path, PathAccess::ReadWrite)) ==> {
            ||| exists|i: int|
                0 <= i < policy.filesystem.read_write@.len()
                    && #[trigger] policy.filesystem.read_write@[i]@ == path
            ||| policy.filesystem.include_workdir && workdir == Some(path)
        },
        policy_grants(policy, workdir).contains((path, PathAccess::Read)) ==> exists|i: int|
            0 <= i < policy.filesystem.read_only@.len()
                && #[trigger] policy.filesystem.read_only@[i]@ == path,
{
    law_policy_grants(policy, workdir);
    let grants = policy_grants(policy, workdir);
    let read_only = crate::path::texts(policy.filesystem.read_only@);
    let own = crate::path::texts(policy.filesystem.read_write@);
    let read_write = with_workdir(own, policy.filesystem.include_workdir, workdir);
    law_read_write_paths_are_kept(own, policy.filesystem.include_workdir, workdir);
    assert forall|i: int| 0 <= i < policy.filesystem.read_only@.len() implies grants.contains(
        (#[trigger] policy.filesystem.read_only@[i]@, PathAccess::Read),
    ) by {
        assert(grants[i] == (read_only[i], PathAccess::Read));
    }
    assert forall|i: int| 0 <= i < policy.filesystem.read_write@.len() implies grants.contains(
        (#[trigger] policy.filesystem.read_write@[i]@, PathAccess::ReadWrite),
    ) by {
        assert(read_write[i] == own[i]);
        let at = read_only.len() + i;
        assert(grants[at] == (read_write[at - read_only.len()], PathAccess::ReadWrite));
    }
    if grants.contains((path, PathAccess::ReadWrite)) {
        let k = choose|k: int| 0 <= k < grants.len() && grants[k] == (path, PathAccess::ReadWrite);
        if k < read_only.len() {
            assert(grants[k] == (read_only[k], PathAccess::Read));
        }
        let i = k - read_only.len();
        assert(read_write[i] == path);
        if i < own.len() {
            assert(own[i] == policy.filesystem.read_write@[i]@);
        }
    }
    if grants.contains((path, PathAccess::Read)) {
        let k = choose|k: int| 0 <= k < grants.len() && grants[k] == (path, PathAccess::Read);
        if k >= read_only.len() {
            assert(grants[k] == (read_write[k - read_only.len()], PathAccess::ReadWrite));
        }
        assert(read_only[k] == policy.filesystem.read_only@[k]@);
    }
}

// ---------------------------------------------------------------------------
// Steps of a build
// ---------------------------------------------------------------------------

/// A build with grants begins with a ruleset that handles all fourteen rights, at the level of
/// the policy, and with none of its grants done; a build without grants is over at once, and
/// well.
pub proof fn law_first_step(grants: Seq<Grant>, compatibility: LandlockCompatibility)
    ensures
        ({
            let (state, action) = BuildState::first(grants, compatibility);
            &&& state.grants == grants && state.next == 0 && state.rules_applied == 0
            &&& grants.len() == 0 ==> state.phase is Finished && action is Finish && action->0 is Ok
            &&& grants.len() > 0 ==> {
                &&& state.phase is Creating
                &&& action is CreateRuleset
                &&& action->handled == 0x3fff
                &&& action->level is BestEffort <==> compatibility is BestEffort
            }
        }),
{
}

/// What each event leads to. The grants never change. A failure ends the build with that very
/// failure. The ruleset being there leads to the first grant; a path being opened to the rule
/// of that same grant, with its rights; a path being skipped and a rule being added each to
/// the next grant, and only a rule being added counts one rule more; the process being
/// restricted ends the build well.
pub proof fn law_each_event(state: BuildState, event: RulesetEvent)
    requires
        state.wf(),
        state.awaits(event),
    ensures
        ({
            let (next, action) = state.after(event);
            &&& next.grants == state.grants
            &&& event is Failed ==> {
                &&& next.phase is Finished
                &&& action is Finish && action->0 is Err && action->0->Err_0 == event->Failed_0
            }
            &&& event is Succeeded && state.phase is Creating ==> next.next == state.next
                && next.rules_applied == state.rules_applied
            &&& event is Skipped ==> next.next == state.next + 1 && next.rules_applied
                == state.rules_applied
            &&& event is Succeeded && state.phase is Opening ==> {
                &&& next.phase is Adding
                &&& next.next == state.next && next.rules_applied == state.rules_applied
                &&& action is AddRule
                &&& action->access == state.grants[state.next as int].access
                &&& action->access is Read ==> action->rights == 0xd
                &&& action->access is ReadWrite ==> action->rights == 0x3fff
            }
            &&& event is Succeeded && state.phase is Adding ==> next.next == state.next + 1
                && next.rules_applied == state.rules_applied + 1
            &&& event is Succeeded && state.phase is Restricting ==> {
                &&& next.phase is Finished
                &&& action is Finish && action->0 is Ok
            }
        }),
{
}

/// What a build asks for once the ruleset is there, a path is skipped or a rule is added: while
/// grants are left, to open the path of grant number `next`; after the last one, to restrict
/// the process if there is a rule, and else nothing more, which is an error with the number
/// of paths.
pub proof fn law_each_grant_in_its_turn(state: BuildState, event: RulesetEvent)
    requires
        state.wf(),
        state.awaits(event),
    ensures
        ({
            let (next, action) = state.after(event);
            let goes_on = event is Skipped || event is Succeeded && (state.phase is Creating
                || state.phase is Adding);
            &&& action is OpenPath ==> {
                &&& next.phase is Opening
                &&& next.next < next.grants.len()
                &&& action->path == state.grants[next.next as int].path
            }
            &&& goes_on && next.next < state.grants.len() ==> action is OpenPath
            &&& goes_on && next.next >= state.grants.len() && next.rules_applied > 0 ==> {
                &&& next.phase is Restricting
                &&& action is RestrictSelf
                &&& action->rules_applied == next.rules_applied
                &&& action->skipped == state.grants.len() - next.rules_applied
            }
            &&& goes_on && next.next >= state.grants.len() && next.rules_applied == 0 ==> {
                &&& next.phase is Finished
                &&& action is Finish && action->0 is Err
                &&& action->0->Err_0 == LandlockError::NoValidPaths {
                    total: state.grants.len() as usize,
                }
            }
            &&& action is OpenPath || action is RestrictSelf ==> goes_on
        }),
{
}

/// The operations that a build asks for, from an operation on.
pub open spec fn actions_of(state: BuildState, action: RulesetAction, replies: Replies) -> Seq<
    RulesetAction,
>
    decreases state.remaining(),
{
    if action is Finish || !state.wf() || state.phase is Finished {
        seq![action]
    } else {
        let (next_state, next_action) = state.after(replies.event(state));
        seq![action] + actions_of(next_state, next_action, replies)
    }
}

/// The operations on the grants from number `from` on, when every path can be opened and every
/// operation succeeds: each path is opened and has its rule, and the process is restricted.
pub open spec fn full_turns(grants: Seq<Grant>, from: int) -> Seq<RulesetAction>
    decreases grants.len() - from,
{
    if from < 0 || from >= grants.len() {
        seq![
            RulesetAction::RestrictSelf { rules_applied: grants.len() as usize, skipped: 0 },
            RulesetAction::Finish(Ok(())),
        ]
    } else {
        seq![
            RulesetAction::OpenPath { path: grants[from].path },
            RulesetAction::AddRule {
                access: grants[from].access,
                rights: if grants[from].access is Read {
                    0xd
                } else {
                    0x3fff
                },
            },
        ] + full_turns(grants, from + 1)
    }
}

proof fn lemma_full_turns(state: BuildState, action: RulesetAction, replies: Replies)
    requires
        state.wf(),
        !(state.phase is Creating),
        (state, action) == state.resume(),
        state.rules_applied == state.next,
        state.grants.len() > 0,
        replies.restricted is Ok,
        forall|i: int| 0 <= i < state.grants.len() ==> (#[trigger] (replies.opened)(i)) is Opened,
        forall|i: int| 0 <= i < state.grants.len() ==> (#[trigger] (replies.added)(i)) is Ok,
    ensures
        actions_of(state, action, replies) == full_turns(state.grants, state.next as int),
    decreases state.grants.len() - state.next,
{
    reveal_with_fuel(actions_of, 3);
    let from = state.next as int;
    if from < state.grants.len() {
        assert((replies.opened)(from) is Opened);
        assert((replies.added)(from) is Ok);
        let adding = BuildState { phase: Phase::Adding, ..state };
        let (s, a) = (BuildState {
            next: state.next + 1,
            rules_applied: state.rules_applied + 1,
            ..state
        }).resume();
        assert(adding.after(RulesetEvent::Succeeded) == (s, a));
        assert(s.resume() == (s, a));
        lemma_full_turns(s, a, replies);
        assert(actions_of(state, action, replies) =~= full_turns(state.grants, from));
    } else {
        assert(actions_of(state, action, replies) =~= full_turns(state.grants, from));
    }
}

/// Over a whole build in which every path can be opened and every operation succeeds, the paths
/// that are opened are those of the grants, each in its turn, and each is followed by the rule
/// with the access of its own grant.
pub proof fn law_whole_build(
    grants: Seq<Grant>,
    compatibility: LandlockCompatibility,
    replies: Replies,
)
    requires
        0 < grants.len() <= usize::MAX,
        replies.created is Ok,
        replies.restricted is Ok,
        forall|i: int| 0 <= i < grants.len() ==> (#[trigger] (replies.opened)(i)) is Opened,
        forall|i: int| 0 <= i < grants.len() ==> (#[trigger] (replies.added)(i)) is Ok,
    ensures
        ({
            let (state, action) = BuildState::first(grants, compatibility);
            actions_of(state, action, replies) == seq![action] + full_turns(grants, 0)
        }),
{
    let (state, action) = BuildState::first(grants, compatibility);
    reveal_with_fuel(actions_of, 2);
    let (s, a) = state.resume();
    assert(s.resume() == (s, a));
    lemma_full_turns(s, a, replies);
}

} // verus!
