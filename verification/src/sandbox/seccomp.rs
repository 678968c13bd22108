//! Seccomp syscall filtering.
//!
//! The filter uses a default-allow policy with targeted blocks:
//!
//! 1. **Socket domain blocks** -- prevent raw/kernel sockets that bypass the proxy
//! 2. **Unconditional syscall blocks** -- block syscalls that enable sandbox escape
//!    (fileless exec, ptrace, BPF, cross-process memory access, io_uring, mount)
//! 3. **Conditional syscall blocks** -- block dangerous flag combinations on otherwise
//!    needed syscalls (execveat+AT_EMPTY_PATH, unshare+CLONE_NEWUSER,
//!    seccomp+SET_MODE_FILTER)

use crate::policy::{NetworkMode, SandboxPolicy};
use std::collections::BTreeMap;
use vstd::prelude::*;

verus! {

broadcast use vstd::laws_cmp::group_laws_cmp;

/// Value of `SECCOMP_SET_MODE_FILTER` (linux/seccomp.h).
pub const SECCOMP_SET_MODE_FILTER: u64 = 1;

// ---------------------------------------------------------------------------
// Plain values
// ---------------------------------------------------------------------------

/// How the low 32 bits of a syscall argument are compared with a value.
#[derive(Debug, Clone, Copy, PartialEq, Eq, Structural)]
pub enum ArgTest {
    /// The bits are equal to those of the value.
    Equal,
    /// The bits under the mask are equal to those of the value under the mask.
    MaskedEqual(u64),
}

/// A condition on one argument of a syscall.
#[derive(Debug, Clone, Copy, PartialEq, Eq, Structural)]
pub struct Condition {
    pub arg_index: u8,
    pub test: ArgTest,
    pub value: u64,
}

/// What the kernel does with a syscall.
#[derive(Debug, Clone, Copy, PartialEq, Eq, Structural)]
pub enum Action {
    Allow,
    Errno(u32),
}

/// Architectures that a filter can be compiled for.
#[derive(Debug, Clone, Copy, PartialEq, Eq, Structural)]
pub enum TargetArch {
    X86_64,
    Aarch64,
    Riscv64,
}

/// The numbers that the running kernel gives to the syscalls of the filter.
#[derive(Debug, Clone, Copy, PartialEq, Eq, Structural)]
pub struct Syscalls {
    pub socket: i64,
    pub memfd_create: i64,
    pub ptrace: i64,
    pub bpf: i64,
    pub process_vm_readv: i64,
    pub io_uring_setup: i64,
    pub mount: i64,
    pub execveat: i64,
    pub unshare: i64,
    pub seccomp: i64,
}

impl Syscalls {
    /// All the numbers, in the order of the fields.
    pub open spec fn numbers(self) -> Seq<i64> {
        seq![
            self.socket,
            self.memfd_create,
            self.ptrace,
            self.bpf,
            self.process_vm_readv,
            self.io_uring_setup,
            self.mount,
            self.execveat,
            self.unshare,
            self.seccomp,
        ]
    }

    /// No two syscalls share a number, and each number is one that a filter can hold.
    pub open spec fn valid(self) -> bool {
        &&& self.numbers().no_duplicates()
        &&& forall|i: int|
            0 <= i < self.numbers().len() ==> 0 <= #[trigger] self.numbers()[i] <= u32::MAX
    }
}

/// The kernel constants that the filter speaks of.
#[derive(Debug, Clone, Copy, PartialEq, Eq, Structural)]
pub struct KernelConstants {
    pub af_packet: i32,
    pub af_bluetooth: i32,
    pub af_vsock: i32,
    pub af_inet: i32,
    pub af_inet6: i32,
    pub af_netlink: i32,
    pub at_empty_path: u64,
    pub clone_newuser: u64,
    pub eperm: u32,
}

/// The values of the kernel constants on Linux.
pub open spec fn linux_constants() -> KernelConstants {
    KernelConstants {
        af_packet: 17,
        af_bluetooth: 31,
        af_vsock: 40,
        af_inet: 2,
        af_inet6: 10,
        af_netlink: 16,
        at_empty_path: 0x1000,
        clone_newuser: 0x1000_0000,
        eperm: 1,
    }
}

/// Why a filter could not be built.
#[derive(Debug)]
pub enum SeccompError {
    /// The filter compiler refused a condition, a rule or the filter.
    Backend(seccompiler::BackendError),
    /// The filter compiler has no such target.
    UnsupportedArchitecture,
}

impl SeccompError {
    /// The error in words.
    pub open spec fn text(self) -> Seq<char> {
        match self {
            SeccompError::Backend(err) => backend_error_text(err),
            SeccompError::UnsupportedArchitecture => "Unsupported architecture for seccomp"@,
        }
    }

    /// The error in words.
    pub fn message(&self) -> (r: String)
        ensures
            r@ == self.text(),
    {
        match self {
            SeccompError::Backend(err) => display_backend_error(err),
            SeccompError::UnsupportedArchitecture => {
                "Unsupported architecture for seccomp".to_owned()
            },
        }
    }
}

/// What the filter compiler says of an argument index above 5.
pub open spec fn invalid_index_text() -> Seq<char> {
    "The seccomp rule contains an invalid argument index. Maximum index value: 5"@
}

/// What a filter is made of: the rules of each filtered syscall, what happens to a
/// syscall that matches none and to one that matches, and the target.
pub struct FilterParts {
    pub rules: Map<i64, Seq<Seq<Condition>>>,
    pub mismatch: Action,
    pub matched: Action,
    pub arch: TargetArch,
}

// ---------------------------------------------------------------------------
// What the rules block
// ---------------------------------------------------------------------------

/// A condition holds of the six arguments of a syscall.
pub open spec fn condition_holds(condition: Condition, args: Seq<u64>) -> bool {
    let arg = args[condition.arg_index as int] as u32;
    let value = condition.value as u32;
    match condition.test {
        ArgTest::Equal => arg == value,
        ArgTest::MaskedEqual(mask) => arg & (mask as u32) == value & (mask as u32),
    }
}

/// A rule matches when all its conditions hold.
pub open spec fn rule_matches(rule: Seq<Condition>, args: Seq<u64>) -> bool {
    forall|i: int| 0 <= i < rule.len() ==> condition_holds(#[trigger] rule[i], args)
}

/// A syscall is blocked when the table has it with no rules, or with one that matches.
pub open spec fn blocked(
    table: Map<i64, Seq<Seq<Condition>>>,
    syscall: i64,
    args: Seq<u64>,
) -> bool {
    &&& table.contains_key(syscall)
    &&& {
        ||| table[syscall].len() == 0
        ||| exists|i: int| 0 <= i < table[syscall].len() && rule_matches(#[trigger] table[syscall][i], args)
    }
}

/// The action that the rules of a filter call for.
pub open spec fn action_for(parts: FilterParts, syscall: i64, args: Seq<u64>) -> Action {
    if blocked(parts.rules, syscall, args) {
        parts.matched
    } else {
        parts.mismatch
    }
}

/// The error numbers of the actions are ones that the kernel gives back as they are.
pub open spec fn is_representable(parts: FilterParts) -> bool {
    &&& parts.matched matches Action::Errno(number) ==> number <= 4095
    &&& parts.mismatch matches Action::Errno(number) ==> number <= 4095
}

/// Under the program every syscall of the filter's architecture meets the action that its
/// rules call for.
pub open spec fn enforces(program: Seq<seccompiler::sock_filter>, parts: FilterParts) -> bool {
    forall|syscall: i64, args: Seq<u64>|
        0 <= syscall <= u32::MAX && args.len() == 6 ==> #[trigger] verdict(
            program,
            parts.arch,
            syscall,
            args,
        ) == action_for(parts, syscall, args)
}

// ---------------------------------------------------------------------------
// The filter compiler
// ---------------------------------------------------------------------------

#[verifier::external_type_specification]
#[verifier::external_body]
pub struct ExBackendError(seccompiler::BackendError);

#[verifier::external_type_specification]
#[verifier::external_body]
pub struct ExSeccompCondition(seccompiler::SeccompCondition);

#[verifier::external_type_specification]
#[verifier::external_body]
pub struct ExSeccompRule(seccompiler::SeccompRule);

#[verifier::external_type_specification]
#[verifier::external_body]
pub struct ExSeccompFilter(seccompiler::SeccompFilter);

#[verifier::external_type_specification]
#[verifier::external_body]
pub struct ExSockFilter(seccompiler::sock_filter);

/// What a [`seccompiler::SeccompCondition`] compares, if a [`Condition`] can say it: the low 32
/// bits of an argument, for equality or masked equality.
pub uninterp spec fn condition_parts(condition: seccompiler::SeccompCondition) -> Option<
    Condition,
>;

/// The conditions that a [`seccompiler::SeccompRule`] holds, if a [`Condition`] can say each.
pub uninterp spec fn rule_conditions(rule: seccompiler::SeccompRule) -> Option<Seq<Condition>>;

/// What a [`seccompiler::SeccompFilter`] holds, if [`FilterParts`] can say it.
pub uninterp spec fn filter_parts(filter: seccompiler::SeccompFilter) -> Option<FilterParts>;

/// The program that the compiler makes of a filter, if it makes one.
pub uninterp spec fn compiled_program(parts: FilterParts) -> Option<Seq<seccompiler::sock_filter>>;

/// What the kernel does with a syscall that a program filters: one of the architecture `arch`,
/// with a number and six arguments.
pub uninterp spec fn verdict(
    program: Seq<seccompiler::sock_filter>,
    arch: TargetArch,
    syscall: i64,
    args: Seq<u64>,
) -> Action;

/// The syscall numbers are those of the target that this is built for.
pub uninterp spec fn is_target_numbering(sys: Syscalls) -> bool;

/// The words for a [`seccompiler::BackendError`].
pub uninterp spec fn backend_error_text(err: seccompiler::BackendError) -> Seq<char>;

/// The `Display` text of a `BackendError`, which is a function of the error.
#[verifier::external_body]
fn display_backend_error(err: &seccompiler::BackendError) -> (r: String)
    ensures
        r@ == backend_error_text(*err),
{
    format!("{}", err)
}

/// `SeccompCondition::new` on the low 32 bits (`Dword`) of an argument: it keeps what
/// it is given, and refuses exactly the argument indices above 5, in these words.
#[verifier::external_body]
fn new_condition(condition: Condition) -> (r: Result<
    seccompiler::SeccompCondition,
    seccompiler::BackendError,
>)
    ensures
        r is Ok <==> condition.arg_index <= 5,
        r matches Ok(c) ==> condition_parts(c) == Some(condition),
        r matches Err(err) ==> backend_error_text(err) == invalid_index_text(),
{
    let test = match condition.test {
        ArgTest::Equal => seccompiler::SeccompCmpOp::Eq,
        ArgTest::MaskedEqual(mask) => seccompiler::SeccompCmpOp::MaskedEq(mask),
    };
    let len = seccompiler::SeccompCmpArgLen::Dword;
    seccompiler::SeccompCondition::new(condition.arg_index, len, test, condition.value)
}

/// What the conditions of a list compare, if a [`Condition`] can say each.
pub open spec fn all_parts(conditions: Seq<seccompiler::SeccompCondition>) -> Option<
    Seq<Condition>,
> {
    if forall|i: int|
        0 <= i < conditions.len() ==> condition_parts(#[trigger] conditions[i]) is Some {
        Some(conditions.map_values(|c: seccompiler::SeccompCondition| condition_parts(c)->0))
    } else {
        None
    }
}

/// `SeccompRule::new`: the rule holds the conditions it is given, in their order; only
/// the empty list is refused.
#[verifier::external_body]
fn new_rule(conditions: Vec<seccompiler::SeccompCondition>) -> (r: Result<
    seccompiler::SeccompRule,
    seccompiler::BackendError,
>)
    ensures
        r is Ok <==> conditions@.len() > 0,
        r matches Ok(rule) ==> rule_conditions(rule) == all_parts(conditions@),
{
    seccompiler::SeccompRule::new(conditions)
}

/// `SeccompFilter::new`: the filter holds what it is given; it is refused exactly when
/// the two actions are the same.
#[verifier::external_body]
fn new_filter(
    rules: BTreeMap<i64, Vec<seccompiler::SeccompRule>>,
    mismatch: Action,
    matched: Action,
    arch: TargetArch,
) -> (r: Result<seccompiler::SeccompFilter, seccompiler::BackendError>)
    ensures
        r is Ok <==> mismatch != matched,
        r matches Ok(f) ==> filter_parts(f) == if is_expressible(rules@) {
            Some(FilterParts { rules: rule_table(rules@), mismatch, matched, arch })
        } else {
            None
        },
{
    let action = |a: Action| match a {
        Action::Allow => seccompiler::SeccompAction::Allow,
        Action::Errno(n) => seccompiler::SeccompAction::Errno(n),
    };
    let target = match arch {
        TargetArch::X86_64 => seccompiler::TargetArch::x86_64,
        TargetArch::Aarch64 => seccompiler::TargetArch::aarch64,
        TargetArch::Riscv64 => seccompiler::TargetArch::riscv64,
    };
    seccompiler::SeccompFilter::new(rules, action(mismatch), action(matched), target)
}

/// `BpfProgram::try_from(SeccompFilter)`: what it makes is a function of what the filter
/// holds. A filter that has rules of one condition each compiles to as many instructions
/// as [`program_len`] counts, and is refused exactly when that is 4096 or more; under the
/// program a syscall meets the matched action when its rules match, else the other action.
/// What each instruction is stays unsaid, and so does all of a filter with longer rules but
/// that its program is a function of what it holds.
#[verifier::external_body]
fn compile_filter(filter: seccompiler::SeccompFilter) -> (r: Result<
    seccompiler::BpfProgram,
    seccompiler::BackendError,
>)
    requires
        filter_parts(filter) is Some,
        forall|nr: i64| #[trigger]
            filter_parts(filter)->0.rules.contains_key(nr) ==> 0 <= nr <= u32::MAX,
    ensures
        r matches Ok(program) ==> compiled_program(filter_parts(filter)->0) == Some(program@),
        r is Err ==> compiled_program(filter_parts(filter)->0) is None,
        sizes_known(filter_parts(filter)->0.rules) ==> forall|keys: Seq<i64>| #[trigger]
            enumerates(keys, filter_parts(filter)->0.rules) ==> (r is Ok <==> program_len(
                filter_parts(filter)->0.rules,
                keys,
            ) < 4096),
        sizes_known(filter_parts(filter)->0.rules) && r is Ok ==> forall|keys: Seq<i64>| #[trigger]
            enumerates(keys, filter_parts(filter)->0.rules) ==> r->Ok_0@.len() == program_len(
                filter_parts(filter)->0.rules,
                keys,
            ),
        r is Ok && sizes_known(filter_parts(filter)->0.rules) && is_representable(
            filter_parts(filter)->0,
        ) ==> forall|syscall: i64, args: Seq<u64>|
            0 <= syscall <= u32::MAX && args.len() == 6 ==> #[trigger] verdict(
                r->Ok_0@,
                filter_parts(filter)->0.arch,
                syscall,
                args,
            ) == action_for(filter_parts(filter)->0, syscall, args),
{
    filter.try_into()
}

/// `TargetArch::try_from(&str)`: it knows three names, in any mix of cases. (It compares
/// the lower-cased name; no character outside ASCII has a lower case that consists of
/// characters of these names.)
#[verifier::external_body]
fn parse_arch(name: &str) -> (r: Result<TargetArch, seccompiler::BackendError>)
    ensures
        r matches Ok(arch) ==> supported_arch(name@) == Some(arch),
        r is Err ==> supported_arch(name@) is None,
{
    match seccompiler::TargetArch::try_from(name) {
        Ok(seccompiler::TargetArch::x86_64) => Ok(TargetArch::X86_64),
        Ok(seccompiler::TargetArch::aarch64) => Ok(TargetArch::Aarch64),
        Ok(seccompiler::TargetArch::riscv64) => Ok(TargetArch::Riscv64),
        Err(err) => Err(err),
    }
}

/// The `SYS_*` constants of the `libc` crate for the target that this is built for. They
/// differ from one target to the next; on each there is one numbering, and its numbers are
/// distinct and small.
#[verifier::external_body]
fn host_syscalls() -> (r: Syscalls)
    ensures
        is_target_numbering(r),
        forall|sys: Syscalls| #[trigger] is_target_numbering(sys) ==> sys == r,
        r.valid(),
{
    Syscalls {
        socket: libc::SYS_socket,
        memfd_create: libc::SYS_memfd_create,
        ptrace: libc::SYS_ptrace,
        bpf: libc::SYS_bpf,
        process_vm_readv: libc::SYS_process_vm_readv,
        io_uring_setup: libc::SYS_io_uring_setup,
        mount: libc::SYS_mount,
        execveat: libc::SYS_execveat,
        unshare: libc::SYS_unshare,
        seccomp: libc::SYS_seccomp,
    }
}

/// The `AF_*`, `AT_EMPTY_PATH`, `CLONE_NEWUSER` and `EPERM` constants of the `libc`
/// crate, which are the same on every Linux target.
#[verifier::external_body]
fn kernel_constants() -> (r: KernelConstants)
    ensures
        r == linux_constants(),
{
    KernelConstants {
        af_packet: libc::AF_PACKET,
        af_bluetooth: libc::AF_BLUETOOTH,
        af_vsock: libc::AF_VSOCK,
        af_inet: libc::AF_INET,
        af_inet6: libc::AF_INET6,
        af_netlink: libc::AF_NETLINK,
        at_empty_path: libc::AT_EMPTY_PATH as u64,
        clone_newuser: libc::CLONE_NEWUSER as u64,
        eperm: libc::EPERM as u32,
    }
}

// ---------------------------------------------------------------------------
// Rules
// ---------------------------------------------------------------------------

/// Every rule is one whose conditions a [`Condition`] can say.
pub open spec fn is_expressible(rules: Map<i64, Vec<seccompiler::SeccompRule>>) -> bool {
    forall|nr: i64, i: int|
        #![trigger rules[nr]@[i]]
        rules.contains_key(nr) && 0 <= i < rules[nr]@.len() ==> rule_conditions(
            rules[nr]@[i],
        ) is Some
}

/// The conditions of each rule of each syscall, where they are expressible.
pub open spec fn rule_table(rules: Map<i64, Vec<seccompiler::SeccompRule>>) -> Map<
    i64,
    Seq<Seq<Condition>>,
> {
    rules.map_values(
        |chain: Vec<seccompiler::SeccompRule>|
            chain@.map_values(|rule: seccompiler::SeccompRule| rule_conditions(rule)->0),
    )
}

/// The rules that are held for a syscall; none where it is not there.
pub open spec fn held_rules(
    rules: Map<i64, Vec<seccompiler::SeccompRule>>,
    syscall: i64,
) -> Seq<seccompiler::SeccompRule> {
    if rules.contains_key(syscall) {
        rules[syscall]@
    } else {
        Seq::empty()
    }
}

/// `after` holds what `before` holds and, behind the rules of `syscall`, one rule more, of
/// one condition.
pub open spec fn adds_rule(
    before: Map<i64, Vec<seccompiler::SeccompRule>>,
    after: Map<i64, Vec<seccompiler::SeccompRule>>,
    syscall: i64,
    condition: Condition,
) -> bool {
    &&& after.dom() == before.dom().insert(syscall)
    &&& forall|nr: i64| nr != syscall && before.contains_key(nr) ==> #[trigger] after[nr] == before[nr]
    &&& after[syscall]@.len() == held_rules(before, syscall).len() + 1
    &&& after[syscall]@.drop_last() == held_rules(before, syscall)
    &&& rule_conditions(after[syscall]@.last()) == Some(seq![condition])
}

/// One rule more is one row more in the table.
proof fn lemma_added_rule(
    before: Map<i64, Vec<seccompiler::SeccompRule>>,
    after: Map<i64, Vec<seccompiler::SeccompRule>>,
    syscall: i64,
    condition: Condition,
)
    requires
        adds_rule(before, after, syscall, condition),
    ensures
        rule_table(after) == with_rule(rule_table(before), syscall, condition),
        is_expressible(before) ==> is_expressible(after),
{
    let held = held_rules(before, syscall);
    let chain = after[syscall]@;
    assert(chain =~= held.push(chain.last()));
    assert(rule_table(after)[syscall] =~= rules_of(rule_table(before), syscall).push(
        seq![condition],
    ));
    assert(rule_table(after) =~= with_rule(rule_table(before), syscall, condition));
    if is_expressible(before) {
        assert forall|nr: i64, i: int|
            #![trigger after[nr]@[i]]
            after.contains_key(nr) && 0 <= i < after[nr]@.len() implies rule_conditions(
            after[nr]@[i],
        ) is Some by {
            if nr != syscall {
                assert(after[nr] == before[nr]);
                assert(rule_conditions(before[nr]@[i]) is Some);
            } else if i < held.len() {
                assert(chain[i] == held[i]);
                assert(rule_conditions(before[nr]@[i]) is Some);
            }
        }
    }
}

/// The rules of a syscall; none where the table does not mention it.
pub open spec fn rules_of(table: Map<i64, Seq<Seq<Condition>>>, syscall: i64) -> Seq<
    Seq<Condition>,
> {
    if table.contains_key(syscall) {
        table[syscall]
    } else {
        Seq::empty()
    }
}

/// The table with one more rule, of one condition, at the end of those of `syscall`.
pub open spec fn with_rule(
    table: Map<i64, Seq<Seq<Condition>>>,
    syscall: i64,
    condition: Condition,
) -> Map<i64, Seq<Seq<Condition>>> {
    table.insert(syscall, rules_of(table, syscall).push(seq![condition]))
}

/// The condition that an argument is equal to a value.
pub open spec fn equals(arg_index: u8, value: u64) -> Condition {
    Condition { arg_index, test: ArgTest::Equal, value }
}

/// The condition that a flag is set in an argument.
pub open spec fn has_flag(arg_index: u8, flag_bit: u64) -> Condition {
    Condition { arg_index, test: ArgTest::MaskedEqual(flag_bit), value: flag_bit }
}

/// `rules.entry(syscall).or_default()`: the syscall is filtered, with the rules it has;
/// with none, it is blocked whatever its arguments.
fn filter_syscall(rules: &mut BTreeMap<i64, Vec<seccompiler::SeccompRule>>, syscall: i64)
    ensures
        rule_table(final(rules)@) == rule_table(old(rules)@).insert(
            syscall,
            rules_of(rule_table(old(rules)@), syscall),
        ),
        is_expressible(old(rules)@) ==> is_expressible(final(rules)@),
{
    if !rules.contains_key(&syscall) {
        rules.insert(syscall, Vec::new());
    }
    assert(rule_table(rules@) =~~= rule_table(old(rules)@).insert(
        syscall,
        rules_of(rule_table(old(rules)@), syscall),
    ));
}

/// Adds one rule of one condition to those of a syscall.
fn add_rule(
    rules: &mut BTreeMap<i64, Vec<seccompiler::SeccompRule>>,
    syscall: i64,
    condition: Condition,
) -> (r: Result<(), SeccompError>)
    ensures
        r is Ok <==> condition.arg_index <= 5,
        r is Ok ==> adds_rule(old(rules)@, final(rules)@, syscall, condition),
        r matches Err(err) ==> {
            &&& err is Backend
            &&& err.text() == invalid_index_text()
            &&& final(rules)@ == old(rules)@
        },
{
    let checked = match new_condition(condition) {
        Ok(checked) => checked,
        Err(err) => return Err(SeccompError::Backend(err)),
    };
    let conditions = vec![checked];
    let rule = match new_rule(conditions) {
        Ok(rule) => rule,
        Err(err) => return Err(SeccompError::Backend(err)),
    };
    let mut chain = match rules.remove(&syscall) {
        Some(chain) => chain,
        None => Vec::new(),
    };
    assert(chain@ =~= held_rules(old(rules)@, syscall));
    chain.push(rule);
    rules.insert(syscall, chain);
    assert(rule_conditions(rule)->0 =~= seq![condition]);
    assert(chain@.drop_last() =~= held_rules(old(rules)@, syscall));
    assert(rules@.dom() =~= old(rules)@.dom().insert(syscall));
    Ok(())
}

/// Block `socket` for one socket domain.
///
/// `socket` is the number of that syscall. The rule matches when the first argument is
/// equal to the domain.
pub fn add_socket_domain_rule(
    rules: &mut BTreeMap<i64, Vec<seccompiler::SeccompRule>>,
    socket: i64,
    domain: i32,
) -> (r: Result<(), SeccompError>)
    ensures
        r is Ok,
        adds_rule(old(rules)@, final(rules)@, socket, equals(0, domain as u64)),
{
    add_rule(
        rules,
        socket,
        Condition { arg_index: 0, test: ArgTest::Equal, value: domain as u64 },
    )
}

/// Block a syscall when a specific bit pattern is set in an argument.
///
/// The rule checks `(arg & flag_bit) == flag_bit`, so it matches when the flag is present
/// regardless of other bits in the argument. Arguments are numbered from 0 to 5.
pub fn add_masked_arg_rule(
    rules: &mut BTreeMap<i64, Vec<seccompiler::SeccompRule>>,
    syscall: i64,
    arg_index: u8,
    flag_bit: u64,
) -> (r: Result<(), SeccompError>)
    ensures
        r is Ok <==> arg_index <= 5,
        r is Ok ==> adds_rule(
            old(rules)@,
            final(rules)@,
            syscall,
            has_flag(arg_index, flag_bit),
        ),
        r matches Err(err) ==> {
            &&& err is Backend
            &&& err.text() == invalid_index_text()
            &&& final(rules)@ == old(rules)@
        },
{
    add_rule(
        rules,
        syscall,
        Condition { arg_index, test: ArgTest::MaskedEqual(flag_bit), value: flag_bit },
    )
}

/// The socket domains that are blocked: the raw and kernel ones always, the network ones
/// unless a proxy routes their traffic.
pub open spec fn blocked_domains_spec(allow_inet: bool) -> Seq<i32> {
    let k = linux_constants();
    let always = seq![k.af_packet, k.af_bluetooth, k.af_vsock];
    if allow_inet {
        always
    } else {
        always + seq![k.af_inet, k.af_inet6, k.af_netlink]
    }
}

/// The rules of the filter.
pub open spec fn filter_rules(allow_inet: bool, sys: Syscalls) -> Map<i64, Seq<Seq<Condition>>> {
    let k = linux_constants();
    map![
        sys.socket => blocked_domains_spec(allow_inet).map_values(
            |domain: i32| seq![equals(0, domain as u64)],
        ),
        sys.memfd_create => seq![],
        sys.ptrace => seq![],
        sys.bpf => seq![],
        sys.process_vm_readv => seq![],
        sys.io_uring_setup => seq![],
        sys.mount => seq![],
        sys.execveat => seq![seq![has_flag(4, k.at_empty_path)]],
        sys.unshare => seq![seq![has_flag(0, k.clone_newuser)]],
        sys.seccomp => seq![seq![equals(0, SECCOMP_SET_MODE_FILTER)]],
    ]
}

// ---------------------------------------------------------------------------
// Size of the compiled program
// ---------------------------------------------------------------------------

/// `keys` lists the syscalls of a table, each once.
pub open spec fn enumerates(keys: Seq<i64>, table: Map<i64, Seq<Seq<Condition>>>) -> bool {
    &&& keys.no_duplicates()
    &&& keys.to_set() == table.dom()
}

/// The table has a syscall, and every rule has one condition.
pub open spec fn sizes_known(table: Map<i64, Seq<Seq<Condition>>>) -> bool {
    &&& table.dom().len() > 0
    &&& forall|nr: i64, i: int|
        #![trigger table[nr][i]]
        table.contains_key(nr) && 0 <= i < table[nr].len() ==> table[nr][i].len() == 1
}

/// Instructions for one rule of one condition: two jumps, the comparison, the action.
pub open spec fn rule_len(rule: Seq<Condition>) -> nat {
    match rule[0].test {
        ArgTest::Equal => 5,
        ArgTest::MaskedEqual(_) => 6,
    }
}

/// Instructions for a sequence of rules.
pub open spec fn rules_len(rules: Seq<Seq<Condition>>) -> nat
    decreases rules.len(),
{
    if rules.len() == 0 {
        0
    } else {
        rules_len(rules.drop_last()) + rule_len(rules.last())
    }
}

/// Instructions for one syscall: five where it is always blocked, else its rules between
/// the check of the syscall number and the default action.
pub open spec fn chain_len(rules: Seq<Seq<Condition>>) -> nat {
    if rules.len() == 0 {
        5
    } else {
        rules_len(rules) + 2
    }
}

/// Instructions for the syscalls of `keys`.
pub open spec fn chains_len(table: Map<i64, Seq<Seq<Condition>>>, keys: Seq<i64>) -> nat
    decreases keys.len(),
{
    if keys.len() == 0 {
        0
    } else {
        chains_len(table, keys.drop_last()) + chain_len(table[keys.last()])
    }
}

/// Instructions of the whole program: three check the architecture, one loads the syscall
/// number, one is the default action.
pub open spec fn program_len(table: Map<i64, Seq<Seq<Condition>>>, keys: Seq<i64>) -> nat {
    chains_len(table, keys) + 5
}

// ---------------------------------------------------------------------------
// Architectures
// ---------------------------------------------------------------------------

/// The lower case of an ASCII letter; any other character as it is.
pub open spec fn ascii_lower(c: char) -> char {
    if 'A' <= c && c <= 'Z' {
        (c as u32 + 32) as char
    } else {
        c
    }
}

/// The architecture of a name, if there is one.
pub open spec fn supported_arch(name: Seq<char>) -> Option<TargetArch> {
    let lower = name.map_values(|c: char| ascii_lower(c));
    if lower == "x86_64"@ {
        Some(TargetArch::X86_64)
    } else if lower == "aarch64"@ {
        Some(TargetArch::Aarch64)
    } else if lower == "riscv64"@ {
        Some(TargetArch::Riscv64)
    } else {
        None
    }
}

// ---------------------------------------------------------------------------
// Building the filter
// ---------------------------------------------------------------------------

/// What the filter of `build_filter` holds.
pub open spec fn sandbox_filter(allow_inet: bool, sys: Syscalls, arch: TargetArch) -> FilterParts {
    FilterParts {
        rules: filter_rules(allow_inet, sys),
        mismatch: Action::Allow,
        matched: Action::Errno(linux_constants().eperm),
        arch,
    }
}

/// The program is that of the filter, and gives each syscall the verdict of its rules.
pub open spec fn is_sandbox_program(
    program: Seq<seccompiler::sock_filter>,
    allow_inet: bool,
    sys: Syscalls,
    arch: TargetArch,
) -> bool {
    &&& compiled_program(sandbox_filter(allow_inet, sys, arch)) == Some(program)
    &&& enforces(program, sandbox_filter(allow_inet, sys, arch))
}

/// Instructions in the program of the filter.
pub open spec fn sandbox_program_len(allow_inet: bool) -> nat {
    if allow_inet {
        75
    } else {
        90
    }
}

/// The socket domains to block.
pub fn blocked_domains(allow_inet: bool) -> (r: Vec<i32>)
    ensures
        r@ == blocked_domains_spec(allow_inet),
{
    let k = kernel_constants();
    let mut domains = vec![k.af_packet, k.af_bluetooth, k.af_vsock];
    if !allow_inet {
        domains.push(k.af_inet);
        domains.push(k.af_inet6);
        domains.push(k.af_netlink);
    }
    assert(domains@ =~= blocked_domains_spec(allow_inet));
    domains
}

/// Assemble the rules of the filter for the given syscall numbers.
pub fn build_rules(allow_inet: bool, sys: Syscalls) -> (r: Result<
    BTreeMap<i64, Vec<seccompiler::SeccompRule>>,
    SeccompError,
>)
    requires
        sys.valid(),
    ensures
        r is Ok,
        is_expressible(r->Ok_0@),
        rule_table(r->Ok_0@) == filter_rules(allow_inet, sys),
{
    let k = kernel_constants();
    let mut rules: BTreeMap<i64, Vec<seccompiler::SeccompRule>> = BTreeMap::new();
    let ghost domain_rule = |domain: i32| seq![equals(0, domain as u64)];

    // --- Socket domain blocks ---
    let domains = blocked_domains(allow_inet);
    let mut i: usize = 0;
    assert(rule_table(rules@) =~= Map::empty());
    while i < domains.len()
        invariant
            i <= domains.len(),
            domain_rule == |domain: i32| seq![equals(0, domain as u64)],
            is_expressible(rules@),
            i == 0 ==> rule_table(rules@) == Map::<i64, Seq<Seq<Condition>>>::empty(),
            i > 0 ==> rule_table(rules@) == map![
                sys.socket => domains@.take(i as int).map_values(domain_rule),
            ],
        decreases domains.len() - i,
    {
        let ghost held = rules@;
        let ghost before = rule_table(held);
        match add_socket_domain_rule(&mut rules, sys.socket, domains[i]) {
            Ok(()) => {},
            Err(err) => return Err(err),
        }
        proof {
            lemma_added_rule(held, rules@, sys.socket, equals(0, domains@[i as int] as u64));
        }
        assert(domains@.take(i + 1).map_values(domain_rule) =~= rules_of(before, sys.socket).push(
            seq![equals(0, domains@[i as int] as u64)],
        ));
        assert(rule_table(rules@) =~= map![
            sys.socket => domains@.take(i + 1).map_values(domain_rule),
        ]);
        i += 1;
    }
    assert(domains@.take(domains@.len() as int) =~= domains@);

    // --- Unconditional syscall blocks ---
    // These syscalls are blocked entirely (no rules = unconditional EPERM).
    // Fileless binary execution via memfd bypasses Landlock filesystem restrictions.
    filter_syscall(&mut rules, sys.memfd_create);
    // Cross-process memory inspection and code injection.
    filter_syscall(&mut rules, sys.ptrace);
    // Kernel BPF program loading.
    filter_syscall(&mut rules, sys.bpf);
    // Cross-process memory read.
    filter_syscall(&mut rules, sys.process_vm_readv);
    // Async I/O subsystem with extensive CVE history.
    filter_syscall(&mut rules, sys.io_uring_setup);
    // Filesystem mount could subvert Landlock or overlay writable paths.
    filter_syscall(&mut rules, sys.mount);

    // --- Conditional syscall blocks ---
    // execveat with AT_EMPTY_PATH enables fileless execution from an anonymous fd.
    let ghost held = rules@;
    match add_masked_arg_rule(&mut rules, sys.execveat, 4, k.at_empty_path) {
        Ok(()) => {},
        Err(err) => return Err(err),
    }
    proof {
        lemma_added_rule(held, rules@, sys.execveat, has_flag(4, k.at_empty_path));
    }
    // unshare with CLONE_NEWUSER allows creating user namespaces to escalate privileges.
    let ghost held = rules@;
    match add_masked_arg_rule(&mut rules, sys.unshare, 0, k.clone_newuser) {
        Ok(()) => {},
        Err(err) => return Err(err),
    }
    proof {
        lemma_added_rule(held, rules@, sys.unshare, has_flag(0, k.clone_newuser));
    }
    // seccomp(SECCOMP_SET_MODE_FILTER) would let sandboxed code replace the active filter.
    let set_mode_filter = Condition {
        arg_index: 0,
        test: ArgTest::Equal,
        value: SECCOMP_SET_MODE_FILTER,
    };
    let ghost held = rules@;
    match add_rule(&mut rules, sys.seccomp, set_mode_filter) {
        Ok(()) => {},
        Err(err) => return Err(err),
    }

    proof {
        lemma_added_rule(held, rules@, sys.seccomp, set_mode_filter);
        lemma_numbers_distinct(sys);
    }
    assert(rule_table(rules@) =~~= filter_rules(allow_inet, sys));
    Ok(rules)
}

/// The numbers of valid syscalls differ from each other.
proof fn lemma_numbers_distinct(sys: Syscalls)
    requires
        sys.valid(),
    ensures
        forall|i: int, j: int|
            0 <= i < j < 10 ==> #[trigger] sys.numbers()[i] != #[trigger] sys.numbers()[j],
        sys.numbers()[0] == sys.socket,
        sys.numbers()[1] == sys.memfd_create,
        sys.numbers()[2] == sys.ptrace,
        sys.numbers()[3] == sys.bpf,
        sys.numbers()[4] == sys.process_vm_readv,
        sys.numbers()[5] == sys.io_uring_setup,
        sys.numbers()[6] == sys.mount,
        sys.numbers()[7] == sys.execveat,
        sys.numbers()[8] == sys.unshare,
        sys.numbers()[9] == sys.seccomp,
{
}

/// The rules of the filter compile, to a program of known size.
proof fn lemma_program_len(allow_inet: bool, sys: Syscalls)
    requires
        sys.valid(),
    ensures
        enumerates(sys.numbers(), filter_rules(allow_inet, sys)),
        sizes_known(filter_rules(allow_inet, sys)),
        program_len(filter_rules(allow_inet, sys), sys.numbers()) == sandbox_program_len(
            allow_inet,
        ),
{
    let table = filter_rules(allow_inet, sys);
    let keys = sys.numbers();
    lemma_numbers_distinct(sys);
    assert(keys.to_set() =~= table.dom()) by {
        assert forall|nr: i64| table.dom().contains(nr) implies keys.contains(nr) by {
            assert(exists|i: int| 0 <= i < 10 && #[trigger] keys[i] == nr);
        }
    }
    keys.unique_seq_to_set();
    assert(sizes_known(table));

    let sockets = table[sys.socket];
    assert(rules_len(sockets) == 5 * sockets.len()) by {
        reveal_with_fuel(rules_len, 7);
    }
    assert(rules_len(table[sys.execveat]) == 6) by {
        reveal_with_fuel(rules_len, 2);
    }
    assert(rules_len(table[sys.unshare]) == 6) by {
        reveal_with_fuel(rules_len, 2);
    }
    assert(rules_len(table[sys.seccomp]) == 5) by {
        reveal_with_fuel(rules_len, 2);
    }
    assert(chains_len(table, keys) == chain_len(table[keys[0]]) + 6 * 5 + 8 + 8 + 7) by {
        reveal_with_fuel(chains_len, 11);
    }
}

/// Build the filter for the given syscall numbers and compile it for `arch`.
pub fn build_filter_for(allow_inet: bool, sys: Syscalls, arch: &str) -> (r: Result<
    seccompiler::BpfProgram,
    SeccompError,
>)
    requires
        sys.valid(),
    ensures
        r is Ok <==> supported_arch(arch@) is Some,
        r matches Ok(program) ==> {
            &&& is_sandbox_program(program@, allow_inet, sys, supported_arch(arch@)->0)
            &&& program@.len() == sandbox_program_len(allow_inet)
        },
        r matches Err(err) ==> err is UnsupportedArchitecture,
{
    let rules = match build_rules(allow_inet, sys) {
        Ok(rules) => rules,
        Err(err) => return Err(err),
    };
    let target = match parse_arch(arch) {
        Ok(target) => target,
        Err(_) => return Err(SeccompError::UnsupportedArchitecture),
    };
    let k = kernel_constants();
    let filter = match new_filter(rules, Action::Allow, Action::Errno(k.eperm), target) {
        Ok(filter) => filter,
        Err(err) => return Err(SeccompError::Backend(err)),
    };
    proof {
        lemma_numbers_distinct(sys);
        lemma_program_len(allow_inet, sys);
    }
    match compile_filter(filter) {
        Ok(program) => Ok(program),
        Err(err) => Err(SeccompError::Backend(err)),
    }
}

/// Build the filter for the syscall numbers of this target and compile it for `arch`, the
/// name of the architecture that the process runs on.
pub fn build_filter(allow_inet: bool, arch: &str) -> (r: Result<
    seccompiler::BpfProgram,
    SeccompError,
>)
    ensures
        r is Ok <==> supported_arch(arch@) is Some,
        r matches Ok(program) ==> {
            &&& exists|sys: Syscalls| #[trigger] is_target_numbering(sys)
            &&& forall|sys: Syscalls| #[trigger]
                is_target_numbering(sys) ==> sys.valid() && is_sandbox_program(
                    program@,
                    allow_inet,
                    sys,
                    supported_arch(arch@)->0,
                )
            &&& program@.len() == sandbox_program_len(allow_inet)
        },
        r matches Err(err) ==> err is UnsupportedArchitecture,
{
    build_filter_for(allow_inet, host_syscalls(), arch)
}

/// Whether a network mode calls for a filter, and if so whether the filter leaves the
/// network domains open.
pub open spec fn filter_for_mode(mode: NetworkMode) -> Option<bool> {
    match mode {
        NetworkMode::Allow => None,
        NetworkMode::Proxy => Some(true),
        NetworkMode::Block => Some(false),
    }
}

/// The filter that a policy calls for on the architecture `arch`, if it calls for one.
pub fn policy_filter(policy: &SandboxPolicy, arch: &str) -> (r: Result<
    Option<seccompiler::BpfProgram>,
    SeccompError,
>)
    ensures
        r matches Ok(None) <==> filter_for_mode(policy.network.mode) is None,
        r is Ok <==> policy.network.mode is Allow || supported_arch(arch@) is Some,
        r matches Ok(Some(program)) ==> {
            let allow_inet = filter_for_mode(policy.network.mode)->0;
            &&& exists|sys: Syscalls| #[trigger] is_target_numbering(sys)
            &&& forall|sys: Syscalls| #[trigger]
                is_target_numbering(sys) ==> sys.valid() && is_sandbox_program(
                    program@,
                    allow_inet,
                    sys,
                    supported_arch(arch@)->0,
                )
            &&& program@.len() == sandbox_program_len(allow_inet)
        },
        r matches Err(err) ==> err is UnsupportedArchitecture,
{
    let allow_inet = match policy.network.mode {
        NetworkMode::Allow => return Ok(None),
        NetworkMode::Proxy => true,
        NetworkMode::Block => false,
    };
    match build_filter(allow_inet, arch) {
        Ok(program) => Ok(Some(program)),
        Err(err) => Err(err),
    }
}

// ---------------------------------------------------------------------------
// Laws
// ---------------------------------------------------------------------------

/// Under the compiled filter a syscall is answered with `EPERM` exactly when the rules block it,
/// and goes through otherwise.
pub proof fn law_blocked_means_eperm(
    program: Seq<seccompiler::sock_filter>,
    allow_inet: bool,
    sys: Syscalls,
    arch: TargetArch,
    syscall: i64,
    args: Seq<u64>,
)
    requires
        sys.valid(),
        is_sandbox_program(program, allow_inet, sys, arch),
        0 <= syscall <= u32::MAX,
        args.len() == 6,
    ensures
        blocked(filter_rules(allow_inet, sys), syscall, args) ==> verdict(
            program,
            arch,
            syscall,
            args,
        ) == Action::Errno(linux_constants().eperm),
        !blocked(filter_rules(allow_inet, sys), syscall, args) ==> verdict(
            program,
            arch,
            syscall,
            args,
        ) == Action::Allow,
{
}

/// Fileless execution, ptrace, BPF, cross-process memory reads, io_uring and mount are
/// blocked in either network mode, whatever their arguments.
pub proof fn law_unconditional_blocks(allow_inet: bool, sys: Syscalls, syscall: i64, args: Seq<u64>)
    requires
        sys.valid(),
        seq![
            sys.memfd_create,
            sys.ptrace,
            sys.bpf,
            sys.process_vm_readv,
            sys.io_uring_setup,
            sys.mount,
        ].contains(syscall),
    ensures
        blocked(filter_rules(allow_inet, sys), syscall, args),
{
    lemma_numbers_distinct(sys);
}

/// A syscall that the filter does not name is allowed.
pub proof fn law_default_allow(allow_inet: bool, sys: Syscalls, syscall: i64, args: Seq<u64>)
    requires
        !sys.numbers().contains(syscall),
    ensures
        !blocked(filter_rules(allow_inet, sys), syscall, args),
{
    let n = sys.numbers();
    assert(n[0] == sys.socket && n[1] == sys.memfd_create && n[2] == sys.ptrace && n[3] == sys.bpf
        && n[4] == sys.process_vm_readv && n[5] == sys.io_uring_setup && n[6] == sys.mount && n[7]
        == sys.execveat && n[8] == sys.unshare && n[9] == sys.seccomp);
}

/// `socket` is blocked exactly for the blocked domains.
pub proof fn law_socket_domains(allow_inet: bool, sys: Syscalls, args: Seq<u64>)
    requires
        sys.valid(),
        args.len() == 6,
    ensures
        blocked(filter_rules(allow_inet, sys), sys.socket, args) <==> exists|i: int|
            0 <= i < blocked_domains_spec(allow_inet).len() && args[0] as u32
                == #[trigger] blocked_domains_spec(allow_inet)[i],
{
    lemma_numbers_distinct(sys);
    let table = filter_rules(allow_inet, sys);
    let domains = blocked_domains_spec(allow_inet);
    assert forall|i: int| 0 <= i < domains.len() implies (rule_matches(
        #[trigger] table[sys.socket][i],
        args,
    ) <==> args[0] as u32 == domains[i]) by {
        let rule = table[sys.socket][i];
        assert(rule == seq![equals(0, domains[i] as u64)]);
        assert(condition_holds(rule[0], args) <==> args[0] as u32 == domains[i]);
    }
    if blocked(table, sys.socket, args) {
        let i = choose|i: int|
            0 <= i < table[sys.socket].len() && rule_matches(#[trigger] table[sys.socket][i], args);
        assert(args[0] as u32 == domains[i]);
    }
    if exists|i: int| 0 <= i < domains.len() && args[0] as u32 == #[trigger] domains[i] {
        let i = choose|i: int| 0 <= i < domains.len() && args[0] as u32 == #[trigger] domains[i];
        assert(rule_matches(table[sys.socket][i], args));
    }
}

/// `execveat` is blocked exactly when `AT_EMPTY_PATH` is set in its flags, `unshare`
/// exactly when `CLONE_NEWUSER` is, whatever the other bits, and `seccomp` exactly when it
/// installs a filter.
pub proof fn law_conditional_blocks(allow_inet: bool, sys: Syscalls, args: Seq<u64>)
    requires
        sys.valid(),
        args.len() == 6,
    ensures
        blocked(filter_rules(allow_inet, sys), sys.execveat, args) <==> args[4]
            & linux_constants().at_empty_path != 0,
        blocked(filter_rules(allow_inet, sys), sys.unshare, args) <==> args[0]
            & linux_constants().clone_newuser != 0,
        blocked(filter_rules(allow_inet, sys), sys.seccomp, args) <==> args[0] as u32
            == SECCOMP_SET_MODE_FILTER,
{
    lemma_numbers_distinct(sys);
    let table = filter_rules(allow_inet, sys);
    let k = linux_constants();
    let flags = args[4];
    assert((flags as u32) & 0x1000u32 == 0x1000u32 & 0x1000u32 <==> flags & 0x1000u64 != 0u64)
        by (bit_vector);
    let namespaces = args[0];
    assert((namespaces as u32) & 0x1000_0000u32 == 0x1000_0000u32 & 0x1000_0000u32 <==> namespaces
        & 0x1000_0000u64 != 0u64) by (bit_vector);
    lemma_one_rule(table, sys.execveat, has_flag(4, k.at_empty_path), args);
    lemma_one_rule(table, sys.unshare, has_flag(0, k.clone_newuser), args);
    lemma_one_rule(table, sys.seccomp, equals(0, SECCOMP_SET_MODE_FILTER), args);
}

/// A syscall with one rule of one condition is blocked exactly when that condition holds.
proof fn lemma_one_rule(
    table: Map<i64, Seq<Seq<Condition>>>,
    syscall: i64,
    condition: Condition,
    args: Seq<u64>,
)
    requires
        table.contains_key(syscall),
        table[syscall] == seq![seq![condition]],
    ensures
        blocked(table, syscall, args) <==> condition_holds(condition, args),
{
    let rule = table[syscall][0];
    assert(rule[0] == condition);
    if condition_holds(condition, args) {
        assert(rule_matches(rule, args));
    }
}

/// Without a proxy everything is blocked that is blocked with one, and beyond that only
/// sockets of the network domains.
pub proof fn law_block_mode_adds_network_domains(sys: Syscalls, syscall: i64, args: Seq<u64>)
    requires
        sys.valid(),
        args.len() == 6,
    ensures
        blocked(filter_rules(false, sys), syscall, args) <==> {
            ||| blocked(filter_rules(true, sys), syscall, args)
            ||| {
                &&& syscall == sys.socket
                &&& {
                    ||| args[0] as u32 == linux_constants().af_inet
                    ||| args[0] as u32 == linux_constants().af_inet6
                    ||| args[0] as u32 == linux_constants().af_netlink
                }
            }
        },
{
    lemma_numbers_distinct(sys);
    let with_proxy = blocked_domains_spec(true);
    let without = blocked_domains_spec(false);
    if syscall == sys.socket {
        law_socket_domains(true, sys, args);
        law_socket_domains(false, sys, args);
        assert(forall|i: int| 0 <= i < 3 ==> #[trigger] with_proxy[i] == without[i]);
        assert(without[3] == linux_constants().af_inet);
        assert(without[4] == linux_constants().af_inet6);
        assert(without[5] == linux_constants().af_netlink);
        if exists|i: int| 0 <= i < with_proxy.len() && args[0] as u32 == #[trigger] with_proxy[i] {
            let i = choose|i: int|
                0 <= i < with_proxy.len() && args[0] as u32 == #[trigger] with_proxy[i];
            assert(args[0] as u32 == without[i]);
        }
        if exists|i: int| 0 <= i < without.len() && args[0] as u32 == #[trigger] without[i] {
            let i = choose|i: int| 0 <= i < without.len() && args[0] as u32 == #[trigger] without[i];
            if i < 3 {
                assert(args[0] as u32 == with_proxy[i]);
            }
        }
    } else {
        assert(filter_rules(true, sys).contains_key(syscall) <==> filter_rules(
            false,
            sys,
        ).contains_key(syscall));
        assert(filter_rules(true, sys)[syscall] == filter_rules(false, sys)[syscall]
            || !filter_rules(true, sys).contains_key(syscall));
    }
}

/// A sandbox in a cluster is always filtered, and its filter leaves the network domains to the
/// proxy.
pub proof fn law_cluster_policy_is_filtered(policy: SandboxPolicy)
    requires
        policy.network == crate::policy::cluster_network(),
    ensures
        filter_for_mode(policy.network.mode) == Some(true),
{
}

/// Of the two filters that are compiled for one architecture, the one without a proxy answers
/// `EPERM` wherever the other does, and beyond that only to sockets of the network domains.
pub proof fn law_filters_differ_in_network_sockets(
    proxy: Seq<seccompiler::sock_filter>,
    block: Seq<seccompiler::sock_filter>,
    sys: Syscalls,
    arch: TargetArch,
    syscall: i64,
    args: Seq<u64>,
)
    requires
        sys.valid(),
        is_sandbox_program(proxy, true, sys, arch),
        is_sandbox_program(block, false, sys, arch),
        0 <= syscall <= u32::MAX,
        args.len() == 6,
    ensures
        verdict(block, arch, syscall, args) != Action::Allow <==> {
            ||| verdict(proxy, arch, syscall, args) != Action::Allow
            ||| {
                &&& syscall == sys.socket
                &&& {
                    ||| args[0] as u32 == linux_constants().af_inet
                    ||| args[0] as u32 == linux_constants().af_inet6
                    ||| args[0] as u32 == linux_constants().af_netlink
                }
            }
        },
{
    law_blocked_means_eperm(proxy, true, sys, arch, syscall, args);
    law_blocked_means_eperm(block, false, sys, arch, syscall, args);
    law_block_mode_adds_network_domains(sys, syscall, args);
}

/// What the compiled filter does, over all syscalls and arguments. `EPERM` is the answer to
/// fileless execution, ptrace, BPF, cross-process memory reads, io_uring and mount; to a socket
/// of the packet, Bluetooth or VM domain, and without a proxy to one of the IPv4, IPv6 or
/// netlink domain; to `execveat` with an empty path, to `unshare` with a new user namespace,
/// and to the installation of a filter. Everything else goes through.
pub proof fn law_filter_verdicts(
    program: Seq<seccompiler::sock_filter>,
    allow_inet: bool,
    sys: Syscalls,
    arch: TargetArch,
    syscall: i64,
    args: Seq<u64>,
)
    requires
        sys.valid(),
        is_sandbox_program(program, allow_inet, sys, arch),
        0 <= syscall <= u32::MAX,
        args.len() == 6,
    ensures
        ({
            let domain = args[0] as u32;
            let is_blocked = {
                ||| syscall == sys.memfd_create
                ||| syscall == sys.ptrace
                ||| syscall == sys.bpf
                ||| syscall == sys.process_vm_readv
                ||| syscall == sys.io_uring_setup
                ||| syscall == sys.mount
                ||| syscall == sys.socket && (domain == 17 || domain == 31 || domain == 40)
                ||| syscall == sys.socket && !allow_inet && (domain == 2 || domain == 10 || domain
                    == 16)
                ||| syscall == sys.execveat && args[4] & 0x1000 != 0
                ||| syscall == sys.unshare && args[0] & 0x1000_0000 != 0
                ||| syscall == sys.seccomp && args[0] as u32 == 1
            };
            &&& is_blocked ==> verdict(program, arch, syscall, args) == Action::Errno(1)
            &&& !is_blocked ==> verdict(program, arch, syscall, args) == Action::Allow
        }),
{
    lemma_numbers_distinct(sys);
    law_blocked_means_eperm(program, allow_inet, sys, arch, syscall, args);
    law_conditional_blocks(allow_inet, sys, args);
    law_socket_domains(allow_inet, sys, args);
    let domains = blocked_domains_spec(allow_inet);
    assert(domains[0] == 17 && domains[1] == 31 && domains[2] == 40);
    if !allow_inet {
        assert(domains[3] == 2 && domains[4] == 10 && domains[5] == 16);
    }
    if sys.numbers().contains(syscall) {
        let i = choose|i: int| 0 <= i < 10 && #[trigger] sys.numbers()[i] == syscall;
        if 1 <= i <= 6 {
            lemma_unconditional_block(allow_inet, sys, i, args);
        }
    } else {
        let n = sys.numbers();
        assert(n.contains(n[0]) && n.contains(n[1]) && n.contains(n[2]) && n.contains(n[3])
            && n.contains(n[4]) && n.contains(n[5]) && n.contains(n[6]) && n.contains(n[7])
            && n.contains(n[8]) && n.contains(n[9]));
        law_default_allow(allow_inet, sys, syscall, args);
    }
}

proof fn lemma_unconditional_block(
    allow_inet: bool,
    sys: Syscalls,
    i: int,
    args: Seq<u64>,
)
    requires
        sys.valid(),
        1 <= i <= 6,
    ensures
        blocked(filter_rules(allow_inet, sys), sys.numbers()[i], args),
{
    lemma_numbers_distinct(sys);
    let list = seq![
        sys.memfd_create,
        sys.ptrace,
        sys.bpf,
        sys.process_vm_readv,
        sys.io_uring_setup,
        sys.mount,
    ];
    assert(list[i - 1] == sys.numbers()[i]);
    law_unconditional_blocks(allow_inet, sys, sys.numbers()[i], args);
}

/// The blocked domains: the packet, Bluetooth and VM domains always, and the IPv4, IPv6 and
/// netlink domains exactly where no proxy routes their traffic; no other domain ever.
pub proof fn law_blocked_domains(allow_inet: bool, domain: i32)
    ensures
        blocked_domains_spec(allow_inet).contains(domain) <==> {
            ||| domain == 17 || domain == 31 || domain == 40
            ||| !allow_inet && (domain == 2 || domain == 10 || domain == 16)
        },
        blocked_domains_spec(allow_inet).no_duplicates(),
        blocked_domains_spec(true).is_prefix_of(blocked_domains_spec(false)),
{
    let domains = blocked_domains_spec(allow_inet);
    assert(domains[0] == 17 && domains[1] == 31 && domains[2] == 40);
    if !allow_inet {
        assert(domains[3] == 2 && domains[4] == 10 && domains[5] == 16);
    }
}

/// The table of the filter: ten syscalls, six of them without rules, one rule for each blocked
/// domain in order, and one rule of one condition for each of the other three.
pub proof fn law_filter_table(allow_inet: bool, sys: Syscalls)
    requires
        sys.valid(),
    ensures
        ({
            let table = filter_rules(allow_inet, sys);
            let domains: Seq<i32> = if allow_inet {
                seq![17, 31, 40]
            } else {
                seq![17, 31, 40, 2, 10, 16]
            };
            &&& forall|nr: i64| #[trigger]
                table.contains_key(nr) <==> {
                    ||| nr == sys.socket || nr == sys.memfd_create || nr == sys.ptrace
                    ||| nr == sys.bpf || nr == sys.process_vm_readv || nr == sys.io_uring_setup
                    ||| nr == sys.mount || nr == sys.execveat || nr == sys.unshare
                    ||| nr == sys.seccomp
                }
            &&& table[sys.memfd_create].len() == 0
            &&& table[sys.ptrace].len() == 0
            &&& table[sys.bpf].len() == 0
            &&& table[sys.process_vm_readv].len() == 0
            &&& table[sys.io_uring_setup].len() == 0
            &&& table[sys.mount].len() == 0
            &&& table[sys.socket].len() == domains.len()
            &&& forall|i: int|
                0 <= i < domains.len() ==> #[trigger] table[sys.socket][i] == seq![
                    Condition { arg_index: 0, test: ArgTest::Equal, value: domains[i] as u64 },
                ]
            &&& table[sys.execveat] == seq![
                seq![
                    Condition {
                        arg_index: 4,
                        test: ArgTest::MaskedEqual(0x1000),
                        value: 0x1000,
                    },
                ],
            ]
            &&& table[sys.unshare] == seq![
                seq![
                    Condition {
                        arg_index: 0,
                        test: ArgTest::MaskedEqual(0x1000_0000),
                        value: 0x1000_0000,
                    },
                ],
            ]
            &&& table[sys.seccomp] == seq![
                seq![Condition { arg_index: 0, test: ArgTest::Equal, value: 1 }],
            ]
        }),
{
    lemma_numbers_distinct(sys);
    let table = filter_rules(allow_inet, sys);
    let domains: Seq<i32> = if allow_inet {
        seq![17, 31, 40]
    } else {
        seq![17, 31, 40, 2, 10, 16]
    };
    assert(blocked_domains_spec(allow_inet) =~= domains);
}

/// What is held stays as it is, rule for rule, and one rule comes last of those of the syscall;
/// its one condition is met exactly as the one that was asked for.
pub proof fn law_added_rule(
    before: Map<i64, Vec<seccompiler::SeccompRule>>,
    after: Map<i64, Vec<seccompiler::SeccompRule>>,
    syscall: i64,
    condition: Condition,
)
    requires
        adds_rule(before, after, syscall, condition),
    ensures
        forall|nr: i64| nr != syscall ==> (#[trigger] after.contains_key(nr) <==> before.contains_key(nr)),
        forall|nr: i64|
            nr != syscall && before.contains_key(nr) ==> #[trigger] after[nr] == before[nr],
        after.contains_key(syscall),
        ({
            let held = if before.contains_key(syscall) {
                before[syscall]@
            } else {
                Seq::empty()
            };
            &&& after[syscall]@ == held.push(after[syscall]@.last())
            &&& rule_conditions(after[syscall]@.last()) is Some
            &&& rule_conditions(after[syscall]@.last())->0.len() == 1
            &&& rule_conditions(after[syscall]@.last())->0[0] == condition
        }),
{
    let held = held_rules(before, syscall);
    assert(after[syscall]@ =~= held.push(after[syscall]@.last()));
    assert(after.dom().contains(syscall));
    assert forall|nr: i64| nr != syscall implies (#[trigger] after.contains_key(nr)
        <==> before.contains_key(nr)) by {
        assert(after.dom().contains(nr) <==> before.dom().insert(syscall).contains(nr));
    }
}

/// The condition of a value asks whether the low half of the argument is that value's; that of a
/// flag whether all bits of the flag's low half are set in the argument, whatever the others.
pub proof fn law_conditions(arg_index: u8, value: u64, args: Seq<u64>)
    requires
        arg_index < 6,
        args.len() == 6,
    ensures
        equals(arg_index, value).arg_index == arg_index,
        has_flag(arg_index, value).arg_index == arg_index,
        condition_holds(equals(arg_index, value), args) <==> args[arg_index as int] as u32
            == value as u32,
        condition_holds(has_flag(arg_index, value), args) <==> (args[arg_index as int] as u32) & (
        value as u32) == value as u32,
{
    let low = value as u32;
    assert(low & low == low) by (bit_vector);
}

/// Every mode but the open one is filtered, and only a proxy leaves the network domains open.
pub proof fn law_modes(mode: NetworkMode)
    ensures
        filter_for_mode(mode) is None <==> mode is Allow,
        mode is Proxy ==> filter_for_mode(mode)->0,
        mode is Block ==> !filter_for_mode(mode)->0,
{
}

/// A text is another one but for letters that are upper-case in it and lower-case there.
pub open spec fn is_in_case(name: Seq<char>, lower: Seq<char>) -> bool {
    &&& name.len() == lower.len()
    &&& forall|i: int|
        0 <= i < name.len() ==> {
            ||| #[trigger] name[i] == lower[i]
            ||| 'A' <= name[i] && name[i] <= 'Z' && lower[i] as int == name[i] as int + 32
        }
}

/// Three architectures are known, each by its name and by that name with letters in the other
/// case; no other name is known.
pub proof fn law_arch_names(name: Seq<char>)
    ensures
        supported_arch(name) == Some(TargetArch::X86_64) <==> is_in_case(name, "x86_64"@),
        supported_arch(name) == Some(TargetArch::Aarch64) <==> is_in_case(name, "aarch64"@),
        supported_arch(name) == Some(TargetArch::Riscv64) <==> is_in_case(name, "riscv64"@),
{
    reveal_strlit("x86_64");
    reveal_strlit("aarch64");
    reveal_strlit("riscv64");
    assert("x86_64"@.len() == 6 && "aarch64"@.len() == 7 && "riscv64"@.len() == 7);
    assert("aarch64"@[0] == 'a' && "riscv64"@[0] == 'r');
    lemma_in_case(name, "x86_64"@);
    lemma_in_case(name, "aarch64"@);
    lemma_in_case(name, "riscv64"@);
}

proof fn lemma_in_case(name: Seq<char>, lower: Seq<char>)
    requires
        forall|i: int|
            0 <= i < lower.len() ==> !('A' <= #[trigger] lower[i] && lower[i] <= 'Z'),
    ensures
        name.map_values(|c: char| ascii_lower(c)) == lower <==> is_in_case(name, lower),
{
    let lowered = name.map_values(|c: char| ascii_lower(c));
    if is_in_case(name, lower) {
        assert forall|i: int| 0 <= i < name.len() implies lowered[i] == lower[i] by {
            assert(name[i] == lower[i] || 'A' <= name[i]);
        }
        assert(lowered =~= lower);
    }
    if lowered == lower {
        assert forall|i: int| 0 <= i < name.len() implies {
            ||| #[trigger] name[i] == lower[i]
            ||| 'A' <= name[i] && name[i] <= 'Z' && lower[i] as int == name[i] as int + 32
        } by {
            assert(lowered[i] == ascii_lower(name[i]));
        }
    }
}

/// The words for the two kinds of error.
pub proof fn law_error_words(err: SeccompError)
    ensures
        err is UnsupportedArchitecture ==> err.text() == "Unsupported architecture for seccomp"@,
        err is Backend ==> err.text() == backend_error_text(err->Backend_0),
{
}

} // verus!
