use openshell::policy::{
    FilesystemPolicy, LandlockPolicy, NetworkMode, NetworkPolicy, ProcessPolicy, SandboxPolicy,
};
use openshell::sandbox::seccomp::{
    add_masked_arg_rule, add_socket_domain_rule, blocked_domains, build_filter, build_filter_for,
    build_rules, policy_filter, SeccompError, Syscalls, SECCOMP_SET_MODE_FILTER,
};
use seccompiler::{
    SeccompAction, SeccompCmpArgLen, SeccompCmpOp, SeccompCondition, SeccompFilter, SeccompRule,
};
use std::collections::BTreeMap;

/// The architecture that the filters are compiled for.
const ARCH: &str = "x86_64";

#[test]
fn build_filter_proxy_mode_compiles() {
    let filter = build_filter(true, ARCH);
    assert!(filter.is_ok(), "build_filter(true) should succeed");
}

#[test]
fn build_filter_block_mode_compiles() {
    let filter = build_filter(false, ARCH);
    assert!(filter.is_ok(), "build_filter(false) should succeed");
}

#[test]
fn add_masked_arg_rule_creates_entry() {
    let mut rules: BTreeMap<i64, Vec<SeccompRule>> = BTreeMap::new();
    let result = add_masked_arg_rule(&mut rules, libc::SYS_execveat, 4, 0x1000);
    assert!(result.is_ok());
    assert!(
        rules.contains_key(&libc::SYS_execveat),
        "should have an entry for SYS_execveat"
    );
    assert_eq!(
        rules[&libc::SYS_execveat].len(),
        1,
        "should have exactly one rule"
    );
}

/// The syscall numbers of the running machine.
fn host() -> Syscalls {
    Syscalls {
        socket: libc::SYS_socket,
        memfd_create: libc::SYS_memfd_create,
        ptrace: libc::SYS_ptrace,
        bpf: libc::SYS_bpf,
        process_vm_readv: libc::SYS_process_vm_readv,
        io_uring_setup: libc::SYS_io_uring_setup,
        mount: libc::SYS_mount,
        execveat: libc::SYS_execveat,
        unshare: libc::SYS_unshare,
        seccomp: libc::SYS_seccomp,
    }
}

#[test]
fn unconditional_blocks_present_in_filter() {
    let rules = build_rules(true, host()).unwrap();

    // Unconditional blocks have an empty Vec (no conditions = always match)
    for syscall in [
        libc::SYS_memfd_create,
        libc::SYS_ptrace,
        libc::SYS_bpf,
        libc::SYS_process_vm_readv,
        libc::SYS_io_uring_setup,
        libc::SYS_mount,
    ] {
        assert!(
            rules.contains_key(&syscall),
            "syscall {syscall} should be in the rules map"
        );
        assert!(
            rules[&syscall].is_empty(),
            "syscall {syscall} should have empty rules (unconditional block)"
        );
    }
}

#[test]
fn conditional_blocks_have_rules() {
    // Build a real filter and verify the conditional syscalls have rule entries
    // (non-empty Vec means conditional match)
    let mut rules: BTreeMap<i64, Vec<SeccompRule>> = BTreeMap::new();

    add_masked_arg_rule(
        &mut rules,
        libc::SYS_execveat,
        4,
        libc::AT_EMPTY_PATH as u64,
    )
    .unwrap();
    add_masked_arg_rule(&mut rules, libc::SYS_unshare, 0, libc::CLONE_NEWUSER as u64).unwrap();

    let condition = SeccompCondition::new(
        0,
        SeccompCmpArgLen::Dword,
        SeccompCmpOp::Eq,
        SECCOMP_SET_MODE_FILTER,
    )
    .unwrap();
    let rule = SeccompRule::new(vec![condition]).unwrap();
    rules.entry(libc::SYS_seccomp).or_default().push(rule);

    let built = build_rules(true, host()).unwrap();
    for syscall in [libc::SYS_execveat, libc::SYS_unshare, libc::SYS_seccomp] {
        assert!(
            rules.contains_key(&syscall),
            "syscall {syscall} should be in the rules map"
        );
        assert!(
            !rules[&syscall].is_empty(),
            "syscall {syscall} should have conditional rules"
        );
        assert_eq!(built[&syscall], rules[&syscall]);
    }
}

/// Syscalls that `build_filter` blocks unconditionally (empty rule vec)
/// regardless of the network mode.
const UNCONDITIONAL_BLOCKS: [i64; 6] = [
    libc::SYS_memfd_create,
    libc::SYS_ptrace,
    libc::SYS_bpf,
    libc::SYS_process_vm_readv,
    libc::SYS_io_uring_setup,
    libc::SYS_mount,
];

/// The rules for the blocked socket domains of a network mode.
fn socket_rules_for(allow_inet: bool) -> BTreeMap<i64, Vec<SeccompRule>> {
    let mut blocked_domains = vec![libc::AF_PACKET, libc::AF_BLUETOOTH, libc::AF_VSOCK];
    if !allow_inet {
        blocked_domains.push(libc::AF_INET);
        blocked_domains.push(libc::AF_INET6);
        blocked_domains.push(libc::AF_NETLINK);
    }

    let mut rules: BTreeMap<i64, Vec<SeccompRule>> = BTreeMap::new();
    for domain in blocked_domains {
        add_socket_domain_rule(&mut rules, libc::SYS_socket, domain).unwrap();
    }
    rules
}

/// Independently rebuild the rule that `add_socket_domain_rule` is expected
/// to construct for a given socket domain.
fn expected_socket_domain_rule(domain: i32) -> SeccompRule {
    let condition =
        SeccompCondition::new(0, SeccompCmpArgLen::Dword, SeccompCmpOp::Eq, domain as u64).unwrap();
    SeccompRule::new(vec![condition]).unwrap()
}

#[test]
fn add_socket_domain_rule_appends_expected_eq_rule() {
    let mut rules: BTreeMap<i64, Vec<SeccompRule>> = BTreeMap::new();
    add_socket_domain_rule(&mut rules, libc::SYS_socket, libc::AF_PACKET).unwrap();

    // The rule is attached to SYS_socket, not to the domain value.
    assert!(
        rules.contains_key(&libc::SYS_socket),
        "socket-domain rules must hang off SYS_socket"
    );
    assert_eq!(
        rules[&libc::SYS_socket].len(),
        1,
        "one domain produces exactly one socket rule"
    );
    // Structural equality against an independently built Eq(arg0 == domain) rule.
    assert_eq!(
        rules[&libc::SYS_socket][0],
        expected_socket_domain_rule(libc::AF_PACKET),
        "rule must be an Eq comparison on arg0 against the domain"
    );
}

#[test]
fn socket_domain_rules_accumulate_on_sys_socket() {
    let mut rules: BTreeMap<i64, Vec<SeccompRule>> = BTreeMap::new();
    add_socket_domain_rule(&mut rules, libc::SYS_socket, libc::AF_PACKET).unwrap();
    add_socket_domain_rule(&mut rules, libc::SYS_socket, libc::AF_VSOCK).unwrap();

    // Multiple domains accumulate as separate rules under the same syscall.
    assert_eq!(rules.len(), 1, "only SYS_socket should be keyed");
    assert_eq!(rules[&libc::SYS_socket].len(), 2);
    assert_eq!(
        rules[&libc::SYS_socket][0],
        expected_socket_domain_rule(libc::AF_PACKET)
    );
    assert_eq!(
        rules[&libc::SYS_socket][1],
        expected_socket_domain_rule(libc::AF_VSOCK)
    );
}

#[test]
fn proxy_and_block_share_common_socket_domain_blocks() {
    // AF_PACKET / AF_BLUETOOTH / AF_VSOCK are always blocked, in either mode.
    let common = [libc::AF_PACKET, libc::AF_BLUETOOTH, libc::AF_VSOCK];

    for allow_inet in [true, false] {
        let rules = socket_rules_for(allow_inet);
        let socket_rules = &rules[&libc::SYS_socket];
        for domain in common {
            assert!(
                socket_rules.contains(&expected_socket_domain_rule(domain)),
                "domain {domain} must be blocked when allow_inet={allow_inet}"
            );
        }
        let built = build_rules(allow_inet, host()).unwrap();
        assert_eq!(&built[&libc::SYS_socket], socket_rules);
    }
}

#[test]
fn block_mode_blocks_inet_domains_that_proxy_mode_allows() {
    let proxy = socket_rules_for(true);
    let block = socket_rules_for(false);

    // Proxy mode keeps the three baseline domain blocks only.
    assert_eq!(
        proxy[&libc::SYS_socket].len(),
        3,
        "proxy mode blocks exactly the three baseline socket domains"
    );
    // Block mode adds AF_INET / AF_INET6 / AF_NETLINK on top.
    assert_eq!(
        block[&libc::SYS_socket].len(),
        6,
        "block mode additionally blocks the three inet/netlink domains"
    );

    for domain in [libc::AF_INET, libc::AF_INET6, libc::AF_NETLINK] {
        let expected = expected_socket_domain_rule(domain);
        assert!(
            block[&libc::SYS_socket].contains(&expected),
            "block mode must block domain {domain}"
        );
        assert!(
            !proxy[&libc::SYS_socket].contains(&expected),
            "proxy mode must NOT block domain {domain} (proxy routes inet traffic)"
        );
    }
}

#[test]
fn add_masked_arg_rule_builds_expected_masked_eq_rule() {
    let mut rules: BTreeMap<i64, Vec<SeccompRule>> = BTreeMap::new();
    let flag = libc::AT_EMPTY_PATH as u64;
    add_masked_arg_rule(&mut rules, libc::SYS_execveat, 4, flag).unwrap();

    // Independently construct the MaskedEq(flag) == flag rule on arg index 4.
    let expected_condition = SeccompCondition::new(
        4,
        SeccompCmpArgLen::Dword,
        SeccompCmpOp::MaskedEq(flag),
        flag,
    )
    .unwrap();
    let expected_rule = SeccompRule::new(vec![expected_condition]).unwrap();

    assert_eq!(
        rules[&libc::SYS_execveat][0],
        expected_rule,
        "masked-arg rule must be MaskedEq(flag) compared against flag on the given arg"
    );
}

#[test]
fn add_masked_arg_rule_accumulates_multiple_rules_on_one_syscall() {
    // Two masked rules on the same syscall should both be retained.
    let mut rules: BTreeMap<i64, Vec<SeccompRule>> = BTreeMap::new();
    add_masked_arg_rule(&mut rules, libc::SYS_unshare, 0, 0x1).unwrap();
    add_masked_arg_rule(&mut rules, libc::SYS_unshare, 0, 0x2).unwrap();

    assert_eq!(
        rules[&libc::SYS_unshare].len(),
        2,
        "each call appends a distinct rule"
    );
    assert_ne!(
        rules[&libc::SYS_unshare][0],
        rules[&libc::SYS_unshare][1],
        "rules with different flag bits must differ structurally"
    );
}

#[test]
fn unconditional_blocks_identical_across_modes() {
    // The unconditional syscall blocks are network-mode independent: they must
    // be present, and empty (always-match), in both proxy and block mode.
    for allow_inet in [true, false] {
        let rules = build_rules(allow_inet, host()).unwrap();
        for syscall in UNCONDITIONAL_BLOCKS {
            assert!(
                rules.contains_key(&syscall),
                "syscall {syscall} must be blocked when allow_inet={allow_inet}"
            );
            assert!(
                rules[&syscall].is_empty(),
                "syscall {syscall} must be an unconditional (empty-rule) block"
            );
        }
    }
}

#[test]
fn build_filter_produces_nonempty_program_in_both_modes() {
    // build_filter returns a compiled BpfProgram (Vec<sock_filter>). A valid,
    // installable filter must be non-empty in either mode.
    let proxy = build_filter(true, ARCH).expect("proxy-mode filter must compile");
    let block = build_filter(false, ARCH).expect("block-mode filter must compile");

    assert!(
        !proxy.is_empty(),
        "proxy-mode program must contain BPF instructions"
    );
    assert!(
        !block.is_empty(),
        "block-mode program must contain BPF instructions"
    );

    // Block mode adds three extra socket-domain rules, so its compiled
    // program must contain strictly more instructions than proxy mode.
    assert!(
        block.len() > proxy.len(),
        "block mode blocks more socket domains and must compile to a larger \
         program (block={}, proxy={})",
        block.len(),
        proxy.len()
    );
    assert_eq!(proxy.len(), 75);
    assert_eq!(block.len(), 90);
}

#[test]
fn architectures_are_named_in_any_case() {
    for arch in ["x86_64", "X86_64", "aarch64", "AArch64", "riscv64"] {
        assert_eq!(build_filter(true, arch).map(|program| program.len()).ok(), Some(75));
    }
    for arch in ["", "x86", "x86_64 ", "arm", "K", "aarch6\u{34}x"] {
        assert!(matches!(
            build_filter(true, arch),
            Err(SeccompError::UnsupportedArchitecture)
        ));
    }
}

#[test]
fn filter_is_the_one_that_the_rules_compile_to() {
    for allow_inet in [true, false] {
        for (arch, target) in [
            ("x86_64", seccompiler::TargetArch::x86_64),
            ("aarch64", seccompiler::TargetArch::aarch64),
            ("riscv64", seccompiler::TargetArch::riscv64),
        ] {
            let filter = SeccompFilter::new(
                build_rules(allow_inet, host()).unwrap(),
                SeccompAction::Allow,
                SeccompAction::Errno(libc::EPERM as u32),
                target,
            )
            .unwrap();
            let expected: seccompiler::BpfProgram = filter.try_into().unwrap();
            assert_eq!(build_filter_for(allow_inet, host(), arch).unwrap(), expected);
            assert_eq!(build_filter(allow_inet, arch).unwrap(), expected);
        }
    }
}

#[test]
fn blocked_domains_by_mode() {
    assert_eq!(
        blocked_domains(true),
        vec![libc::AF_PACKET, libc::AF_BLUETOOTH, libc::AF_VSOCK]
    );
    assert_eq!(
        blocked_domains(false),
        vec![
            libc::AF_PACKET,
            libc::AF_BLUETOOTH,
            libc::AF_VSOCK,
            libc::AF_INET,
            libc::AF_INET6,
            libc::AF_NETLINK,
        ]
    );
}

#[test]
fn argument_index_above_five_is_refused() {
    let mut rules: BTreeMap<i64, Vec<SeccompRule>> = BTreeMap::new();
    assert!(add_masked_arg_rule(&mut rules, libc::SYS_unshare, 5, 0x1).is_ok());
    assert!(matches!(
        add_masked_arg_rule(&mut rules, libc::SYS_unshare, 6, 0x1),
        Err(SeccompError::Backend(_))
    ));
    assert_eq!(rules[&libc::SYS_unshare].len(), 1);
}

fn policy_with(mode: NetworkMode) -> SandboxPolicy {
    SandboxPolicy {
        version: 1,
        filesystem: FilesystemPolicy::default(),
        network: NetworkPolicy { mode, proxy: None },
        landlock: LandlockPolicy::default(),
        process: ProcessPolicy::default(),
    }
}

#[test]
fn network_mode_chooses_the_filter() {
    assert!(policy_filter(&policy_with(NetworkMode::Allow), "no such arch").unwrap().is_none());
    let proxy = policy_filter(&policy_with(NetworkMode::Proxy), ARCH).unwrap();
    assert_eq!(proxy, Some(build_filter(true, ARCH).unwrap()));
    let block = policy_filter(&policy_with(NetworkMode::Block), ARCH).unwrap();
    assert_eq!(block, Some(build_filter(false, ARCH).unwrap()));
    assert!(policy_filter(&policy_with(NetworkMode::Block), "no such arch").is_err());
}

/// Runs a program on a syscall, as the kernel does.
fn run_program(program: &[seccompiler::sock_filter], arch: u32, nr: i64, args: [u64; 6]) -> u32 {
    let mut data = Vec::new();
    data.extend_from_slice(&(nr as u32).to_le_bytes());
    data.extend_from_slice(&arch.to_le_bytes());
    data.extend_from_slice(&0u64.to_le_bytes());
    for arg in args {
        data.extend_from_slice(&arg.to_le_bytes());
    }
    let mut acc: u32 = 0;
    let mut pc = 0;
    loop {
        let insn = &program[pc];
        pc += 1;
        match insn.code {
            // BPF_LD | BPF_W | BPF_ABS
            0x20 => {
                let at = insn.k as usize;
                acc = u32::from_le_bytes([data[at], data[at + 1], data[at + 2], data[at + 3]]);
            }
            // BPF_ALU | BPF_AND | BPF_K
            0x54 => acc &= insn.k,
            // BPF_JMP | BPF_JA
            0x05 => pc += insn.k as usize,
            // BPF_JMP | BPF_JEQ | BPF_K
            0x15 => pc += usize::from(if acc == insn.k { insn.jt } else { insn.jf }),
            // BPF_RET | BPF_K
            0x06 => return insn.k,
            other => panic!("unexpected instruction {other:#x}"),
        }
    }
}

const AUDIT_ARCH_X86_64: u32 = 0xc000_003e;
const ALLOW: u32 = 0x7fff_0000;
const EPERM: u32 = 0x0005_0001;

/// The verdicts of the filters of the two modes, with a proxy and without.
fn verdicts(nr: i64, args: [u64; 6]) -> (u32, u32) {
    let proxy = build_filter(true, ARCH).unwrap();
    let block = build_filter(false, ARCH).unwrap();
    (
        run_program(&proxy, AUDIT_ARCH_X86_64, nr, args),
        run_program(&block, AUDIT_ARCH_X86_64, nr, args),
    )
}

#[test]
fn unconditional_blocks_answer_eperm() {
    for syscall in UNCONDITIONAL_BLOCKS {
        assert_eq!(verdicts(syscall, [0; 6]), (EPERM, EPERM));
        assert_eq!(verdicts(syscall, [u64::MAX; 6]), (EPERM, EPERM));
    }
}

#[test]
fn other_syscalls_go_through() {
    for syscall in [
        libc::SYS_read,
        libc::SYS_execve,
        libc::SYS_connect,
        libc::SYS_process_vm_writev,
        0xffff_ffff,
    ] {
        assert_eq!(verdicts(syscall, [1; 6]), (ALLOW, ALLOW));
    }
}

#[test]
fn socket_domains_decide_about_sockets() {
    for domain in [libc::AF_PACKET, libc::AF_BLUETOOTH, libc::AF_VSOCK] {
        assert_eq!(verdicts(libc::SYS_socket, [domain as u64, 1, 0, 0, 0, 0]), (EPERM, EPERM));
    }
    for domain in [libc::AF_INET, libc::AF_INET6, libc::AF_NETLINK] {
        assert_eq!(verdicts(libc::SYS_socket, [domain as u64, 1, 0, 0, 0, 0]), (ALLOW, EPERM));
        // Only the low half of the argument counts.
        let high = domain as u64 | 1 << 32;
        assert_eq!(verdicts(libc::SYS_socket, [high, 1, 0, 0, 0, 0]), (ALLOW, EPERM));
    }
    assert_eq!(verdicts(libc::SYS_socket, [libc::AF_UNIX as u64; 6]), (ALLOW, ALLOW));
}

#[test]
fn flags_decide_about_conditional_blocks() {
    let flag = libc::AT_EMPTY_PATH as u64;
    assert_eq!(verdicts(libc::SYS_execveat, [0, 0, 0, 0, flag, 0]), (EPERM, EPERM));
    assert_eq!(verdicts(libc::SYS_execveat, [0, 0, 0, 0, flag | 0x100, 0]), (EPERM, EPERM));
    assert_eq!(verdicts(libc::SYS_execveat, [flag, flag, flag, flag, 0x100, flag]), (ALLOW, ALLOW));

    let flag = libc::CLONE_NEWUSER as u64;
    assert_eq!(verdicts(libc::SYS_unshare, [flag | 0x2_0000, 0, 0, 0, 0, 0]), (EPERM, EPERM));
    assert_eq!(verdicts(libc::SYS_unshare, [0x2_0000, flag, 0, 0, 0, 0]), (ALLOW, ALLOW));

    assert_eq!(verdicts(libc::SYS_seccomp, [SECCOMP_SET_MODE_FILTER; 6]), (EPERM, EPERM));
    assert_eq!(verdicts(libc::SYS_seccomp, [0, 1, 1, 1, 1, 1]), (ALLOW, ALLOW));
    assert_eq!(verdicts(libc::SYS_seccomp, [3, 0, 0, 0, 0, 0]), (ALLOW, ALLOW));
}

#[test]
fn errors_are_told_in_words() {
    assert_eq!(
        build_filter(true, "pdp11").unwrap_err().message(),
        "Unsupported architecture for seccomp"
    );
    let mut rules: BTreeMap<i64, Vec<SeccompRule>> = BTreeMap::new();
    assert_eq!(
        add_masked_arg_rule(&mut rules, libc::SYS_unshare, 6, 0x1).unwrap_err().message(),
        "The seccomp rule contains an invalid argument index. Maximum index value: 5"
    );
}
