# openshell

The decisions behind an agent sandbox, written in Verus: each function states in its
contract what it decides, and Verus proves it.

- `src/policy.rs`, `src/proto.rs`, `src/path.rs`: the sandbox policy, how it is read from the
  policy message, and the normal form of its paths.
- `src/sandbox/seccomp.rs`: the syscall filter, what it blocks, and its compiled program.
- `src/sandbox/landlock.rs`: which paths are granted, what a path that cannot be opened means,
  and the order in which a Landlock ruleset is built and enforced.
- `src/pki.rs`: the CA, server and client certificates of a cluster.
- `src/records.rs`, `src/text.rs`: records that the server keeps, and decimal text.
- `app/`: the calls into the kernel, logging and conversions.
- `tests/`: ordinary tests.

What is not proved is listed beside the code that relies on it: every function marked
`external_body` says in its comment which function of which crate it calls and what it
claims of it.
