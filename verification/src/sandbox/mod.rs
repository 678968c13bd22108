//! Confinement of a sandboxed process.

pub mod landlock;
pub mod seccomp;
