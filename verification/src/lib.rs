//! Sandbox policy, syscall filtering, filesystem confinement and cluster PKI,
//! with the decisions each of them makes stated as contracts and proved.

pub mod path;
pub mod pki;
pub mod policy;
pub mod proto;
pub mod records;
pub mod sandbox;
pub mod text;
