//! Compiles an abstract sandbox policy, together with a list of sensitive
//! file patterns, into a Seatbelt profile and the argument vector that
//! launches a command under `sandbox-exec`.

pub mod text;
pub mod paths;
pub mod sensitive_paths;
pub mod resolve;
pub mod seatbelt;
