//! Verified core of a PTY session manager: a keyed registry of interactive
//! shell sessions, the bootstrap logic that picks and launches a shell on a
//! freshly opened pseudo-terminal, and the relay that forwards raw output
//! chunks to a caller-supplied sink.

pub mod text;
pub mod relay;
pub mod shell;
pub mod pty;
pub mod git;
