//! Core engine of an interactive terminal session: a byte-stream decoder
//! that turns raw child-process output into display operations, a character
//! grid with scrollback history that applies them, and the session-side
//! bookkeeping (size validation, liveness policy, handle lifetimes) that a
//! host application drives.

pub mod coordinator;
pub mod icon;
pub mod input;
pub mod laws;
pub mod session;
pub mod render;
pub mod screen;
pub mod vt;
