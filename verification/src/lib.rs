//! Hop: one keyboard and mouse shared across computers.
//!
//! The verified core: layout geometry and the layout file's meaning, the
//! screen-crossing coordinator and the routing around it, held-input
//! tracking, clipboard ownership, wire framing, per-peer session
//! decisions, the X11 input and selection logic, the in-memory screen,
//! and the file-transfer state machines (manifest walk, receiver, sender
//! checks, path guard).

pub mod arith;
pub mod clipboard;
pub mod common;
pub mod coordinator;
pub mod driver;
pub mod held;
pub mod layout;
pub mod mock;
pub mod path_guard;
pub mod platform;
pub mod protocol;
pub mod proxy;
pub mod selection;
pub mod sorted;
pub mod text;
pub mod transfer;
pub mod walk;
pub mod x11;
