//! A local capability daemon library: named services are loaded on demand,
//! reference-counted per client registration, and invoked through a
//! shared-memory mailbox transport.  This crate holds the verified core:
//! the registry state machine, the capability-handle codec, the frame and
//! mailbox protocol, the command planning, and the dispatcher.  Process
//! plumbing (sockets, semaphores, native calls) lives outside the library
//! and feeds it plain values.

pub mod adapter;
pub mod assoc;
pub mod codec;
pub mod command;
pub mod config;
pub mod dispatch;
pub mod mailbox;
pub mod registry;
pub mod server;
pub mod strutil;
pub mod handle;
pub mod jsonify;
pub mod lifecycle;
