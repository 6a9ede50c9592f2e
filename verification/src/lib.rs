//! A verified gateway core for a small key-value engine.
//!
//! The gateway accepts commands (`set`, `get`, `del`) over HTTP and
//! WebSocket, translates them for the engine, and broadcasts every command
//! the engine executes to a set of live monitor subscribers.  This crate
//! holds the verified logic of that gateway: credential gating, command-line
//! parsing and translation, the response codec, HTTP routing, the session
//! step rules, and the monitor fan-out registry.  The surrounding process —
//! sockets, threads, and the engine itself — lives outside and drives these
//! functions with plain values.

pub mod ascii;
pub mod body;
pub mod command;
pub mod http;
pub mod registry;
pub mod response;
pub mod store;
pub mod translate;
