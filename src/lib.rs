//! The language-server side of a small Java teaching environment: the
//! session supervisor that keeps one server process, the length-prefixed
//! JSON-RPC framing, the correlation of responses with requests, the routing
//! of notifications, and the naming rules around them (server state
//! directories, project archives, launch arguments, class paths, updates).
//!
//! Everything here computes; the program around it spawns processes, moves
//! bytes over pipes and touches files.
pub mod archive;
pub mod classpath;
pub mod crash_log;
pub mod frame;
pub mod json;
pub mod launch_args;
pub mod launcher;
pub mod links;
pub mod messages;
pub mod pending;
pub mod platform;
pub mod project_meta;
pub mod session;
pub mod text;
pub mod tree;
pub mod updater;
pub mod uri;
