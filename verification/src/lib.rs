//! Plugin hosting core of an IRC chat bot.
//!
//! The bot's user-facing behaviour lives in plugins that are loaded from
//! dynamic modules at runtime. This library holds the verified bookkeeping
//! that makes that safe: the registry of resident plugins (at most one per
//! name), the strict teardown order of a plugin's resources, the command
//! table each plugin registers at load time, and the planning of per-message
//! dispatch (help, command resolution, broadcast). The unverifiable edges --
//! opening dynamic modules, threads, the chat transport -- live outside and
//! drive this library with plain values.

mod strutil;

pub mod arena;
pub mod config;
pub mod dispatch;
pub mod manager;
pub mod optparse;
pub mod permut;
pub mod plugin_api;
pub mod shift;
pub mod util;
pub mod webutil;
