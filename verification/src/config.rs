//! The plain data the host is configured with. Reading and parsing the
//! configuration file happens outside the library; these are the values it
//! produces.

use vstd::prelude::*;

verus! {

/// The chat server to connect to.
pub struct Server {
    pub url: String,
}

/// The bot's identity and presence: its nick, the channels it joins, and the
/// command prefix its users invoke commands with.
pub struct Bot {
    pub nick: String,
    pub channels: Vec<String>,
    pub cmd_prefix: String,
}

} // verus!
