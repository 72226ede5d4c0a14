//! The wire-level data model: metadata, responses and actions.

use std::time::Duration;

use vstd::prelude::*;

verus! {

/// Whether a command was processed or failed.
#[derive(Debug, Clone, Copy, PartialEq, Eq, Structural)]
pub enum NetActions {
    /// The command was processed successfully.
    Command,
    /// An error occurred while processing the command.
    Error,
}

/// Metadata about the database: version, connection and credentials.
#[derive(Debug, PartialEq)]
pub struct DbMetadata<'a> {
    /// The version of the database.
    pub version: &'a str,
    /// The port used for connecting to the database.
    pub port: u16,
    /// The address to start the server on.
    pub addr: &'a str,
    /// The username used for accessing the database.
    pub username: &'a str,
    /// The password used for accessing the database.
    pub password: &'a str,
    /// Whether debug mode is enabled.
    pub debug_mode: bool,
}

impl Default for DbMetadata<'_> {
    /// The metadata of a fresh local installation.
    fn default() -> (m: Self)
        ensures
            m.version@ == "0.1.0"@,
            m.port == 6969,
            m.addr@ == "127.0.0.1"@,
            m.username@ == "root"@,
            m.password@ == "admin"@,
            !m.debug_mode,
    {
        DbMetadata {
            version: "0.1.0",
            port: 6969,
            addr: "127.0.0.1",
            username: "root",
            password: "admin",
            debug_mode: false,
        }
    }
}


/// A value stored in the database.
#[derive(Debug, Clone, PartialEq)]
pub struct DbValue {
    /// Any JSON document.
    pub value: serde_json::Value,
    /// How long the value lives; `None` keeps it until it is deleted.
    pub expires_in: Option<Duration>,
}

/// What a response says, with its error text as a sequence of characters.
pub struct Reply {
    /// Whether the command was processed or failed.
    pub action: NetActions,
    /// The value the command returns, if any.
    pub value: Option<serde_json::Value>,
    /// The error message, if the command failed.
    pub error: Option<Seq<char>>,
}

/// The answer sent back to a client after it sent a command.
#[derive(Debug, PartialEq)]
pub struct NetResponse {
    /// Whether the command was processed or failed.
    pub action: NetActions,
    /// The value the command returns, if any.
    pub value: Option<serde_json::Value>,
    /// The error message, if the command failed.
    pub error: Option<String>,
}

impl View for NetResponse {
    type V = Reply;

    open spec fn view(&self) -> Reply {
        Reply {
            action: self.action,
            value: self.value,
            error: match self.error {
                Some(e) => Some(e@),
                None => None,
            },
        }
    }
}

/// The reply of a command that succeeded with `value`.
pub open spec fn success_reply(value: Option<serde_json::Value>) -> Reply {
    Reply { action: NetActions::Command, value, error: None }
}

/// The reply of a command that failed with `message`.
pub open spec fn failure_reply(message: Seq<char>) -> Reply {
    Reply { action: NetActions::Error, value: None, error: Some(message) }
}

impl NetResponse {
    /// A response to a command that succeeded with `value`.
    pub fn success(value: Option<serde_json::Value>) -> (r: NetResponse)
        ensures
            r@ == success_reply(value),
    {
        NetResponse { action: NetActions::Command, value, error: None }
    }

    /// A response to a command that failed with `message`.
    pub fn failure(message: String) -> (r: NetResponse)
        ensures
            r@ == failure_reply(message@),
    {
        NetResponse { action: NetActions::Error, value: None, error: Some(message) }
    }
}

/// A command sent over the network to the server.
pub struct NetCommand<'a> {
    /// The name of the command.
    pub name: &'a str,
    /// The keys the command is about.
    pub keys: Option<Vec<&'a str>>,
    /// The values the command stores.
    pub values: Option<Vec<DbValue>>,
    /// How long each of the values lives.
    pub ttls: Option<Vec<Duration>>,
}

} // verus!
