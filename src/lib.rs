//! paircoded: a terminal-hosting agent that exposes local PTYs to a remote
//! relay over outbound WebSocket links.
//!
//! This crate holds the agent's logic, each part with a proved contract:
//! the wire formats of the data and control channels (`protocol`, on the
//! compact byte-level JSON of `json` and the general object grammar of
//! `grammar`), the per-terminal bridge (`bridge`), the set of
//! live terminals (`manager`), the channels' frame handling (`channel`), the
//! supervision and reconnection decisions (`supervisor`, `reconnect`), the
//! run's settings (`config`), sandboxed command lines (`sandbox`) and the
//! login flow's decisions (`auth`). Sockets, PTYs, timers and HTTP belong to
//! the caller.
pub mod auth;
pub mod bridge;
pub mod channel;
pub mod config;
pub mod grammar;
pub mod json;
pub mod manager;
pub mod protocol;
pub mod reconnect;
pub mod sandbox;
pub mod supervisor;
