//! Coordination core of a team word game server: the session and match registry
//! with join codes, the match state machine (teams, roles, readiness, turns), the
//! per-viewer redaction of the board, and the routing of client commands. Outbound
//! messages are returned as deliveries for the caller to send.

pub mod board;
pub mod client;
pub mod game;
pub mod join_code;
pub mod protocol;
mod random;
pub mod rules;
pub mod server;
pub mod universe;
