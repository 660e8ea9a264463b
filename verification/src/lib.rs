//! A room registry for real-time chat: clients join named rooms, and a text
//! sent to a room is delivered to every client registered in it. Clients whose
//! delivery fails are dropped from the room.
//!
//! - [`server`] holds the registry itself, [`server::Server`], with its four
//!   operations: join, leave, send and list.
//! - [`registry`] is the registry as a mathematical value, over which every
//!   contract is stated.
//! - [`delivery`] says what the registry asks of a client handle and what a
//!   broadcast may do to a room.
//! - [`identity`] finds an id for a new client.
//! - [`laws`] proves what holds over any run of operations.
//! - [`errors`] lists the kinds of error that the bot API reports.

pub mod delivery;
pub mod errors;
pub mod identity;
pub mod laws;
pub mod registry;
pub mod server;
