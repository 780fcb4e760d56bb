//! Configuration generator for a WireGuard server and its clients.
//!
//! The library keeps the server state (network, keys, client list and
//! the address counter), hands out client addresses, and writes the
//! configuration text of the server and of each client. Every function
//! is verified against the model in [`model`]; [`laws`] holds what is
//! proved of all states and all sequences of operations.

pub mod address;
pub mod commands;
pub mod config;
pub mod crypto;
pub mod decimal;
pub mod error;
pub mod laws;
pub mod model;
pub mod text;
