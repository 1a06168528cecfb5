//! Port-mapping table management for home gateways: the decisions behind
//! listing, adding, removing and clearing mappings, kept apart from the
//! network calls that carry them out.
//!
//! The caller owns the gateway connection.  It asks a command what to do
//! next, performs that one remote call, and reports what came back; the
//! command decides everything else.

pub mod model;
pub mod enumerate;
pub mod mutate;
pub mod command;
pub mod args;
pub mod address;
pub mod runs;
