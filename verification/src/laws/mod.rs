//! What the library is for, stated over inputs and results alone.
//!
//! Each law says how a result relates to what went in, without the functions by
//! which the result is computed.

pub mod boundary;
pub mod calls;
pub mod capture;
pub mod checks;
pub mod classes;
pub mod deno;
pub mod detection;
pub mod env;
pub mod env_flow;
pub mod events;
pub mod files;
pub mod findings;
pub mod operations;
pub mod pairs;
pub mod routes;
pub mod runs;
pub mod schema;
pub mod sdk;
pub mod texts;
pub mod types;
