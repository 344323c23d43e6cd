//! A catalog of registry mirrors for the package manager, the protocol that
//! switches the package manager's configuration from one mirror to another
//! without disturbing what else the file holds, and the rules of the latency
//! prober that finds the fastest mirror.
//!
//! The library reads and writes no file, sends no request and runs no
//! command: it takes texts and results, and gives texts and decisions.

pub mod args;
pub mod cargo;
pub mod constants;
pub mod description;
pub mod error;
pub mod probe;
pub mod registry;
pub mod runtime;
pub mod text;
pub mod toml;
pub mod utils;
