//! Parser and query engine for ISC-DHCP style lease databases.
//!
//! Text is split into tokens, the tokens are read as a sequence of lease
//! declarations, and the resulting lease log answers identity and
//! point-in-time lookups. Every function carries a contract over the
//! mathematical model of its arguments.

pub mod common;
pub mod leases;
pub mod lex;
pub mod parser;
