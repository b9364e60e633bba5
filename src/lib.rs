//! An echo service's verified core: the dispatch state of a bounded worker
//! pool, the per-connection echo session, and command-line parsing.

pub mod cli;
pub mod echo;
pub mod pool;
