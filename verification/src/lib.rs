//! The decision logic of a concurrent TCP port scanner: how the port space is
//! divided among workers, what one worker does next, how the command line is
//! understood, and how the open ports found are reported.

pub mod cli;
pub mod config;
pub mod coordinator;
pub mod partition;
pub mod report;
pub mod worker;
