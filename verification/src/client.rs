//! The client: the repositories it proxies, the servers it starts, and
//! its command line and interactive commands.
pub mod config;
pub mod cli;
pub mod proxy;
