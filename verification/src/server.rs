//! The repository server: its configuration, access rules, plugin
//! invocation and request handling decisions.
pub mod identity;
pub mod policy;
pub mod config;
pub mod plugin;
pub mod repository;
pub mod http;
pub mod service;
pub mod cli;
