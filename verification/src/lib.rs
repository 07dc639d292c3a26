//! Verified core of a workspace file server: request path normalisation,
//! access policies, repository configuration rules, plugin planning and the
//! client-side configuration.
pub mod text;
pub mod path;
pub mod policy;
pub mod settings;
pub mod setting_value;
pub mod rules;
pub mod plugins;
pub mod server;
pub mod hooks;
pub mod info;
pub mod client;
