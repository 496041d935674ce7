//! Configuration synthesis for service-manager units and container quadlets.

pub mod activation;
pub mod compose;
pub mod formats;
pub mod json;
pub mod quadlet;
pub mod systemd;
pub mod text;
pub mod utils;
pub mod variants;
pub mod yaml;
