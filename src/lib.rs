//! Configuration resolution and validation for a fleet of machines that host
//! on-demand CI runners.

pub mod config;
pub mod github;
pub mod machine;
pub mod machine_id;
pub mod resolver;
pub mod text;
