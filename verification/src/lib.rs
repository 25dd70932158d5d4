//! Orchestration rules for a local development environment: port allocation,
//! environment composition, dependency-ordered service start-up and the
//! decisions taken while one service is brought up.
pub mod bitwarden;
pub mod command;
pub mod config;
pub mod custom_app;
pub mod dependencies;
pub mod docker;
pub mod env_vars;
pub mod exposed;
pub mod machine_state;
pub mod pairs;
pub mod pattern;
pub mod port_laws;
pub mod port_scan;
pub mod ports;
pub mod prepare;
pub mod run;
pub mod services;
pub mod starter;
pub mod table;
pub mod text;
