//! The configuration of a project and its inputs.
pub mod config;
pub mod input_laws;
pub mod inputs;
pub mod options;
pub mod settings;
