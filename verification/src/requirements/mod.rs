//! What a product needs of the machine it is deployed to.
pub mod bootstrap;
pub mod bootstrap_laws;
pub mod check;
pub mod check_laws;
pub mod command_laws;
pub mod commands;
pub mod version;
pub mod version_laws;
