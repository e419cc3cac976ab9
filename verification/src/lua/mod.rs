//! What configuration code declares.
pub mod action_laws;
pub mod actions;
pub mod artifacts;
pub mod asking;
pub mod bases;
pub mod climbing;
pub mod conflicts;
pub mod context;
pub mod cycles;
pub mod data;
pub mod diagnostics;
pub mod evaluating;
pub mod evaluation;
pub mod helper_modules;
pub mod helper_payloads;
pub mod helpers;
pub mod installing;
pub mod loading;
pub mod manifesting;
pub mod merging;
pub mod noting;
pub mod options;
pub mod payloads;
pub mod planning;
pub mod process;
pub mod process_laws;
pub mod project_inputs;
pub mod providers;
pub mod requirements;
pub mod resolution;
pub mod selections;
pub mod state;
