//! Wombat compiles a Lua-described dotfiles repository into a deterministic
//! build manifest and an execution plan. This crate holds its rules: paths,
//! selectors, inputs, manifests, plans, requirements and their presentation.
pub mod codec;
pub mod digest;
pub mod error;
pub mod glob;
pub mod initialize;
pub mod inspection;
pub mod json;
pub mod lua;
pub mod model;
pub mod number;
pub mod order;
pub mod presentation;
pub mod project;
pub mod requirements;
pub mod sorting;
pub mod text;
pub mod trees;
