//! The data that evaluation produces and its rules.
pub mod anchors;
pub mod context;
pub mod frozen;
pub mod ladder;
pub mod manifest;
pub mod ordering;
pub mod path;
pub mod plan;
pub mod plan_laws;
pub mod selection;
pub mod source;
pub mod wire;
pub mod wire_laws;
