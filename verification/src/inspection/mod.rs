//! Views of products and plans for people.
pub mod compare;
pub mod differing;
pub mod explain;
pub mod items;
pub mod sections;
pub mod showing;
