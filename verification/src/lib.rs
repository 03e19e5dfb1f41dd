//! Box-tree construction for a styled document.

pub mod dom;
pub mod layout;
pub mod shell;
pub mod style;
