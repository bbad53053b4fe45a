//! The template grammar and the tree it produces.
//!
//! A template is a text of lines. Two spaces of indentation make one level
//! of nesting. A line that starts with `|` is a line of text; any other
//! line declares an element or names another template to splice in.

pub mod ast_types;
pub mod scan;
pub mod decl;
pub mod ast;
pub mod shorthand;
