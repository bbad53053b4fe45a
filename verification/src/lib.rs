//! A compact templating engine: a template in an indentation-oriented
//! markup language is parsed into a tree of nodes, and the tree is rendered
//! as HTML text.
//!
//! # The format of a template
//!
//! A template is a text of lines; blank lines count for nothing. Two
//! spaces of indentation make one level, and a line one level deeper than a
//! declaration stands under it.
//!
//! A declaring line is `tag#id.class.class name="value" name='value' text`:
//! a tag of letters, digits, `-` and `_`; directly after it `#id` at most
//! once and `.class` any number of times; then attributes, each after
//! spaces, whose value runs to the next quote of the kind that opened it;
//! then the rest of the line as the text of the element.
//!
//! A line `include path` names another template, which is spliced in at
//! this place when the tree is rendered. Nothing may stand under it.
//!
//! A line that starts with `|` is a line of text; what follows the `|` and
//! one space is the text. Under an element stand either declarations, which
//! become its children, or lines of text, which become its block of text.
//!
//! # Rendering
//!
//! An element renders as `<tag id="id" class="a b" name="value">`, its text
//! (the lines of a block joined by `<br>`), its children, and `</tag>`;
//! where text and children render as nothing it renders as `<tag ... />`.
//! The value of an attribute that holds `"` stands in single quotes. Nothing
//! is escaped. A span `{{name}}` passes through unchanged, and is replaced
//! by a value where bindings are given.

pub mod binder;
pub mod laws;
pub mod parser;
pub mod renderer;
pub mod table;
pub mod template_manager;
pub mod text;
