//! Converts documents that mix prose with mathematics in LaTeX markup into
//! the same documents with the mathematics in Typst markup.
//!
//! `scanner` finds the regions of mathematics, `pipeline` names what the
//! outside converter makes of one formula, `document` puts the converted
//! regions back between the untouched text, `layout` names what the outside
//! formatter makes of the result, and `worker` holds the custom macros and
//! runs the whole. `laws` states what holds of every document.

pub mod document;
pub mod laws;
pub mod layout;
pub mod pipeline;
pub mod scanner;
pub mod text;
pub mod worker;
