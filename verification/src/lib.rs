//! Translation of a shader module into Metal Shading Language source text.
//!
//! The module to translate is described in [`ir`]. [`write_string`] turns it
//! into text, given the table that maps its descriptors to the flat slots of
//! the target language. What the text is, is said by [`writer::module_text`];
//! [`laws`] holds what follows from it for every module.

pub mod arena;
pub mod binding;
pub mod entry;
pub mod error;
pub mod function;
pub mod ir;
pub mod join;
pub mod laws;
pub mod name;
pub mod text;
pub mod types;
pub mod validate;
pub mod writer;

pub use crate::binding::{BindSource, BindTarget, BindingMap, Options};
pub use crate::error::Error;
pub use crate::types::{scalar_kind_string, vector_size_string};
pub use crate::writer::{write_string, Writer};
