//! Character categories for a TeX-like typesetting engine: a scoped table that
//! assigns a category to every input character, and the source-location types
//! that a tokenizer uses for its diagnostics.
mod category;
mod command;
mod scope;
mod source;

pub use category::CharacterCategory;
pub use command::CommandType;
pub use scope::CategoryMap;
pub use source::{Source, SourcePosition};
