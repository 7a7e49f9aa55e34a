//! Frontmatter for book chapters: key/value lines between two `+++` lines
//! become a table of HTML at the place where they stood.

pub mod text;
pub mod frontmatter;
pub mod linkify;
pub mod events;
pub mod table;
pub mod scanner;
pub mod markdown;
pub mod preprocessor;

pub use crate::preprocessor::FrontmatterPreprocessor;
