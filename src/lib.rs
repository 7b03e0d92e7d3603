//! Source files held by a database that derives their line tables on
//! demand and memoizes each derived value until the text it came from is
//! replaced, with a view of it for diagnostics renderers.

pub mod database;
pub mod file_cache;
pub mod file_id;
pub mod laws;
pub mod line_index;
pub mod source;

pub use database::Database;
pub use file_cache::{FileCache, Upcast};
pub use file_id::FileId;
pub use source::{ParseDatabase, SourceDatabase};
