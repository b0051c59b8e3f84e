//! Discovery of which JSON documents are to be validated against which JSON
//! Schema documents, for a project directory.
//!
//! Two strategies produce associations from a base directory: the suffix
//! convention (`name.json` beside `name.schema.json`) and the `json.schemas`
//! array of an editor settings file. Their results are merged into one
//! mapping from schema reference to a set of instance paths. Reading the
//! filesystem is left to the caller: the functions here take what was read
//! (a directory listing, the settings text, canonical paths, glob matches)
//! and decide what it means.

pub mod assoc;
pub mod config;
pub mod json;
pub mod path;
pub mod schema;
pub mod settings;
pub mod suffix;

pub use assoc::{hashset_of_pathbuf, merge, Association, Associations};
pub use config::{get_config, Config};
pub use path::{regularize, FsPath};
pub use schema::{ResolveError, Resolved, Schema};
pub use settings::{Definition, SchemaSource, SettingsError, Skip, Vscode};
pub use suffix::{Suffix, SuffixPair};
