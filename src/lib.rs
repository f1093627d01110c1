//! A live content store for a markdown blog: documents parsed from source
//! files, an immutable snapshot store, a debouncing change watcher, and the
//! query engine that serves reads from a snapshot.
pub mod document;
pub mod parser;
pub mod query;
pub mod store;
pub mod text;
pub mod watcher;
