//! Local storage layout, package contents and the selection, filtering and
//! ordering rules of a MangaDex offline manager.

pub mod archive;
pub mod builder;
pub mod builder_laws;
pub mod contents;
pub mod contents_laws;
pub mod dirs;
pub mod error;
pub mod filter_laws;
pub mod filters;
pub mod ids;
pub mod images;
pub mod laws;
pub mod model;
pub mod order_laws;
pub mod orders;
pub mod paths;
pub mod push;
pub mod random;
pub mod regex_calls;
pub mod sort;
