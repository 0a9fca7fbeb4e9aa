//! A personal blogging backend: a content store of posts with a
//! publication workflow, front-matter parsing for flat-file posts,
//! and markup rendering for display.

pub mod blog;
pub mod date;
pub mod query;
pub mod render;
pub mod store;
pub mod text;
