//! Document transformation core of a Markdown viewer: a fence-aware line
//! preprocessor with inline rewriting, code-language normalisation, heading
//! slugs and outline, text search, a single-flight render cache model, a
//! debounced file-change reconciler, and small raster drawing helpers for
//! the application icon.

pub mod text;
pub mod lang;
pub mod typography;
pub mod emoji;
pub mod links;
pub mod inline;
pub mod fence;
pub mod remote;
pub mod mermaid;
pub mod svg;
pub mod slug;
pub mod outline;
pub mod find;
pub mod cache;
pub mod watch;
pub mod icon;
