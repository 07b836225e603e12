//! A verified core for a file-format-agnostic static site generator.
//!
//! The library models the build pipeline of a site: paths are rewritten from
//! the source tree into the output tree, each rendered page fans out into one
//! destination per configured output extension, external commands are chained
//! over page content, and every destination is matched against the nearest
//! enclosing layout. All decisions of the pipeline live here with contracts;
//! the surrounding binary performs the filesystem and process work.

pub mod config;
pub mod error;
pub mod mapping;
pub mod path;
pub mod site;
pub mod transform;
