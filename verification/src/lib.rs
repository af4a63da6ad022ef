//! Core of a source synchronization server: a project of named channels is
//! resolved into file sets, each file runs through a transform pipeline
//! (require-prefix rewrite, bundling, minification, optional deflate + base85
//! wrapping), and the resulting records are batched, merged, chunked and
//! framed for delivery to subscribers.

pub mod assets;
pub mod batch;
pub mod chunk;
pub mod deps;
pub mod encode;
pub mod mask;
pub mod resolve;
pub mod session;
pub mod structs;
pub mod transform;
pub mod watch;
