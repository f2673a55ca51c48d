//! Header introspection for GGUF model files, remote inspection over HTTP
//! range requests, and the planning rules built on them.
pub mod format;
pub mod ggml;
pub mod header;
pub mod passed_over;
pub mod plan;
pub mod remote;
pub mod scan;
pub mod summary;
pub mod summary_spec;
pub mod text;
pub mod value;
