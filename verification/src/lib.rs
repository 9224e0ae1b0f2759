//! Splits source code into bounded, semantically coherent chunks for indexing.
//!
//! A structural extractor finds the functions, classes and imports of a
//! source file. From what it found, `chunk_code` makes one chunk for each
//! class, one for each function outside the classes, and windows over the
//! lines that are left; `split_large_chunk` cuts a chunk that is over a
//! token budget into pieces.

pub mod assembly;
pub mod chunker;
pub mod ident;
pub mod language;
pub mod lines;
pub mod resplit;
pub mod text;
pub mod types;

pub use chunker::{
    chunk_code, DEFAULT_CHUNK_SIZE, DEFAULT_OVERLAP, MAX_CHUNK_SIZE, MAX_LINES_PER_CHUNK,
    MIN_CHUNK_SIZE, MIN_LINES_PER_CHUNK,
};
pub use language::{
    get_language_config, is_supported_language, supported_languages, LanguageConfig,
};
pub use resplit::split_large_chunk;
pub use types::{ClassInfo, CodeChunk, Extraction, FunctionInfo, ImportInfo};
