//! A chunk-based binary container: four-letter type codes, checksummed
//! chunk records, and the signed container that holds them in order.

pub mod chunk;
pub mod chunk_type;
pub mod error;
pub mod png;
mod text;

pub use chunk::Chunk;
pub use chunk_type::ChunkType;
pub use error::ChunkError;
pub use png::Png;
