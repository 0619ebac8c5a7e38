//! Indexing worker core: split document text into bounded chunks, pair each
//! chunk with its embedding, and replace a document's indexed rows as one unit.
pub mod chunker;
pub mod error;
pub mod index;
pub mod pipeline;
