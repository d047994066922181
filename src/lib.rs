//! Chunked-object storage: files are split into fixed-size chunks, each chunk
//! is uploaded to a remote blob endpoint, and the resulting locators are kept
//! in an ordered catalog from which the file is put back together.

pub mod answer;
pub mod catalog;
pub mod export;
pub mod ingest;
pub mod integrity;
pub mod retry;
pub mod split;
