//! Ingestion: turning the records of a source's data into a `CardSet`.
//! Fetching and decoding the data is left to the caller.

pub mod cti;
pub mod imf;
