//! Open Library dumps: parsing dump lines and turning records into table rows.
pub mod ingest;
pub mod parser;
