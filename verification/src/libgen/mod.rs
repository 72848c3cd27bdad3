//! LibGen dump ingestion.
pub mod ingest;
pub mod offline;
pub mod plan;
pub mod provision;
pub mod typing;
pub mod mysql_dump;
