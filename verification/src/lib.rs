//! A household media server's logic: the catalog's naming and format rules,
//! the enrichment and scanning decisions, and the pages and UPnP documents
//! that the server renders.
pub mod db;
pub mod digest;
pub mod encoding;
pub mod enrich;
pub mod json;
pub mod keyed;
pub mod lists;
pub mod numbers;
pub mod order;
pub mod paths;
pub mod patterns;
pub mod scanner;
pub mod server;
pub mod text;
pub mod xml;
