//! What every part of the server shares: the catalog's types, and the rules
//! for names, formats and sidecars.
pub mod captions;
pub mod container_title;
pub mod mime;
pub mod models;
pub mod nameparse;
pub mod open;
pub mod queries;
pub mod rttm;
pub mod schema;
pub mod sidecar;
pub mod subtitles;
pub mod textenc;
