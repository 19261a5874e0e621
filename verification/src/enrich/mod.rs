//! Enrichment: the decisions behind remuxing, captions, loudness and the
//! metadata that sidecars get.
pub mod captions_state;
pub mod imdb;
pub mod loudness;
pub mod loudness_state;
pub mod remux;
pub mod subtitles;
pub mod tmdb;
