//! The catalog's rules that its queries apply to the rows they read.
pub mod files;
pub mod merge;
pub mod music;
pub mod segments;
pub mod tv;
