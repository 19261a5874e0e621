//! Serving: the content tree, and the documents and pages made of it.
pub mod art;
pub mod assets;
pub mod browse;
pub mod config;
pub mod control;
pub mod counts;
pub mod didl;
pub mod formats;
pub mod item;
pub mod objectid;
pub mod page;
pub mod player;
pub mod profiles;
pub mod search;
pub mod security;
pub mod soap;
pub mod ssdp;
pub mod subs;
pub mod tree;
pub mod watch;
