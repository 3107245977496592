//! Certificate index for a Web Key Directory: address hashing, certificate
//! loading, and the path-tracking key index that lookups are served from.

pub mod hash;
pub mod db;
pub mod loader;
pub mod config;
pub mod events;
pub mod http;
