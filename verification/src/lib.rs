//! Connection configuration, protocol parsing and response shaping for a
//! Redis and Memcached cache manager.
pub mod commands;
pub mod encoding;
pub mod error;
pub mod laws;
pub mod memcachedx;
pub mod model;
pub mod redisx;
pub mod registry;
pub mod single_instance;
pub mod store;
pub mod text;
pub mod tray;
