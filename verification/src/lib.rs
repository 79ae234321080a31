//! Watching a booru-style image API for new posts of chosen tags and handing
//! them to hooks (Discord webhooks, local directories, commands), with each
//! watcher's last seen post kept in a store. This crate holds the verified
//! logic: configuration, environment parsing, request queries, the search for
//! new posts and the run over all watchers as state machines, and the local
//! store's format. Network, file and process work is left to the caller.
pub mod assoc;
pub mod text;
pub mod models;
pub mod hooks;
pub mod watch;
pub mod config;
pub mod persistence;
pub mod env;
pub mod client;
pub mod search;
pub mod scraper;
