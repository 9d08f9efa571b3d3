//! Papervault: the verified core of a local PDF and text search, preview and
//! tagging application.
//!
//! Every rule of the application stands here as executable code with a
//! contract: how queries are built and results assembled, how the tag tables
//! change, how the auto-tagger decides what to send to its provider, how the
//! indexer treats a changed file, and how the window reacts to its user.

use vstd::prelude::*;

pub mod actions;
pub mod auto_tagger;
pub mod browser;
pub mod config;
pub mod error;
pub mod indexer;
pub mod json;
pub mod logging;
pub mod messages;
pub mod order;
pub mod paths;
pub mod preview;
pub mod search;
pub mod session;
pub mod tag_view;
pub mod tags;
pub mod text;
pub mod times;
pub mod tray;
pub mod watcher;
pub mod window;

verus! {

} // verus!
