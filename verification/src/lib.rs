use vstd::prelude::*;

pub mod utf16;
pub mod text;
pub mod model;
pub mod entity_trim;
pub mod table;
pub mod state;
pub mod bits;
pub mod dedup_store;
pub mod signature;
pub mod counts;
pub mod similarity;
pub mod dedup;
pub mod replace;
pub mod filter;
pub mod media_filter;
pub mod pipeline;
pub mod album;
pub mod text_merge;
pub mod parse;
pub mod forward;
pub mod timing;
pub mod skip_log;
pub mod delivery;
pub mod sources;
pub mod config;
pub mod gap_log;
pub mod maintenance;
pub mod thumbs;
pub mod runner;
pub mod telegram;
pub mod routing;

verus! {
} // verus!
