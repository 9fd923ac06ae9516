//! The logic of an album-first music player: the album is the unit of
//! listening, and everything here browses, queues, shuffles and counts by album.

pub mod api;
pub mod artwork;
pub mod auth;
pub mod cli;
pub mod cli_laws;
pub mod config;
pub mod desktop;
pub mod enrich_laws;
pub mod error;
pub mod ffprobe;
pub mod group;
pub mod group_laws;
pub mod identity_laws;
pub mod library_laws;
pub mod migrate;
pub mod model;
pub mod order;
pub mod path;
pub mod persist;
pub mod player;
pub mod player_laws;
pub mod playlog;
pub mod plays;
pub mod query;
pub mod query_laws;
pub mod queue;
pub mod queue_laws;
pub mod release_laws;
pub mod relocation;
pub mod replaygain;
pub mod scan;
pub mod scan_laws;
pub mod server;
pub mod server_laws;
pub mod text;
pub mod text_laws;
pub mod util;
