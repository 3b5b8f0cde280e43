//! Planning and bookkeeping for mirroring MP3 folders and M3U playlists to an
//! iPod.

pub mod batch;
pub mod database;
pub mod index;
pub mod key;
pub mod laws;
pub mod m3u;
pub mod path;
pub mod plan;
pub mod playlist;
pub mod progress;
pub mod report;
pub mod scan;
pub mod setup;
pub mod source;
pub mod sync;
pub mod text;
