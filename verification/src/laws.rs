//! What holds of the library as a whole.

pub mod carrying;
pub mod files;
pub mod finding;
pub mod keys;
pub mod matching;
pub mod mirror;
pub mod naming;
pub mod playlists;
pub mod preparing;
pub mod reading;
pub mod saying;
pub mod tracks;
pub mod writing;
