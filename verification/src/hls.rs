//! HTTP Live Streaming: playlists, the segments that they name, and their encryption.

pub mod decrypt;
pub mod iv;
pub mod playlist;
pub mod segment;
pub mod stream;
pub mod variant;
