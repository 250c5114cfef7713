//! The rules of a video downloader: what to fetch, in which order, and what to do with
//! the bytes that come back.

pub mod command;
pub mod headers;
pub mod hls;
pub mod proxy;
pub mod retry;
pub mod skip;
pub mod split;
pub mod text;
pub mod url;
pub mod vimeo;
