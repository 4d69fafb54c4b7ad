//! Parsing and rendering of HTTP Live Streaming (HLS) playlists.
pub mod text;
pub mod decimal;
pub mod num;
pub mod error;
pub mod uri;
pub mod attribute_list;
pub mod datetime;
pub mod playlist;
pub mod segment;
pub mod media;
pub mod multivariant;
pub mod parser;
pub mod codecs;
pub mod validation;
pub mod read_write;
pub mod key;
pub mod render;
pub mod messages;
pub mod roundtrip;
