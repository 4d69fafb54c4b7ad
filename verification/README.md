# hls_playlist

A reader and writer of HTTP Live Streaming playlists, written in Verus: every
function of the library carries a contract that Verus proves.

- `src/` is the library. Each module states what its functions compute as spec
  functions over byte sequences (`Seq<u8>`) and views of its types, and proves
  the executable code against them: attribute lists, URIs, codec strings,
  shared, media and multivariant tags, segments, the line-by-line playlist
  parser, the version rules of a playlist, the text a playlist is written as,
  error messages, and AES-128-CBC / AES-256-GCM segment encryption.
- `src/roundtrip.rs` proves that a media playlist of the common tags and
  segments (see `law_media_playlist_round_trip`) is read back, from the text
  the writer gives it, as the same items, and that version, independent
  segments, start (not precise) and name/value or import definition tags read
  back as themselves (`law_shared_tag_round_trip`); it also proves that a URI
  reads back as its text (`law_relative_uri_text_round_trip`,
  `law_authority_uri_text_round_trip`).
- `src/codecs/round_trip.rs` proves that the text of a parsed codec string
  parses to the same codec (`law_codec_text_round_trip`).
- Tags are checked by inherent `validate` methods (`SharedTag::validate`,
  `MediaPlaylist::validate`, `Playlist::validate`, …); there is no common
  `Tag` trait.
- Outside crates (`chrono`, `hex`, `aes`, `cbc`, `aes-gcm`) are reached through
  a few small trusted functions whose contracts are stated in their doc
  comments; results that take pages to state are given a name.
- Decimal numbers are kept as the text they were written in, so nothing in the
  library depends on floating point.
- `app/` holds what needs the file system or `Display`: reading a playlist
  file and showing library values as text.
- `tests/` exercises the library on concrete playlists.
