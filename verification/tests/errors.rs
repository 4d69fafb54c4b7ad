use hls_playlist::attribute_list::{parse_attribute_list, parse_quoted_string};
use hls_playlist::codecs::Codec;
use hls_playlist::error::{CodecParseError, ParseError, UriError};
use hls_playlist::num::IntErrorKind;
use hls_playlist::parser::Playlist;
use hls_playlist::uri::decode;

fn codec_error(s: &str) -> CodecParseError {
    s.parse::<Codec>().unwrap_err()
}

#[test]
fn quoted_string_errors() {
    assert!(matches!(parse_quoted_string("hello"), Err(ParseError::ExpectedQuotedString)));
    assert!(matches!(parse_quoted_string("\"he\"llo\""), Err(ParseError::InvalidQuotedString { .. })));
}

#[test]
fn attribute_list_errors() {
    assert!(matches!(parse_attribute_list("NAME"), Err(ParseError::InvalidAttributeDefinition { .. })));
    assert!(matches!(parse_attribute_list("FOO-BAR=1"), Err(ParseError::UnknownAttribute(n)) if n == "FOO-BAR"));
    assert!(matches!(parse_attribute_list("RESOLUTION=10"), Err(ParseError::InvalidDecimalResolution { .. })));
    assert!(matches!(parse_attribute_list("IV=0xZZ"), Err(ParseError::InvalidHexSequence { .. })));
}

#[test]
fn key_without_method_is_refused() {
    let mut pending = hls_playlist::segment::PendingSegment::new();
    assert!(matches!(pending.parse("#EXT-X-KEY:URI=\"k\""), Err(ParseError::MissingAttribute { .. })));
    // In a playlist, a segment tag that is refused is reported as an unknown tag.
    let e = Playlist::parse("#EXTM3U\n#EXT-X-KEY:URI=\"k\"\n").unwrap_err();
    assert!(matches!(e, ParseError::UnknownTag { .. }));
}

#[test]
fn codec_errors() {
    assert!(matches!(codec_error(""), CodecParseError::Empty));
    assert!(matches!(codec_error("avc1.4d40"), CodecParseError::WrongHexLength { expected: 6, got: 4, .. }));
    assert!(matches!(codec_error("hev1.ff.5d"), CodecParseError::UnknownHevcProfile(255)));
    assert!(matches!(codec_error("vp09.09.31.08.01"), CodecParseError::UnknownVp9Profile(9)));
    assert!(matches!(codec_error("vp09.00.31.08.09"), CodecParseError::InvalidChroma(9)));
    assert!(matches!(codec_error("mp4a.zz"), CodecParseError::InvalidHex { inner: IntErrorKind::InvalidDigit, .. }));
}

#[test]
fn codec_error_messages() {
    assert_eq!(codec_error("").to_string(), "empty codec string");
    assert_eq!(codec_error("hev1.ff.5d").to_string(), "unknown HEVC profile IDC 255");
    assert_eq!(codec_error("vp09.00.31.08.09").to_string(), "invalid VP chroma subsampling value 9");
    assert_eq!(
        codec_error("avc1.4d40").to_string(),
        "field 'avc profile+constraint+level' must be 6 hex chars, got 4"
    );
}

#[test]
fn uri_decode_errors() {
    assert!(matches!(decode("%ZZ"), Err(UriError::InvalidPercentEncoding)));
    assert!(matches!(decode("%"), Err(UriError::InvalidPercentEncoding)));
    assert!(matches!(decode("%FF"), Err(UriError::InvalidUtf8)));
    assert_eq!(UriError::InvalidUtf8.message(), "Decoded bytes are not valid UTF-8");
}

#[test]
fn parse_error_message_for_uri() {
    let e = ParseError::InvalidUri { source: UriError::MissingScheme };
    assert_eq!(e.to_string(), "Invalid URI: URI missing scheme");
    let e = ParseError::UnknownTag { tag: "#X".to_string(), span: hls_playlist::error::Span { line: 3, column: 0 } };
    assert_eq!(e.to_string(), "Unknown tag: #X at 3:0");
}
