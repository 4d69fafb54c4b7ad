use hls_playlist::error::UriError;
use hls_playlist::uri::{decode, Uri};

#[test]
fn test_decode_simple() {
    let uri = Uri::parse("https://docs.rs/hello%20world").unwrap();
    assert_eq!(uri.path(), "/hello%20world");
    assert_eq!(uri.decoded_path().unwrap(), "/hello world");
}

#[test]
fn test_decode_query() {
    let uri = Uri::parse("https://cargo.rs/?a=1&b=2%2B2").unwrap();
    assert_eq!(uri.query(), Some("a=1&b=2%2B2"));
    assert_eq!(uri.decoded_query().unwrap(), Some(String::from("a=1&b=2+2")));
}

#[test]
fn test_encode() {
    let raw = "/path with spaces&symbols#";
    let encoded = Uri::encode_component(raw);
    assert_eq!(encoded, "/path%20with%20spaces%26symbols%23");

    let decoded = decode(&encoded).unwrap();
    assert_eq!(decoded, raw);
}

#[test]
fn test_invalid_percent() {
    let uri = Uri::parse("https://docs.rs/%ZZ").unwrap();
    assert!(matches!(uri.decoded_path(), Err(UriError::InvalidPercentEncoding)));
}

#[test]
fn test_display_encoded() {
    let uri = Uri::new("https".to_string(), Some("docs.rs".to_string()), "/a b".to_string(), None, None);
    assert_eq!(uri.to_string(), "https://docs.rs/a b");

    let safe_path = Uri::encode_component("/a b");
    let uri_safe = Uri::new("https".to_string(), Some("docs.rs".to_string()), safe_path, None, None);
    assert_eq!(uri_safe.to_string(), "https://docs.rs/a%20b");
}

#[test]
fn test_parse_relative_path() {
    let uri = Uri::parse("segment.ts").unwrap();
    assert_eq!(uri.scheme(), "");
    assert_eq!(uri.authority(), None);
    assert_eq!(uri.path(), "segment.ts");
    assert_eq!(uri.query(), None);
    assert_eq!(uri.fragment(), None);
    assert_eq!(uri.to_string(), "segment.ts");
}

#[test]
fn test_parse_relative_query_fragment() {
    let uri = Uri::parse("../video.ts?foo=bar#frag").unwrap();
    assert_eq!(uri.scheme(), "");
    assert_eq!(uri.authority(), None);
    assert_eq!(uri.path(), "../video.ts");
    assert_eq!(uri.query(), Some("foo=bar"));
    assert_eq!(uri.fragment(), Some("frag"));
    assert_eq!(uri.to_string(), "../video.ts?foo=bar#frag");
}

#[test]
fn test_parse_network_path_reference() {
    let uri = Uri::parse("//docs.rs/path").unwrap();
    assert_eq!(uri.scheme(), "");
    assert_eq!(uri.authority(), Some("docs.rs"));
    assert_eq!(uri.path(), "/path");
    assert_eq!(uri.to_string(), "//docs.rs/path");
}

#[test]
fn relative_reference_with_query_and_fragment_reads_back() {
    for s in ["a/b.ts?x=1#frag", "#frag", "seg.ts?", "?only", "../up.ts#f"] {
        let uri = Uri::parse(s).unwrap();
        assert_eq!(uri.to_string(), s);
    }
}

#[test]
fn authority_reference_with_query_and_fragment_reads_back() {
    for s in ["//host/p?q#f", "http://host:8080/p?q=1#f", "https://host", "https://host/a/b?c"] {
        let uri = Uri::parse(s).unwrap();
        assert_eq!(uri.to_string(), s);
    }
}
