use hls_playlist::attribute_list::{parse_decimal_integer, parse_decimal_resolution, parse_hex_sequence};
use hls_playlist::codecs::fourcc::Fourcc;
use hls_playlist::decimal::DecimalFloat;
use hls_playlist::playlist::{parse_shared_tag, PlayListVariableDefinition, SharedTag};

#[test]
fn decimal_integer_is_one_to_twenty_digits() {
    assert_eq!(parse_decimal_integer("007").unwrap(), 7);
    assert_eq!(parse_decimal_integer("18446744073709551615").unwrap(), u64::MAX);
    assert!(parse_decimal_integer("+5").is_err());
    assert!(parse_decimal_integer("000000000000000000007").is_err());
    assert!(parse_decimal_integer("18446744073709551616").is_err());
    assert!(parse_decimal_integer("").is_err());
}

#[test]
fn decimal_resolution_takes_plain_digits() {
    assert_eq!(parse_decimal_resolution("1920x1080").unwrap(), (1920, 1080));
    assert!(parse_decimal_resolution("+1920x1080").is_err());
    assert!(parse_decimal_resolution("1920").is_err());
}

#[test]
fn hex_sequence_takes_one_prefix_of_either_case() {
    assert_eq!(parse_hex_sequence("0X1A2B").unwrap(), vec![0x1a, 0x2b]);
    assert_eq!(parse_hex_sequence("0x1a2b").unwrap(), vec![0x1a, 0x2b]);
    assert!(parse_hex_sequence("0x0x12").is_err());
    assert!(parse_hex_sequence("1a2b").is_err());
}

#[test]
fn fourcc_of_takes_four_ascii_bytes() {
    assert_eq!(Fourcc::of("hvc1").unwrap(), Fourcc::new(b"hvc1"));
    assert!(Fourcc::of("ab\u{e9}").is_err());
    assert!(Fourcc::of("abcde").is_err());
}

#[test]
fn start_tag_not_precise_reads_back() {
    let tag = SharedTag::Start { precise: false, time_offset: DecimalFloat::parse("-10.5", true).unwrap() };
    let text = tag.to_string();
    assert_eq!(text, "#EXT-X-START:PRECISE=false,TIME-OFFSET=-10.5");
    assert_eq!(parse_shared_tag(&text, 3).unwrap(), tag);
}

#[test]
fn definitions_read_back() {
    let tag = SharedTag::Variable(PlayListVariableDefinition::NameValue {
        name: "host-1".to_string(),
        value: "a, b = c".to_string(),
    });
    let text = tag.to_string();
    assert_eq!(text, "#EXT-X-DEFINE:NAME=\"host-1\",VALUE=\"a, b = c\"");
    assert_eq!(parse_shared_tag(&text, 2).unwrap(), tag);
    let import = SharedTag::Variable(PlayListVariableDefinition::Import { name: "token".to_string() });
    assert_eq!(parse_shared_tag(&import.to_string(), 2).unwrap(), import);
    assert_eq!(parse_shared_tag(&SharedTag::IndependentSegments.to_string(), 2).unwrap(), SharedTag::IndependentSegments);
}

#[test]
fn uri_text_reads_back() {
    for text in ["http://example.com:8080/a/b.ts?x=1:2", "seg/1.ts?token=abc", "https://cdn.example.com"] {
        let u = hls_playlist::uri::Uri::parse(text).unwrap();
        assert_eq!(u.to_string(), text);
    }
}
