use hls_playlist::attribute_list::{parse_attribute_list, parse_quoted_string};
use hls_playlist::playlist::{parse_shared_tag, PlayListVariableDefinition, SharedTag};

#[test]
fn test_parse_version() {
    let tag = parse_shared_tag("#EXT-X-VERSION:3", 3).unwrap();
    assert_eq!(tag, SharedTag::Version(3));

    assert!(parse_shared_tag("#EXT-X-VERSION:abc", 3).is_err());
}

#[test]
fn test_parse_independent_segments() {
    let tag = parse_shared_tag("#EXT-X-INDEPENDENT-SEGMENTS", 3).unwrap();
    assert_eq!(tag, SharedTag::IndependentSegments);
}

#[test]
fn test_parse_start() {
    let tag = parse_shared_tag("#EXT-X-START:TIME-OFFSET=10.5,PRECISE=YES", 3).unwrap();
    match tag {
        SharedTag::Start { precise, time_offset } => {
            assert!(precise);
            assert_eq!(time_offset.as_str().parse::<f64>().unwrap(), 10.5);
        },
        _ => panic!("Expected Start"),
    }

    let tag = parse_shared_tag("#EXT-X-START:TIME-OFFSET=-2.0", 3).unwrap();
    match tag {
        SharedTag::Start { precise, time_offset } => {
            assert!(!precise);
            assert_eq!(time_offset.as_str().parse::<f64>().unwrap(), -2.0);
        },
        _ => panic!("Expected Start"),
    }
}

#[test]
fn test_parse_define_name_value() {
    let tag = parse_shared_tag("#EXT-X-DEFINE:NAME=\"VAR\",VALUE=\"val\"", 3).unwrap();
    if let SharedTag::Variable(PlayListVariableDefinition::NameValue { name, value }) = tag {
        assert_eq!(name, "VAR");
        assert_eq!(value, "val");
    } else {
        panic!("Expected NameValue");
    }
}

#[test]
fn test_parse_define_import() {
    let tag = parse_shared_tag("#EXT-X-DEFINE:IMPORT=\"VAR\"", 3).unwrap();
    if let SharedTag::Variable(PlayListVariableDefinition::Import { name }) = tag {
        assert_eq!(name, "VAR");
    } else {
        panic!("Expected Import");
    }
}

#[test]
fn test_parse_attribute_list() {
    let attrs = parse_attribute_list("NAME=\"VAR\",VALUE=\"val\",BANDWIDTH=1000").unwrap();
    assert!(attrs.contains_key("NAME"));
    assert!(attrs.contains_key("VALUE"));
    assert!(attrs.contains_key("BANDWIDTH"));
}

#[test]
fn test_parse_quoted_string() {
    assert_eq!(parse_quoted_string("\"hello\"").unwrap(), "hello");
    assert!(parse_quoted_string("hello").is_err());
    assert!(parse_quoted_string("\"hello\n\"").is_err());
}
