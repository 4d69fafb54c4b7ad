use hls_playlist::media::{MediaExclusiveTag, PlayListType};
use hls_playlist::parser::Playlist;
use hls_playlist::playlist::SharedTag;
use hls_playlist::segment::DurationValue;
use hls_playlist::uri::Uri;

fn seconds(d: &DurationValue) -> f64 {
    match d {
        DurationValue::Int(n) => *n as f64,
        DurationValue::Float(f) => f.as_str().parse::<f64>().unwrap(),
    }
}

const DEAD_SIMPLE_MEDIA: &str = "#EXTM3U
#EXT-X-TARGETDURATION:10
#EXT-X-VERSION:3
#EXTINF:9.009,
http://media.example.com/first.ts
#EXTINF:9.009,
http://media.example.com/second.ts
#EXTINF:3.003,
http://media.example.com/third.ts
#EXT-X-ENDLIST
";

const MEDIA_WITH_TAGS: &str = "#EXTM3U
#EXT-X-VERSION:7
#EXT-X-INDEPENDENT-SEGMENTS
#EXT-X-START:TIME-OFFSET=0.0,PRECISE=YES
#EXT-X-TARGETDURATION:8
#EXT-X-MEDIA-SEQUENCE:42
#EXT-X-PLAYLIST-TYPE:VOD
#EXTINF:8.000,Episode intro
segment-0001.ts
#EXTINF:8.000,Episode segment 2
segment-0002.ts
#EXTINF:8.000,Episode segment 3
segment-0003.ts
#EXT-X-ENDLIST
";

#[test]
fn simple_media() {
    let playlist = Playlist::parse(DEAD_SIMPLE_MEDIA);
    match playlist {
        Ok(p) => {
            assert!(matches!(p, Playlist::Media(_)));
            let media = p.as_media();
            assert!(media.is_some());
            if let Some(media) = media {
                assert!(media.get_shared_tags().contains(&&SharedTag::Version(3)));
                assert!(media.get_exclusive_tags().contains(&&MediaExclusiveTag::TargetDuration(10)));
                let segments = media.get_segments();
                assert_eq!(segments.len(), 3);
                let mut iter = segments.iter();
                assert_eq!(seconds(iter.next().unwrap().get_duration()), 9.009);
                assert_eq!(seconds(iter.next().unwrap().get_duration()), 9.009);
                assert_eq!(seconds(iter.next().unwrap().get_duration()), 3.003);
                assert_eq!(media.get_exclusive_tags().last(), Some(&&MediaExclusiveTag::EndList));
            }
        },
        Err(e) => panic!("Failed due to: {:?}", e),
    }
}

#[test]
fn media_with_tags() {
    let playlist = Playlist::parse(MEDIA_WITH_TAGS);
    match playlist {
        Ok(p) => {
            assert!(matches!(p, Playlist::Media(_)));
            let media = p.as_media();
            assert!(media.is_some());
            if let Some(media) = media {
                let shared = media.get_shared_tags();
                assert!(shared.contains(&&SharedTag::Version(7)));
                assert!(shared.contains(&&SharedTag::IndependentSegments));
                assert!(shared.iter().any(|t| match t {
                    SharedTag::Start { precise, time_offset } => {
                        *precise && time_offset.as_str().parse::<f64>().unwrap() == 0.0
                    },
                    _ => false,
                }));
                let tags = media.get_exclusive_tags();
                assert!(tags.contains(&&MediaExclusiveTag::TargetDuration(8)));
                assert!(tags.contains(&&MediaExclusiveTag::MediaSequence(42)));
                assert!(tags.contains(&&MediaExclusiveTag::PlaylistType(PlayListType::Vod)));
                assert!(tags.contains(&&MediaExclusiveTag::EndList));
                let segments = media.get_segments();
                assert_eq!(segments.len(), 3);
                for (i, seg) in segments.iter().enumerate() {
                    assert_eq!(seconds(seg.get_duration()), 8.000);
                    assert_eq!(seg.get_uri(), &Uri::parse(format!("segment-000{}.ts", i + 1).as_str()).unwrap());
                    if i == 0 {
                        assert_eq!(seg.get_title(), Some("Episode intro".into()));
                    } else {
                        assert_eq!(seg.get_title(), Some(format!("Episode segment {}", i + 1)));
                    }
                }
                assert_eq!(media.get_exclusive_tags().last(), Some(&&MediaExclusiveTag::EndList));
            }
        },
        Err(e) => panic!("Failed due to: {:?}", e),
    }
}
