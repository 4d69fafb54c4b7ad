use hls_playlist::media::{MediaPlaylist, MediaPlaylistItem, PlaylistContext};
use hls_playlist::multivariant::playlist::MultivariantPlaylist;
use hls_playlist::playlist::{PlayListVariableDefinition, SharedTag};

#[test]
fn test_media_playlist_apply_version() {
    let mut playlist = MediaPlaylist::default();
    playlist.apply_shared_tag(SharedTag::Version(3)).unwrap();
    assert_eq!(playlist.get_shared_tags().len(), 1);

    assert!(playlist.apply_shared_tag(SharedTag::Version(4)).is_err());
}

#[test]
fn test_media_playlist_apply_define() {
    let mut playlist = MediaPlaylist::default();
    playlist
        .apply_shared_tag(SharedTag::Variable(PlayListVariableDefinition::NameValue {
            name: "VAR".to_string(),
            value: "VAL".to_string(),
        }))
        .unwrap();
    assert_eq!(playlist.get_variables().len(), 1);

    assert!(playlist
        .apply_shared_tag(SharedTag::Variable(PlayListVariableDefinition::NameValue {
            name: "VAR".to_string(),
            value: "VAL2".to_string(),
        }))
        .is_err());
}

#[test]
fn test_media_playlist_validate_import_fail() {
    let mut playlist = MediaPlaylist::default();
    playlist.items.push(MediaPlaylistItem::SharedTag(SharedTag::Variable(PlayListVariableDefinition::Import {
        name: "IMPORT_ME".to_string(),
    })));

    let ctx = PlaylistContext { uri: "playlist.m3u8", parent_multivariant: None };

    assert!(playlist.validate(&ctx).is_err());
}

#[test]
fn test_multivariant_playlist_apply_version() {
    let mut playlist = MultivariantPlaylist::default();
    playlist.apply_shared_tag(SharedTag::Version(3)).unwrap();
    assert_eq!(playlist.shared_tags.len(), 1);

    assert!(playlist.apply_shared_tag(SharedTag::Version(4)).is_err());
}

#[test]
fn test_multivariant_playlist_apply_import_fail() {
    let mut playlist = MultivariantPlaylist::default();
    assert!(playlist
        .apply_shared_tag(SharedTag::Variable(PlayListVariableDefinition::Import { name: "BAD".to_string() }))
        .is_err());
}

#[test]
fn test_multivariant_playlist_apply_define() {
    let mut playlist = MultivariantPlaylist::default();
    playlist
        .apply_shared_tag(SharedTag::Variable(PlayListVariableDefinition::NameValue {
            name: "VAR".to_string(),
            value: "VAL".to_string(),
        }))
        .unwrap();
    assert_eq!(playlist.variables.len(), 1);
}
