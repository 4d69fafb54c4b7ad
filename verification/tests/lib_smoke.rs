use hls_playlist::parser::Playlist;

#[test]
fn it_works() {}

#[test]
fn parses_minimal_playlist() {
    let p: Playlist = "#EXTM3U\n".parse().unwrap();
    assert!(p.as_media().is_some());
}
