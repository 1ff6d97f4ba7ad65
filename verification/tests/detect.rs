use omnidl::detect::{detect, split_urls, Source, SpotifyKind};

#[test]
fn youtube() {
    assert_eq!(detect("https://www.youtube.com/watch?v=abc"), Source::YouTube { playlist: false });
    assert_eq!(detect("https://youtu.be/abc"), Source::YouTube { playlist: false });
    assert_eq!(detect("https://youtube.com/shorts/abc"), Source::YouTube { playlist: false });
    assert_eq!(detect("https://www.youtube.com/watch?v=a&list=PL1"), Source::YouTube { playlist: true });
    assert_eq!(detect("https://www.youtube.com/playlist?list=PL1"), Source::YouTube { playlist: true });
    assert_eq!(detect("https://m.youtube.com/@channel"), Source::YouTube { playlist: true });
    assert_eq!(detect("https://music.youtube.com/watch?v=abc"), Source::YouTube { playlist: false });
}

#[test]
fn spotify() {
    assert_eq!(
        detect("https://open.spotify.com/intl-de/track/2FZcjBYK4dTt48q94pJbJD?si=x"),
        Source::Spotify(SpotifyKind::Track, "2FZcjBYK4dTt48q94pJbJD".into())
    );
    assert_eq!(
        detect("spotify:playlist:37i9dQZF1DXcBWIGoYBM5M"),
        Source::Spotify(SpotifyKind::Playlist, "37i9dQZF1DXcBWIGoYBM5M".into())
    );
    assert_eq!(
        detect("https://open.spotify.com/album/4aawyAB9vmqN3uQ7FjRGTy"),
        Source::Spotify(SpotifyKind::Album, "4aawyAB9vmqN3uQ7FjRGTy".into())
    );
    assert_eq!(detect("https://spotify.link/abcdef"), Source::SpotifyShort);
}

#[test]
fn others() {
    assert_eq!(detect("https://www.tiktok.com/@u/video/123"), Source::TikTok);
    assert_eq!(detect("https://www.tiktok.com/@u/photo/123"), Source::TikTokPhoto);
    assert_eq!(detect("https://vm.tiktok.com/ZMabc/"), Source::TikTok);
    assert_eq!(detect("https://x.com/u/status/1"), Source::Twitter);
    assert_eq!(detect("https://soundcloud.com/a/sets/b"), Source::SoundCloud { set: true });
    assert_eq!(detect("https://vimeo.com/1"), Source::Generic);
}

#[test]
fn split() {
    let v = split_urls("https://a.com/x\n youtu.be/abc  <https://b.com>\nfoo");
    assert_eq!(v, vec!["https://a.com/x", "https://youtu.be/abc", "https://b.com"]);
}

#[test]
fn labels_and_lists() {
    assert_eq!(detect("https://www.youtube.com/playlist?list=PL1").label(), "YouTube-Playlist");
    assert!(detect("https://soundcloud.com/a/sets/b").is_list());
    assert!(!detect("https://youtu.be/abc").is_list());
    assert_eq!(SpotifyKind::Album.path(), "album");
}

#[test]
fn captured_spotify_kinds_and_hosts_decide() {
    let caps = Some(("Album".to_string(), "4aawyAB9vmqN3uQ7FjRGTy".to_string()));
    assert_eq!(
        omnidl::detect::source_of("https://open.spotify.com/album/4aawyAB9vmqN3uQ7FjRGTy", caps),
        Source::Spotify(SpotifyKind::Album, "4aawyAB9vmqN3uQ7FjRGTy".to_string())
    );
    assert_eq!(omnidl::detect::source_of(" https://www.tiktok.com/@a/photo/1 ", None), Source::TikTokPhoto);
    assert_eq!(omnidl::detect::source_of("https://m.youtube.com/playlist?list=x", None), Source::YouTube { playlist: true });
}
