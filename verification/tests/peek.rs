use omnidl::peek::{endpoint, parse_title};

#[test]
fn single_items_of_known_sites_only() {
    let yt = endpoint("https://www.youtube.com/watch?v=R6MlUcmOul8").unwrap();
    assert_eq!(yt, "https://www.youtube.com/oembed?format=json&url=https%3A%2F%2Fwww.youtube.com%2Fwatch%3Fv%3DR6MlUcmOul8");
    assert!(endpoint("https://youtu.be/abc").unwrap().starts_with("https://www.youtube.com/oembed"));
    assert!(endpoint("https://open.spotify.com/track/4PTG3Z6ehGkBFwjybzWkR8").unwrap().starts_with("https://open.spotify.com/oembed"));
    assert!(endpoint("https://vimeo.com/76979871").unwrap().starts_with("https://vimeo.com/api/oembed.json"));
    assert!(endpoint("https://www.tiktok.com/@u/video/1").is_some());
    assert!(endpoint("https://soundcloud.com/a/b").is_some());

    // Lists get their name from the list itself; a video URL inside a playlist
    // would name the wrong thing.
    assert_eq!(endpoint("https://www.youtube.com/watch?v=a&list=PL1"), None);
    assert_eq!(endpoint("https://soundcloud.com/a/sets/b"), None);
    assert_eq!(endpoint("https://notvimeo.com/1"), None);
    assert_eq!(endpoint("https://example.com/x"), None);
}

#[test]
fn reads_the_title_field() {
    assert_eq!(parse_title(Some("  Tears of Steel  ")).as_deref(), Some("Tears of Steel"));
    assert_eq!(parse_title(Some("")), None);
    assert_eq!(parse_title(None), None);
    assert_eq!(parse_title(Some(&"x".repeat(500))).unwrap().len(), 300);
}

#[test]
fn links_are_percent_encoded_byte_by_byte() {
    let e = endpoint("https://vimeo.com/ä b").unwrap();
    assert!(e.ends_with("https%3A%2F%2Fvimeo.com%2F%C3%A4%20b"), "{e}");
}
