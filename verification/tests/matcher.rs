use omnidl::matcher::{normalize, strip_artist};

#[test]
fn normalizes_noise_away() {
    assert_eq!(normalize("Bass Persuades (Official Video)"), "bass persuades");
    assert_eq!(normalize("Miley Cyrus - Bass Persuades [Lyrics]"), "miley cyrus bass persuades");
    assert_eq!(normalize("Song Official Audio"), "song");
}

#[test]
fn artist_names_leave_the_title() {
    let artists = vec!["Miley Cyrus".to_string()];
    assert_eq!(strip_artist("miley cyrus bass persuades", &artists), "bass persuades");
}

#[test]
fn normalized_titles_have_single_spaces() {
    let n = normalize("  Daft Punk - One More Time (Official Video) [HD]  ");
    assert!(!n.contains("  ") && !n.starts_with(' ') && !n.ends_with(' '), "{n:?}");
    assert!(!n.contains(['(', ')', '[', ']']));
    assert_eq!(normalize(&n), n);
}

#[test]
fn normalizing_twice_changes_nothing() {
    for title in ["Björk – Jóga (Live) HD", "AC/DC: T.N.T. [Remastered] Official Video", "video", "  ", "Ünïcode Sóng 2 Lyrics"] {
        let once = normalize(title);
        assert_eq!(normalize(&once), once, "{title:?}");
    }
}
