use omnidl::files::{content_type, parse_range, unique_names, Range};

#[test]
fn ranges() {
    assert_eq!(parse_range("bytes=0-99", 1000), Range::Part(0, 99));
    assert_eq!(parse_range("bytes=900-", 1000), Range::Part(900, 999));
    assert_eq!(parse_range("bytes=-100", 1000), Range::Part(900, 999));
    assert_eq!(parse_range("bytes=-5000", 1000), Range::Part(0, 999));
    assert_eq!(parse_range("bytes=990-2000", 1000), Range::Part(990, 999));
    assert_eq!(parse_range("bytes=1000-", 1000), Range::Unsatisfiable);
    assert_eq!(parse_range("bytes=-0", 1000), Range::Unsatisfiable);
    assert_eq!(parse_range("bytes=0-1,5-6", 1000), Range::Ignore);
    assert_eq!(parse_range("bytes=5-1", 1000), Range::Ignore);
    assert_eq!(parse_range("items=0-1", 1000), Range::Ignore);
    assert_eq!(parse_range("bytes=x-1", 1000), Range::Ignore);
}

#[test]
fn media_types() {
    assert_eq!(content_type("x.MP4"), "video/mp4");
    assert_eq!(content_type("x.opus"), "audio/ogg");
    assert_eq!(content_type("x.html"), "application/octet-stream", "nichts, was der Browser ausführt");
    assert_eq!(content_type("ohne"), "application/octet-stream");
}

#[test]
fn duplicate_names_get_numbered() {
    let e = |n: &str| (n.to_string(), n.to_string());
    let names: Vec<String> =
        unique_names(vec![e("a.mp3"), e("A.mp3"), e("b"), e("b"), e("a.mp3")]).into_iter().map(|(n, _)| n).collect();
    assert_eq!(names, vec!["a.mp3", "A (2).mp3", "b", "b (2)", "a (3).mp3"]);
}

#[test]
fn unique_names_keep_the_paths_in_place() {
    let out = unique_names(vec![("x.mp3".to_string(), "/1/x.mp3".to_string()), ("X.MP3".to_string(), "/2/X.MP3".to_string())]);
    assert_eq!(out[0], ("x.mp3".to_string(), "/1/x.mp3".to_string()));
    assert_eq!(out[1], ("X (2).MP3".to_string(), "/2/X.MP3".to_string()));
}

#[test]
fn a_range_never_reaches_past_the_end() {
    for text in ["bytes=0-", "bytes=5-5", "bytes=-1", "bytes=0-999999"] {
        match parse_range(text, 10) {
            Range::Part(s, e) => assert!(s <= e && e < 10, "{text}"),
            other => panic!("{text}: {other:?}"),
        }
    }
    assert_eq!(parse_range("bytes=0-", 0), Range::Unsatisfiable);
}

#[test]
fn downloads_keep_their_real_name() {
    assert_eq!(
        omnidl::files::disposition("Ärger \"live\".mp3"),
        "attachment; filename=\"_rger _live_.mp3\"; filename*=UTF-8''%C3%84rger%20%22live%22.mp3"
    );
    assert_eq!(omnidl::files::disposition("a b.mp4"), "attachment; filename=\"a b.mp4\"; filename*=UTF-8''a%20b.mp4");
}

#[test]
fn filenames_survive_in_utf8() {
    let s = omnidl::files::disposition("Björk – Jóga \"live\".mp3");
    assert!(s.starts_with("attachment; filename=\"Bj_rk _ J_ga _live_.mp3\""), "{s}");
    assert!(s.contains("filename*=UTF-8''Bj%C3%B6rk%20%E2%80%93%20J%C3%B3ga%20%22live%22.mp3"), "{s}");
    assert!(omnidl::files::disposition("a\r\nb.mp4").contains("filename=\"a__b.mp4\""));
}

#[test]
fn range_rules_hold() {
    assert_eq!(parse_range(" bytes=0-1,5-6", 1000), Range::Ignore);
    assert_eq!(parse_range("items=0-1", 1000), Range::Ignore);
    assert!(!matches!(parse_range("bytes=0-", 0), Range::Part(..)));
    let names = unique_names(vec![
        ("A.mp3".to_string(), "/x/1".to_string()),
        ("a.mp3".to_string(), "/x/2".to_string()),
        ("a (2).mp3".to_string(), "/x/3".to_string()),
    ]);
    let lower: Vec<String> = names.iter().map(|(n, _)| n.to_lowercase()).collect();
    assert_eq!(lower, vec!["a.mp3", "a (2).mp3", "a (2) (2).mp3"]);
}
