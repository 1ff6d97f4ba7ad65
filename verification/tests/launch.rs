use omnidl::config::Mode;
use omnidl::launch::{is_web_link, mode_from, parse, parse_link, Launch, SCHEME};

fn args(list: &[&str]) -> Vec<String> {
    list.iter().map(|s| s.to_string()).collect()
}

fn build_link(urls: &[String], mode: Option<Mode>) -> String {
    let parts: Vec<String> = urls.iter().map(|u| format!("url={}", urlencoding::encode(u))).collect();
    let mode = match mode {
        Some(Mode::Audio) => "&mode=audio",
        Some(Mode::Video) => "&mode=video",
        None => "",
    };
    format!("{SCHEME}://add?{}{mode}", parts.join("&"))
}

#[test]
fn links_from_the_browser() {
    let l = parse(args(&["omnidl://add?url=https%3A%2F%2Fyoutu.be%2Fabc%3Ft%3D1&mode=audio"]));
    assert_eq!(l.urls, vec!["https://youtu.be/abc?t=1"]);
    assert_eq!(l.mode, Some(Mode::Audio));
    assert!(!l.restarted);

    // Browsers sometimes add or drop the slashes.
    let (urls, mode) = parse_link("omnidl:add?url=https://a.com/x&url=https://b.com/").unwrap();
    assert_eq!(urls, vec!["https://a.com/x", "https://b.com/"]);
    assert_eq!(mode, None);
    assert!(parse_link("omnidl://add/?url=https://a.com").is_some());
}

#[test]
fn roundtrip_through_build_link() {
    let urls = args(&["https://www.youtube.com/watch?v=a&list=PL1", "spotify:track:2FZcjBYK4dTt48q94pJbJD"]);
    let (back, mode) = parse_link(&build_link(&urls, Some(Mode::Video))).unwrap();
    assert_eq!(back, urls);
    assert_eq!(mode, Some(Mode::Video));
}

#[test]
fn refuses_anything_but_web_links() {
    let (urls, _) = parse_link("omnidl://add?url=file%3A%2F%2F%2FC%3A%2FWindows&url=javascript%3Aalert(1)").unwrap();
    assert!(urls.is_empty());
    assert!(parse_link("omnidl://delete?url=https://a.com").is_none());
    assert!(parse_link("https://a.com").is_none());
    assert!(!is_web_link("https://a.com/\nx"));
    assert!(!is_web_link(&format!("https://a.com/{}", "x".repeat(5000))));
}

#[test]
fn plain_arguments_and_flags() {
    let l = parse(args(&["--restarted", "https://vimeo.com/1", "--unknown", "C:\\datei.txt"]));
    assert!(l.restarted);
    assert!(!l.uninstall);
    assert!(parse(args(&["--uninstall"])).uninstall);
    assert_eq!(l.urls, vec!["https://vimeo.com/1"]);
    assert_eq!(parse(args(&[])), Launch::default());
}

#[test]
fn modes_by_name() {
    assert_eq!(mode_from("audio"), Some(Mode::Audio));
    assert_eq!(mode_from("video"), Some(Mode::Video));
    assert_eq!(mode_from("bild"), None);
}
