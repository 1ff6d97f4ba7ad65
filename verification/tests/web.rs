use omnidl::config::{AudioQuality, Config, Cookies, Format, Mode, VideoQuality};
use omnidl::job::{JobState, JobUpdate};
use omnidl::jobs::Jobs;
use omnidl::web::{forwarded_https, host_name, names_localhost, login_reply, retry_link, RetryRefusal, apply_patch, links_to_add, parallel_allowed, refuse, request_config, start_time, Patch, Refusal, CSRF_HEADER};

#[test]
fn the_guard_turns_away_in_order() {
    // No password: proxies and foreign host names are refused first.
    assert_eq!(refuse(false, true, true, true, true, "/", true), Some(Refusal::Proxy));
    assert_eq!(refuse(false, false, false, true, true, "/", true), Some(Refusal::NotLocal));
    assert_eq!(refuse(false, false, true, false, false, "/api/add", true), Some(Refusal::NoToken));
    assert_eq!(refuse(false, false, true, true, false, "/", true), None);
    // With a password: a session or a public path.
    assert_eq!(refuse(true, true, false, true, false, "/login", false), None);
    assert_eq!(refuse(true, false, false, true, false, "/api/state", false), Some(Refusal::Unauthorized));
    assert_eq!(refuse(true, false, false, true, false, "/", false), Some(Refusal::Login));
    assert_eq!(refuse(true, false, false, false, true, "/api/add", true), None);
    assert_eq!(Refusal::Unauthorized.status(), 401);
    assert_eq!(Refusal::NoToken.message(), "Anfrage abgelehnt: Kennung fehlt.");
    assert_eq!(CSRF_HEADER, "x-omnidl");
}

#[test]
fn added_links_are_web_links_once() {
    let texts = vec!["https://a.com/1 youtu.be/x".to_string(), "https://a.com/1\nfile:///etc".to_string()];
    assert_eq!(links_to_add(&texts), Ok(vec!["https://a.com/1".to_string(), "https://youtu.be/x".to_string()]));
    assert_eq!(links_to_add(&vec!["nichts".to_string()]), Err("Kein gültiger Link gefunden."));
    let many: Vec<String> = (0..501).map(|i| format!("https://a.com/{i}")).collect();
    assert_eq!(links_to_add(&many), Err("Zu viele Links auf einmal."));
}

#[test]
fn start_times_in_the_past_start_now() {
    assert_eq!(start_time(None, 1000), Ok(None));
    assert_eq!(start_time(Some(500), 1000), Ok(None));
    assert_eq!(start_time(Some(2000), 1000), Ok(Some(2000)));
    assert_eq!(start_time(Some(1000 + 401 * 86_400), 1000), Err("Die Startzeit liegt zu weit in der Zukunft."));
}

#[test]
fn requests_and_patches_change_the_settings() {
    let cfg = Config::new("/dl".into());
    let c = request_config(cfg.copy(), Some(Mode::Audio), None, None, Some(AudioQuality::K320), Some(false));
    assert_eq!(c.format, Format::Mp3);
    assert_eq!(c.audio_quality, AudioQuality::K320);
    assert!(!c.playlist);

    let mut cfg = Config::new("/dl".into());
    let patch = Patch {
        download_dir: None,
        parallel: Some(8),
        playlist: None,
        cookies: Some(Cookies::Firefox),
        mode: None,
        format: Some(Format::Flac),
        video_quality: Some(VideoQuality::P720),
        audio_quality: None,
    };
    assert_eq!(apply_patch(&mut cfg, patch, Some("/neu".into())), Some(8));
    assert_eq!(cfg.download_dir, "/neu");
    assert_eq!(cfg.format, Format::Flac);
    assert_eq!(cfg.last_audio, Format::Flac);
    assert_eq!(cfg.cookies, Cookies::Firefox);
    assert_eq!(cfg.video_quality, VideoQuality::P720);
    assert!(parallel_allowed(Some(16)) && !parallel_allowed(Some(0)) && !parallel_allowed(Some(17)));
    assert!(parallel_allowed(None));
}

#[test]
fn only_failed_top_level_jobs_come_back() {
    let mut jobs = Jobs::new();
    jobs.apply(1, JobUpdate::New { parent: None, url: "https://a.com".into(), title: "a".into(), source: "Web" });
    jobs.apply(2, JobUpdate::New { parent: Some(1), url: "https://b.com".into(), title: "b".into(), source: "Web" });
    assert_eq!(retry_link(&jobs, 1), Err(RetryRefusal::NotRetryable), "läuft noch");
    jobs.apply(1, JobUpdate::State(JobState::Failed("x".into())));
    jobs.apply(2, JobUpdate::State(JobState::Failed("x".into())));
    assert_eq!(retry_link(&jobs, 1), Ok("https://a.com".to_string()));
    assert_eq!(retry_link(&jobs, 2), Err(RetryRefusal::NotRetryable), "Listeneintrag");
    assert_eq!(retry_link(&jobs, 7), Err(RetryRefusal::Unknown));
}

#[test]
fn login_cookie_is_locked_down() {
    let mut auth = omnidl::auth::Auth::new(Some("pw".into()), false);
    let cookie = login_reply(&mut auth, "pw", 0, false, false).unwrap().unwrap();
    assert!(cookie.starts_with("omnidl_session="), "{cookie}");
    for flag in ["HttpOnly", "SameSite=Strict", "Path=/"] {
        assert!(cookie.contains(flag), "{flag} fehlt: {cookie}");
    }
    assert!(!cookie.contains("Secure"), "ohne HTTPS kein Secure");
}

#[test]
fn login_answers() {
    let mut open = omnidl::auth::Auth::new(None, false);
    assert_eq!(login_reply(&mut open, "egal", 0, false, false), Ok(None));
    let mut auth = omnidl::auth::Auth::new(Some("pw".into()), false);
    assert_eq!(login_reply(&mut auth, "falsch", 0, false, false), Err((401, "Falsches Passwort.")));
    assert_eq!(login_reply(&mut auth, "pw", 0, false, true), Err((429, "Zu viele Versuche. Bitte kurz warten.")));
    let cookie = login_reply(&mut auth, "pw", 0, forwarded_https(Some("HTTPS")), false).unwrap().unwrap();
    assert!(cookie.ends_with("; Secure"));
    let token = &cookie["omnidl_session=".len().."omnidl_session=".len() + 64];
    assert!(auth.allows(Some(token), 5));
    assert!(forwarded_https(Some("https")));
    assert!(!forwarded_https(Some("http")));
    assert!(!forwarded_https(None));
}

#[test]
fn host_headers_give_their_name() {
    for (header, name) in [
        ("localhost", "localhost"),
        ("localhost:8080", "localhost"),
        ("LOCALHOST:1", "LOCALHOST"),
        ("127.0.0.1:8081", "127.0.0.1"),
        ("[::1]:8080", "::1"),
        ("[::1]", "::1"),
        ("evil.example:8080", "evil.example"),
        ("localhost.evil.example", "localhost.evil.example"),
        ("[::2]:80", "::2"),
        ("::1", ":"),
        ("host:99999", "host:99999"),
        ("", ""),
    ] {
        assert_eq!(host_name(header), name, "{header:?}");
    }
    assert!(names_localhost("localhost") && names_localhost("LocalHost"));
    assert!(!names_localhost("localhost.evil.example") && !names_localhost("127.0.0.1") && !names_localhost(""));
}
