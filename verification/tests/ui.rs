use omnidl::deps::DepsStatus;
use omnidl::update::Status;
use omnidl::ui::{
    banner, browser_note, link_badge, row_buttons, status_line, tool_rows, tools_note, truncate_start, update_banner, update_note,
    version_button, Action, BannerState, BannerTone, Dismiss, Hue, RowButtons,
};

#[test]
fn long_paths_keep_their_end() {
    assert_eq!(truncate_start("C:/kurz", 10), "C:/kurz");
    assert_eq!(truncate_start("C:/Users/name/Downloads/omnidl", 12), "…oads/omnidl");
}

#[test]
fn no_room_leaves_the_ellipsis() {
    assert_eq!(truncate_start("abc", 0), "…");
    assert_eq!(truncate_start("abc", 1), "…");
    assert_eq!(truncate_start("abc", 2), "…c");
}

fn ready() -> DepsStatus {
    DepsStatus { ytdlp: Some("2026.01.01".into()), ffmpeg: true, js: Some("deno".into()), gallery: true, ..DepsStatus::new() }
}

fn state<'a>(deps: &'a DepsStatus, update: &'a Status) -> BannerState<'a> {
    BannerState { deps, deps_checked: true, update, update_hidden: false, has_release: false, hide_warning: false }
}

#[test]
fn banners_put_the_most_urgent_first() {
    let idle = Status::Idle;
    let d = ready();
    assert!(banner(&state(&d, &idle)).is_none());

    let check = DepsStatus { busy: Some("Prüfe Tools …".into()), ..DepsStatus::new() };
    assert!(banner(&BannerState { deps_checked: false, ..state(&check, &idle) }).is_none(), "Routineprüfung");
    let b = banner(&state(&check, &idle)).unwrap();
    assert_eq!((b.tone, b.text.as_str()), (BannerTone::Busy, "Prüfe Tools …"));

    let broken = DepsStatus { error: Some("kein Netz".into()), ..ready() };
    let b = banner(&state(&broken, &idle)).unwrap();
    assert_eq!(b.text, "Werkzeuge konnten nicht eingerichtet werden: kein Netz");
    assert_eq!(b.action, Some(("Erneut versuchen", Action::UpdateTools)));

    let no_ff = DepsStatus { ffmpeg: false, ..ready() };
    assert_eq!(banner(&state(&no_ff, &idle)).unwrap().text, "ffmpeg fehlt – ohne geht keine Umwandlung.");

    let old = DepsStatus { ytdlp_age_days: Some(20), ..ready() };
    let b = banner(&state(&old, &idle)).unwrap();
    assert!(b.text.starts_with("yt-dlp wurde seit 20 Tagen"), "{}", b.text);
    assert_eq!(b.dismiss, Some(Dismiss::ToolWarning));
    assert!(banner(&BannerState { hide_warning: true, ..state(&old, &idle) }).is_none());

    let ready_update = Status::Ready("0.3.0".into());
    let b = banner(&state(&old, &ready_update)).unwrap();
    assert_eq!(b.action, Some(("Neu starten", Action::Restart)), "Update vor Warnung");
}

#[test]
fn update_banners_and_notes() {
    let dl = Status::Downloading { version: "0.3.0".into(), frac: Some(4550) };
    let b = update_banner(&dl, false, false).unwrap();
    assert_eq!((b.tone, b.text.as_str()), (BannerTone::Busy, "Lade omnidl 0.3.0 … 46 %"));
    assert_eq!(update_note(&dl), ("Lade Version 0.3.0 … 46 %".to_string(), Hue::Blue));
    let failed = Status::Failed("kaputt".into());
    assert!(update_banner(&failed, false, false).is_none(), "ohne bekanntes Release");
    assert_eq!(update_banner(&failed, false, true).unwrap().text, "Update fehlgeschlagen: kaputt");
    assert_eq!(update_note(&Status::Idle).0, "Updates kommen von github.com/Hattinga/omnidl.");
    assert_eq!(update_note(&failed), ("kaputt".to_string(), Hue::Red));
    assert_eq!(browser_note(Err("Port belegt".into()), None), ("Nicht verfügbar: Port belegt.".to_string(), Hue::Red));
}

#[test]
fn tool_rows_name_what_is_missing() {
    let d = DepsStatus { ytdlp_age_days: Some(30), js: Some("node".into()), gallery: false, ..ready() };
    let rows = tool_rows(&d);
    assert_eq!(rows[0], ("yt-dlp", "2026.01.01 · veraltet".to_string(), Hue::Orange));
    assert_eq!(rows[1], ("ffmpeg", "bereit".to_string(), Hue::Secondary));
    assert_eq!(rows[2], ("JavaScript-Laufzeit", "Node.js".to_string(), Hue::Secondary));
    assert_eq!(rows[3], ("gallery-dl", "fehlt".to_string(), Hue::Orange));
}

#[test]
fn status_colors_follow_the_tone() {
    let mut jobs = omnidl::jobs::Jobs::new();
    let url = "https://example.com/1".to_string();
    jobs.apply(1, omnidl::job::JobUpdate::New { parent: None, url: url.clone(), title: url, source: "Web" });
    jobs.apply(1, omnidl::job::JobUpdate::State(omnidl::job::JobState::Failed("kaputt".into())));
    assert_eq!(status_line(jobs.get(1).unwrap(), false), ("Web · kaputt".to_string(), Hue::Red));
}

#[test]
fn tools_note_prefers_work_then_errors() {
    let busy = DepsStatus { busy: Some("Lade ffmpeg …".into()), error: Some("alt".into()), ..ready() };
    assert_eq!(tools_note(&busy), ("Lade ffmpeg …".to_string(), Hue::Blue));
    let failed = DepsStatus { error: Some("kein Netz".into()), ..ready() };
    assert_eq!(tools_note(&failed), ("kein Netz".to_string(), Hue::Red));
    assert_eq!(
        tools_note(&ready()),
        ("Scheitern YouTube-Downloads, zuerst yt-dlp aktualisieren.".to_string(), Hue::Secondary)
    );
}

#[test]
fn version_button_follows_the_update_state() {
    assert_eq!(version_button(&Status::Ready("0.3.0".into())), Some(("Neu starten", Some(Action::Restart))));
    assert_eq!(version_button(&Status::Checking), None);
    assert_eq!(version_button(&Status::Downloading { version: "0.3.0".into(), frac: None }), None);
    assert_eq!(version_button(&Status::Idle), Some(("Nach Updates suchen", None)));
    assert_eq!(version_button(&Status::Failed("x".into())), Some(("Nach Updates suchen", None)));
}

#[test]
fn link_badge_names_the_site_or_counts() {
    assert_eq!(link_badge(&vec![]), None);
    assert_eq!(link_badge(&vec!["https://www.youtube.com/watch?v=abc".to_string()]), Some("YouTube".to_string()));
    let many = vec!["https://a.example/1".to_string(), "https://a.example/2".to_string(), "https://a.example/3".to_string()];
    assert_eq!(link_badge(&many), Some("3 Links".to_string()));
}

#[test]
fn row_buttons_fit_the_state() {
    let mut jobs = omnidl::jobs::Jobs::new();
    let url = "https://example.com/1".to_string();
    jobs.apply(1, omnidl::job::JobUpdate::New { parent: None, url: url.clone(), title: url, source: "Web" });
    jobs.apply(1, omnidl::job::JobUpdate::State(omnidl::job::JobState::Failed("kaputt".into())));
    let failed = row_buttons(jobs.get(1).unwrap(), false);
    assert_eq!(failed, RowButtons { stop: false, start_now: false, retry: true, reveal: false, expand: false });
    assert!(!row_buttons(jobs.get(1).unwrap(), true).retry, "items of a list are not tried alone");
    jobs.apply(1, omnidl::job::JobUpdate::State(omnidl::job::JobState::Scheduled(1_700_000_000)));
    let waiting = row_buttons(jobs.get(1).unwrap(), false);
    assert_eq!(waiting, RowButtons { stop: true, start_now: true, retry: false, reveal: false, expand: false });
}
