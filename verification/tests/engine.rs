use omnidl::config::Config;
use omnidl::detect::SpotifyKind;
use omnidl::engine::{
    after_candidate, after_gallery, after_item, after_single, duration_window, entry_template, looks_like_photo_post,
    merge_details, permit_change, route, route_redirected, track_key, track_label, track_template, track_url,
    collection_plan, installed, list_plan, tools_ready, update_news, SpotifyPlan, wait_step, Counter, GroupRun, GroupStep, Next, Route,
};
use omnidl::deps::DepsStatus;
use omnidl::update::{Asset, Release, Status};
use omnidl::job::{JobState, JobUpdate};
use omnidl::spotify::{Collection, Track};
use omnidl::ytdlp::Outcome;

fn track(id: &str, title: &str, artists: &[&str]) -> Track {
    Track {
        id: id.into(),
        title: title.into(),
        artists: artists.iter().map(|a| a.to_string()).collect(),
        duration_ms: 0,
        album: None,
        cover: None,
        number: None,
    }
}

#[test]
fn photo_posts_trigger_the_gallery_fallback() {
    assert!(looks_like_photo_post("No video formats found!; please report this issue"));
    assert!(looks_like_photo_post("Unsupported URL: https://example.com/x"));
    assert!(looks_like_photo_post("There's no video in this post"));
    // Echte Fehler dürfen nicht umgeleitet werden
    assert!(!looks_like_photo_post("Video unavailable. This video is private"));
    assert!(!looks_like_photo_post("HTTP Error 429: Too Many Requests"));
    assert!(!looks_like_photo_post("Requested post not available"));
}

#[test]
fn spotify_tracks_have_stable_keys() {
    let mut t = track("abc", "Song", &["A"]);
    assert_eq!(track_key(&t), "abc");
    t.id.clear();
    assert_eq!(track_key(&t), "A - Song");
}

fn items(updates: Vec<(JobUpdate, JobUpdate)>) -> Vec<(u32, u32)> {
    updates
        .into_iter()
        .map(|(a, _)| match a {
            JobUpdate::Item { index, count } => (index, count),
            other => panic!("{other:?}"),
        })
        .collect()
}

#[test]
fn group_counter_tracks_progress_and_outcome() {
    let mut c = Counter::new(1, 3);
    let mut seen = Vec::new();
    seen.push(c.record(true));
    seen.push(c.record(false));
    assert_eq!(c.final_state(), JobState::Failed("1 von 3 fehlgeschlagen".into()));
    seen.push(c.record(true));
    assert_eq!(c.final_state(), JobState::Failed("1 von 3 fehlgeschlagen".into()));
    assert_eq!(items(seen), vec![(1, 3), (2, 3), (3, 3)], "zählt jeden Abschluss");

    let mut all_ok = Counter::new(1, 2);
    all_ok.record(true);
    all_ok.record(true);
    assert_eq!(all_ok.final_state(), JobState::Done);
}

#[test]
fn resumed_groups_count_finished_items() {
    let mut c = Counter::new(7, 10);
    let mut seen = Vec::new();
    seen.extend(c.resume(4));
    assert!(c.resume(0).is_none());
    seen.push(c.record(true));
    assert_eq!(items(seen), vec![(4, 10), (5, 10)]);
}

#[test]
fn counter_reports_the_share_and_all_failures() {
    let mut c = Counter::new(3, 4);
    let (_, p) = c.record(false);
    match p {
        JobUpdate::Progress { frac, speed, eta } => assert_eq!((frac, speed, eta), (Some(2500), None, None)),
        other => panic!("{other:?}"),
    }
    c.record(false);
    assert_eq!(c.final_state(), JobState::Failed("alle 2 fehlgeschlagen".into()));
}

#[test]
fn links_go_where_they_belong() {
    assert!(matches!(route("https://open.spotify.com/album/4aawyAB9vmqN3uQ7FjRGTy", true),
        Route::Spotify(SpotifyKind::Album, ref id) if id == "4aawyAB9vmqN3uQ7FjRGTy"));
    assert!(matches!(route("https://spotify.link/abc", true), Route::Redirect));
    assert!(matches!(route("https://www.youtube.com/playlist?list=PL1", true), Route::List));
    assert!(matches!(route("https://www.youtube.com/playlist?list=PL1", false), Route::Single));
    assert!(matches!(route("https://youtu.be/abc", true), Route::Single));
    assert!(matches!(route_redirected("https://example.com/x"), Route::Single));
}

fn outcome(files: &[&str], error: Option<&str>, cancelled: bool) -> Outcome {
    Outcome {
        files: files.iter().map(|f| f.to_string()).collect(),
        filtered: false,
        error: error.map(|e| e.to_string()),
        cancelled,
    }
}

#[test]
fn runs_end_as_their_outcome_says() {
    assert!(matches!(after_single(&outcome(&["a", "b"], None, false)), Next::Saved(ref f) if f == "b"));
    assert!(matches!(after_single(&outcome(&[], None, true)), Next::Finish(JobState::Cancelled)));
    assert!(matches!(after_single(&outcome(&[], Some("Unsupported URL: x"), false)), Next::Gallery));
    assert!(matches!(after_single(&outcome(&[], None, false)),
        Next::Finish(JobState::Failed(ref e)) if e == "unbekannter Fehler"));
    assert!(matches!(after_item(&outcome(&[], None, false)),
        Next::Finish(JobState::Failed(ref e)) if e == "fehlgeschlagen"));
    assert!(matches!(after_candidate(&outcome(&[], Some("nope"), false)), Next::TryNext));
    assert!(matches!(after_gallery(Err("x".into()), true), Next::Finish(JobState::Cancelled)));
    assert!(matches!(after_gallery(Err("x".into()), false), Next::Finish(JobState::Failed(ref e)) if e == "x"));
    assert!(matches!(after_gallery(Ok("/d".into()), false), Next::Saved(ref d) if d == "/d"));
}

#[test]
fn schedules_look_at_the_clock_in_steps() {
    assert_eq!(wait_step(100, 100), None);
    assert_eq!(wait_step(100, 90), Some(10));
    assert_eq!(wait_step(1000, 0), Some(30));
    assert_eq!(wait_step(i64::MIN, i64::MAX), None);
    assert_eq!(permit_change(4, 8), (8, 4, 0));
    assert_eq!(permit_change(4, 0), (1, 0, 3));
    assert_eq!(permit_change(4, 99), (16, 12, 0));
    assert_eq!(permit_change(4, 4), (4, 0, 0));
}

#[test]
fn spotify_tracks_get_names_and_windows() {
    let mut t = track("id1", "Song: Live", &["A", "B"]);
    assert_eq!(track_template(&t, true), "A, B - Song_ Live.%(ext)s");
    t.number = Some(7);
    assert_eq!(track_template(&t, true), "007 - A, B - Song_ Live.%(ext)s");
    assert_eq!(track_template(&t, false), "A, B - Song_ Live.%(ext)s");
    assert_eq!(track_label(&t), "A, B – Song: Live");
    assert_eq!(track_url(&t), "https://open.spotify.com/track/id1");
    assert_eq!(entry_template(0), "001 - %(title).150B.%(ext)s");
    assert_eq!(entry_template(122), "123 - %(title).150B.%(ext)s");
    assert_eq!(duration_window(0), None);
    assert_eq!(duration_window(190_000), Some((176_700, 203_300)));
    assert_eq!(duration_window(300_000), Some((279_000, 321_000)));
    assert_eq!(duration_window(5_000), Some((-5_000, 15_000)));
}

#[test]
fn details_fill_in_cover_and_artists() {
    let mut t = track("id", "S", &["Tyler", "The Creator"]);
    t.cover = Some("list".into());
    let mut full = track("id", "S", &["Tyler, The Creator"]);
    full.cover = None;
    merge_details(&mut t, full);
    assert_eq!(t.artists, vec!["Tyler, The Creator"]);
    assert_eq!(t.cover.as_deref(), Some("list"));
    let mut full = track("id", "S", &[]);
    full.cover = Some("big".into());
    merge_details(&mut t, full);
    assert_eq!(t.artists, vec!["Tyler, The Creator"]);
    assert_eq!(t.cover.as_deref(), Some("big"));
}

#[test]
fn commands_carry_their_settings() {
    let c = omnidl::engine::Command::Add { urls: vec!["https://a".into()], cfg: Config::new("/dl".into()), start_at: None };
    assert!(matches!(c, omnidl::engine::Command::Add { ref urls, .. } if urls.len() == 1));
}

#[test]
fn tool_setup_errors_stay_in_the_report() {
    let mut d = DepsStatus::new();
    d.ytdlp = Some("2026.01.01".into());
    d.ffmpeg = true;
    let (d, ready) = tools_ready(d, Ok(()));
    assert!(ready && d.error.is_none());
    let (d, ready) = tools_ready(d, Err("Netz weg".into()));
    assert!(ready, "die Werkzeuge sind trotzdem da");
    assert_eq!(d.error.as_deref(), Some("Netz weg"));
    let (_, ready) = tools_ready(DepsStatus::new(), Ok(()));
    assert!(!ready);
}

#[test]
fn automatic_update_checks_stay_silent() {
    let rel = Release {
        version: "0.3.0".into(),
        page: "https://example.com/r".into(),
        app: Asset { url: "https://example.com/a".into(), sha_url: "https://example.com/a.sha256".into() },
        cli: None,
    };
    assert!(matches!(update_news(false, Ok(Some(rel.clone()))), Some(Status::Available(r)) if r == rel));
    assert!(update_news(false, Ok(None)).is_none());
    assert!(update_news(false, Err("offline".into())).is_none());
    assert!(matches!(update_news(true, Ok(None)), Some(Status::UpToDate)));
    assert!(matches!(update_news(true, Err("offline".into())), Some(Status::Failed(e)) if e == "offline"));
    assert!(matches!(installed("0.3.0".into(), Ok(())), Status::Ready(v) if v == "0.3.0"));
    assert!(matches!(installed("0.3.0".into(), Err("Prüfsumme".into())), Status::Failed(e) if e == "Prüfsumme"));
}

#[test]
fn lists_skip_what_an_earlier_session_loaded() {
    let entries = vec![
        ("https://x/1".to_string(), "Eins".to_string()),
        ("https://x/2".to_string(), "Zwei".to_string()),
        ("https://x/3".to_string(), "Drei".to_string()),
    ];
    let done = vec!["https://x/2".to_string()];
    let p = list_plan(None, entries, &done, "/dl", false).ok().unwrap();
    assert_eq!((p.name.as_str(), p.dir.as_str(), p.total, p.already), ("Playlist", "/dl/Playlist", 3, 1));
    let todo: Vec<(usize, &str, &str)> = p.todo.iter().map(|i| (i.index, i.url.as_str(), i.title.as_str())).collect();
    assert_eq!(todo, vec![(0, "https://x/1", "Eins"), (2, "https://x/3", "Drei")]);
    let p = list_plan(Some("Mix: Best?".into()), vec![("u".into(), "t".into())], &vec![], "C:\\dl", true).ok().unwrap();
    assert_eq!(p.dir, "C:\\dl\\Mix_ Best_");
    assert_eq!(list_plan(None, vec![], &vec![], "/dl", false).err().unwrap(), "Liste ist leer");
}

#[test]
fn spotify_releases_become_groups_or_single_tracks() {
    let mut a = track("4PTG3Z6ehGkBFwjybzWkR8", "Lied", &["A", "B"]);
    a.cover = None;
    let mut b = track("", "Ohne", &["C"]);
    b.cover = Some("eigen.jpg".into());
    let coll = Collection {
        name: "Album".into(),
        kind: "album",
        tracks: vec![a, b],
        cover: Some("cover.jpg".into()),
        truncated: true,
    };
    let done = vec!["C - Ohne".to_string()];
    match collection_plan(coll, &done, "/dl", false).ok().unwrap() {
        SpotifyPlan::Group { title, note, dir, total, already, todo } => {
            assert_eq!((title.as_str(), dir.as_str(), total, already), ("Album", "/dl/Album", 2, 1));
            assert_eq!(note.as_deref(), Some("nur die ersten 100 Titel (Spotify-Limit)"));
            assert_eq!(todo.len(), 1);
            assert_eq!(todo[0].key, "4PTG3Z6ehGkBFwjybzWkR8");
            assert_eq!(todo[0].label, "A, B – Lied");
            assert_eq!(todo[0].url, "https://open.spotify.com/track/4PTG3Z6ehGkBFwjybzWkR8");
            assert_eq!(todo[0].track.cover.as_deref(), Some("cover.jpg"));
        }
        SpotifyPlan::Single { .. } => panic!("ein Album ist eine Gruppe"),
    }
    let single = Collection { name: "Lied".into(), kind: "track", tracks: vec![track("x", "Lied", &["A"])], cover: None, truncated: false };
    assert!(matches!(collection_plan(single, &vec![], "/dl", false).ok().unwrap(), SpotifyPlan::Single { dir, .. } if dir == "/dl"));
    let empty = Collection { name: "Leer".into(), kind: "playlist", tracks: vec![], cover: None, truncated: false };
    assert_eq!(collection_plan(empty, &vec![], "/dl", false).err().unwrap(), "keine Titel gefunden");
}

#[test]
fn group_runs_keep_to_the_parallel_limit() {
    // Three items, one finished in an earlier session, two at a time.
    let mut c = Counter::new(5, 3);
    c.resume(1);
    let mut run = GroupRun::new(c, 2, 2);
    assert_eq!(run.step(), GroupStep::Start(0));
    assert_eq!(run.step(), GroupStep::Start(1));
    assert_eq!(run.step(), GroupStep::Wait);
    let (item, _) = run.finished(true);
    assert!(matches!(item, JobUpdate::Item { index: 2, count: 3 }));
    assert_eq!(run.step(), GroupStep::Wait);
    let (item, progress) = run.finished(false);
    assert!(matches!(item, JobUpdate::Item { index: 3, count: 3 }));
    assert!(matches!(progress, JobUpdate::Progress { frac: Some(10000), speed: None, eta: None }));
    assert_eq!(run.step(), GroupStep::Finish(JobState::Failed("1 von 3 fehlgeschlagen".into())));
}

#[test]
fn group_runs_one_at_a_time() {
    let mut run = GroupRun::new(Counter::new(1, 2), 2, 1);
    assert_eq!(run.step(), GroupStep::Start(0));
    assert_eq!(run.step(), GroupStep::Wait);
    run.finished(true);
    assert_eq!(run.step(), GroupStep::Start(1));
    run.finished(true);
    assert_eq!(run.step(), GroupStep::Finish(JobState::Done));
    let mut empty = GroupRun::new(Counter::new(2, 0), 0, 4);
    assert_eq!(empty.step(), GroupStep::Finish(JobState::Done));
}
