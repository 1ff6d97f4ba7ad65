use omnidl::files::Offer;
use omnidl::deps::DepsStatus;
use omnidl::config::Config;
use omnidl::hub::{merge_tools, offer, target, Found, Model, Msg, Target};
use omnidl::job::{Event, JobState, JobUpdate};
use omnidl::jobs::Jobs;

fn add(jobs: &mut Jobs, id: u64, parent: Option<u64>, title: &str) {
    jobs.apply(id, JobUpdate::New { parent, url: format!("https://e.com/{id}"), title: title.into(), source: "Web" });
}

#[test]
fn targets_are_a_file_or_a_finished_group() {
    let mut jobs = Jobs::new();
    add(&mut jobs, 1, None, "Liste");
    add(&mut jobs, 2, Some(1), "a");
    add(&mut jobs, 3, Some(1), "b");
    jobs.apply(2, JobUpdate::Output("/dl/Liste/a.mp3".into()));
    jobs.apply(2, JobUpdate::State(JobState::Done));
    assert!(target(&jobs, 1).is_none(), "die Liste läuft noch");
    jobs.apply(3, JobUpdate::State(JobState::Failed("x".into())));
    jobs.apply(1, JobUpdate::State(JobState::Failed("1 von 2 fehlgeschlagen".into())));
    match target(&jobs, 1) {
        Some(Target::Group { title, files }) => {
            assert_eq!(title, "Liste");
            assert_eq!(files, vec!["/dl/Liste/a.mp3"]);
        }
        other => panic!("{other:?}"),
    }
    assert!(matches!(target(&jobs, 2), Some(Target::Path { ref path }) if path == "/dl/Liste/a.mp3"));
    assert!(target(&jobs, 9).is_none());
}

#[test]
fn offers_name_the_archive_after_the_job() {
    let t = Target::Path { path: "/dl/x.mp3".into() };
    assert_eq!(offer(t, Found::File), Some(Offer::File("/dl/x.mp3".into())));
    let t = Target::Path { path: "/dl/Bilder".into() };
    let found = Found::Folder { name: Some("Bilder?".into()), files: vec![("1.jpg".into(), "/dl/Bilder/1.jpg".into())] };
    assert_eq!(
        offer(t, found),
        Some(Offer::Zip { name: "Bilder_".into(), entries: vec![("Bilder_/1.jpg".into(), "/dl/Bilder/1.jpg".into())] })
    );
    let t = Target::Group { title: "Mix".into(), files: vec![] };
    let found = Found::Files(vec![("a.mp3".into(), "/1/a.mp3".into()), ("A.mp3".into(), "/2/A.mp3".into())]);
    assert_eq!(
        offer(t, found),
        Some(Offer::Zip {
            name: "Mix".into(),
            entries: vec![("Mix/a.mp3".into(), "/1/a.mp3".into()), ("Mix/A (2).mp3".into(), "/2/A.mp3".into())],
        })
    );
    assert_eq!(offer(Target::Path { path: "/x".into() }, Found::Nothing), None);
    assert_eq!(offer(Target::Group { title: "M".into(), files: vec![] }, Found::Files(vec![])), None);
    let m = Msg { kind: "job", data: "{}".into() };
    assert_eq!(m.kind, "job");
}

#[test]
fn busy_tool_messages_keep_the_versions() {
    let mut tools = DepsStatus::new();
    let mut checked = false;
    let ready = DepsStatus { ytdlp: Some("2026.09.01".into()), ffmpeg: true, ..DepsStatus::new() };
    merge_tools(&mut tools, &mut checked, ready);
    merge_tools(&mut tools, &mut checked, DepsStatus { busy: Some("Lade yt-dlp …".into()), ..DepsStatus::new() });
    assert_eq!(tools.ytdlp.as_deref(), Some("2026.09.01"));
    assert_eq!(tools.busy.as_deref(), Some("Lade yt-dlp …"));
    assert!(checked);
}

#[test]
fn events_are_numbered_and_the_snapshot_knows_the_last_number() {
    let mut m = Model::new(Config::new("/dl".into()), false);
    let url = "https://example.com/1".to_string();
    let first = m.on_job(1, JobUpdate::New { parent: None, url: url.clone(), title: url, source: "Web" });
    let second = m.on_event(Event::Job(1, JobUpdate::State(JobState::Downloading)));
    assert_eq!((first, second), (Some(1), Some(2)));
    assert_eq!(m.seq, 2);
    assert_eq!(m.jobs.get(1).unwrap().status(false).0, "Web · Lädt …");
}

#[test]
fn changes_to_unknown_jobs_are_not_sent() {
    let mut m = Model::new(Config::new("/dl".into()), true);
    assert_eq!(m.on_job(7, JobUpdate::Title("x".into())), None);
    assert_eq!(m.seq, 0);
    let mut d = DepsStatus::new();
    d.busy = Some("Lade ffmpeg … 45 %".into());
    assert_eq!(m.on_deps(d), 1);
    assert!(!m.tools_checked);
    assert_eq!(m.tools.busy.as_deref(), Some("Lade ffmpeg … 45 %"));
    assert_eq!(m.on_deps(DepsStatus::new()), 2);
    assert!(m.tools_checked);
    assert_eq!(m.on_event(Event::Remote { focus: true }), None);
    assert_eq!(m.seq, 2);
}
