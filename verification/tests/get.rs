use omnidl::config::{AudioQuality, Config, Cookies, Format, VideoQuality};
use omnidl::deps::DepsStatus;
use omnidl::get::{
    config, counts, exit_code, files, hints, links, outputs, parse_at, plain_line, region, summary, BitrateArg,
    CookiesArg, Counts, Flags, FormatArg, QualityArg, Said, Session, ToolNews, INTERRUPTED,
};
use omnidl::job::{JobId, JobState, JobUpdate};
use omnidl::jobs::Jobs;

const URL: &str = "https://www.youtube.com/watch?v=jNQXAC9IVRw";

fn settings() -> Config {
    let mut cfg = Config { download_dir: "D:/Videos".into(), parallel: 3, ..Config::new("/dl".into()) };
    cfg.set_format(Format::Flac);
    cfg.set_format(Format::Mkv);
    cfg
}

fn no_flags() -> Flags {
    Flags { audio: false, format: None, quality: None, bitrate: None, dir: None, parallel: None, no_playlist: false, cookies: None }
}

fn counted(done: usize, failed: usize, no_match: usize, cancelled: usize, open: usize) -> Counts {
    Counts { done, failed, no_match, cancelled, open }
}

fn add(jobs: &mut Jobs, id: JobId, parent: Option<JobId>, title: &str) {
    let url = format!("https://example.com/{id}");
    jobs.apply(id, JobUpdate::New { parent, url, title: title.into(), source: "YouTube" });
}

/// A playlist with one file done and one failed, plus a single video.
fn finished_list() -> Jobs {
    let mut jobs = Jobs::new();
    add(&mut jobs, 1, None, "Playlist");
    add(&mut jobs, 2, Some(1), "Eins");
    add(&mut jobs, 3, Some(1), "Zwei");
    add(&mut jobs, 4, None, "Video");
    jobs.apply(2, JobUpdate::Output("D:/dl/Playlist/001 - Eins.mp4".into()));
    jobs.apply(2, JobUpdate::State(JobState::Done));
    jobs.apply(3, JobUpdate::State(JobState::Failed("Video unavailable".into())));
    jobs.apply(1, JobUpdate::State(JobState::Failed("1 von 2 fehlgeschlagen".into())));
    jobs.apply(4, JobUpdate::Output("D:/dl/Video.mp4".into()));
    jobs.apply(4, JobUpdate::State(JobState::Done));
    jobs
}

#[test]
fn without_flags_the_settings_apply() {
    assert_eq!(config(no_flags(), settings()), settings());
}

#[test]
fn flags_override_the_settings_for_this_run() {
    let flags = Flags {
        format: Some(FormatArg::Mp3),
        bitrate: Some(BitrateArg::K192),
        quality: Some(QualityArg::P720),
        dir: Some("/tmp/Musik".into()),
        parallel: Some(8),
        no_playlist: true,
        cookies: Some(CookiesArg::Firefox),
        ..no_flags()
    };
    let cfg = config(flags, settings());
    assert_eq!(cfg.format, Format::Mp3);
    assert_eq!(cfg.audio_quality, AudioQuality::K192);
    assert_eq!(cfg.video_quality, VideoQuality::P720);
    assert_eq!(cfg.download_dir, "/tmp/Musik");
    assert_eq!(cfg.parallel, 8);
    assert!(!cfg.playlist);
    assert_eq!(cfg.cookies, Cookies::Firefox);
    assert_eq!(config(Flags { cookies: Some(CookiesArg::Off), ..no_flags() }, cfg).cookies, Cookies::Off);
}

#[test]
fn audio_uses_the_remembered_audio_format() {
    assert_eq!(config(Flags { audio: true, ..no_flags() }, settings()).format, Format::Flac);
    assert_eq!(config(Flags { audio: true, ..no_flags() }, Config::new("/dl".into())).format, Format::Mp3);
}

#[test]
fn start_times_are_clock_times() {
    assert_eq!(parse_at("2:30"), Ok((2, 30)));
    assert_eq!(parse_at("02:30"), Ok((2, 30)));
    assert_eq!(parse_at(" 23:59 "), Ok((23, 59)));
    assert_eq!(parse_at("0:00"), Ok((0, 0)));
    for bad in ["24:00", "12:60", "2:3", "2", "2.30", "+1:30", "123:00", "ab:cd", ""] {
        assert!(parse_at(bad).is_err(), "{bad}");
    }
    assert!(parse_at("25:00").unwrap_err().contains("HH:MM"));
    assert_eq!(parse_at("7:05"), Ok((7, 5)));
}

#[test]
fn arguments_must_be_web_links() {
    let args = |list: &[&str]| list.iter().map(|s| s.to_string()).collect::<Vec<_>>();
    assert_eq!(
        links(&args(&[URL, "youtu.be/abc", "https://a.com/1 https://b.com/2"])),
        Ok(args(&[URL, "https://youtu.be/abc", "https://a.com/1", "https://b.com/2"]))
    );
    assert_eq!(links(&args(&[URL, "Katzenvideo", "file:///C:/x"])), Err(args(&["Katzenvideo", "file:///C:/x"])));
}

#[test]
fn exit_codes() {
    assert_eq!(exit_code(&counted(3, 0, 0, 0, 0), false, false), 0);
    assert_eq!(exit_code(&counted(3, 1, 0, 0, 0), false, false), 1, "etwas fehlgeschlagen");
    assert_eq!(exit_code(&counted(3, 0, 1, 0, 0), false, false), 1, "kein Treffer");
    assert_eq!(exit_code(&counted(3, 0, 0, 1, 0), false, false), 1, "gestoppt");
    assert_eq!(exit_code(&counted(0, 0, 0, 0, 0), false, false), 1, "nichts geladen");
    assert_eq!(exit_code(&counted(0, 0, 0, 1, 0), false, true), 1, "Werkzeuge fehlen");
    assert_eq!(exit_code(&counted(1, 0, 0, 2, 0), true, false), INTERRUPTED);
}

#[test]
fn summaries_read_naturally() {
    assert_eq!(summary(&counted(3, 1, 0, 0, 0)), "3 fertig, 1 fehlgeschlagen");
    assert_eq!(summary(&counted(1, 0, 0, 0, 0)), "1 fertig");
    assert_eq!(summary(&counted(0, 0, 2, 1, 1)), "2 ohne Treffer, 1 gestoppt, 1 nicht fertig");
    assert_eq!(summary(&counted(0, 0, 0, 0, 0)), "Nichts heruntergeladen");
}

#[test]
fn counts_files_not_lists() {
    let jobs = finished_list();
    assert_eq!(counts(&jobs), counted(2, 1, 0, 0, 0));
    assert_eq!(files(&jobs), vec!["D:/dl/Playlist/001 - Eins.mp4".to_string(), "D:/dl/Video.mp4".to_string()]);
    assert_eq!(outputs(&jobs, false), vec!["D:/dl/Playlist".to_string(), "D:/dl/Video.mp4".to_string()]);
}

#[test]
fn waits_for_every_link() {
    let mut s = Session::new(2);
    assert!(!s.finished(), "noch nichts gemeldet");
    add(&mut s.jobs, 1, None, "Eins");
    s.jobs.apply(1, JobUpdate::State(JobState::Done));
    assert!(!s.finished(), "der zweite Link fehlt noch");
    add(&mut s.jobs, 2, None, "Zwei");
    s.jobs.apply(2, JobUpdate::State(JobState::Cancelled));
    assert!(s.finished());
}

#[test]
fn live_lines_show_what_is_at_work() {
    let mut s = Session::new(0);
    s.busy = Some("Lade ffmpeg … 45 %".into());
    add(&mut s.jobs, 1, None, "Fertig");
    add(&mut s.jobs, 2, None, "Playlist");
    for (id, state) in [(3, JobState::Done), (4, JobState::Downloading), (5, JobState::Queued), (6, JobState::NoMatch)] {
        add(&mut s.jobs, id, Some(2), &format!("Kind {id}"));
        s.jobs.apply(id, JobUpdate::State(state));
    }
    s.jobs.apply(1, JobUpdate::State(JobState::Done));
    s.jobs.apply(2, JobUpdate::State(JobState::Group));
    s.jobs.apply(2, JobUpdate::Item { index: 2, count: 4 });
    let rows = region(&s, 0, (80, 24), false);
    assert_eq!(
        rows,
        vec![
            "⠋ Werkzeuge  Lade ffmpeg … 45 %",
            "⠋ Playlist  YouTube · 2 von 4 fertig",
            "  ⠋ Kind 4  Lädt …",
            "  ! Kind 6  Kein passender Treffer",
        ]
    );
    let rows = region(&s, 0, (80, 4), false);
    assert_eq!(rows.len(), 3, "nie höher als das Terminal");
    assert_eq!(rows[2], "  … und 2 weitere");
}

#[test]
fn plain_output_names_the_steps() {
    let mut jobs = Jobs::new();
    add(&mut jobs, 1, None, "Me at the zoo");
    let mut said = Said::new();
    let mut step = |jobs: &mut Jobs, update: JobUpdate, secs: u64| {
        let progress = matches!(update, JobUpdate::Progress { .. });
        let before = jobs.get(1).unwrap().state.clone();
        jobs.apply(1, update);
        let job = jobs.get(1).unwrap();
        let finished_now = job.state.is_finished() && !before.is_finished();
        plain_line(&mut said, job, finished_now, progress, secs * 1000)
    };
    assert_eq!(step(&mut jobs, JobUpdate::State(JobState::Queued), 0), None);
    assert_eq!(step(&mut jobs, JobUpdate::State(JobState::Downloading), 0).unwrap(), "Me at the zoo · YouTube · Lädt …");
    let progress = |frac: u32| JobUpdate::Progress { frac: Some(frac), speed: None, eta: None };
    assert_eq!(step(&mut jobs, progress(1000), 1), None, "gerade erst gemeldet");
    assert_eq!(step(&mut jobs, JobUpdate::State(JobState::Downloading), 2), None, "zweiter Datenstrom");
    assert_eq!(step(&mut jobs, progress(6000), 12).unwrap(), "Me at the zoo · YouTube · 60 %");
    assert_eq!(step(&mut jobs, JobUpdate::State(JobState::Processing), 13).unwrap(), "Me at the zoo · YouTube · Wird umgewandelt …");
    assert_eq!(step(&mut jobs, JobUpdate::State(JobState::Processing), 13), None);
    assert_eq!(step(&mut jobs, JobUpdate::State(JobState::Done), 14).unwrap(), "Me at the zoo · YouTube · Fertig");
}

#[test]
fn hints_before_starting() {
    let d = DepsStatus { ytdlp: Some("2026.01.01".into()), ytdlp_age_days: Some(30), ffmpeg: true, ..DepsStatus::new() };
    let lines = hints(&d);
    assert_eq!(lines.len(), 2);
    assert!(lines[0].contains("JavaScript"));
    assert!(lines[1].contains("seit 30 Tagen"));
    let fresh = DepsStatus { ytdlp_age_days: Some(2), js: Some("deno".into()), ..d };
    assert!(hints(&fresh).is_empty());
}

#[test]
fn tool_reports_decide_the_run() {
    let mut s = Session::new(1);
    let busy = DepsStatus { busy: Some("Lade yt-dlp …".into()), ..DepsStatus::new() };
    assert!(matches!(s.deps(busy), ToolNews::Working));
    assert_eq!(s.busy.as_deref(), Some("Lade yt-dlp …"));
    let ready = DepsStatus { ytdlp: Some("2026.01.01".into()), ffmpeg: true, js: Some("deno".into()), ..DepsStatus::new() };
    assert!(matches!(s.deps(ready), ToolNews::Ready(ref h) if h.is_empty()));
    assert!(s.busy.is_none() && s.tools_checked);
    match s.deps(DepsStatus::new()) {
        ToolNews::Unusable(m) => assert_eq!(m, "Werkzeuge konnten nicht eingerichtet werden: yt-dlp oder ffmpeg fehlen"),
        _ => panic!("unbrauchbar erwartet"),
    }
    assert_eq!(s.tools_error.as_deref(), Some("yt-dlp oder ffmpeg fehlen"));
}

#[test]
fn job_updates_tell_when_a_job_ends() {
    let mut s = Session::new(1);
    let (done, progress) = s.job(1, JobUpdate::New { parent: None, url: URL.into(), title: "t".into(), source: "YouTube" });
    assert!(!done && !progress);
    assert_eq!(s.job(1, JobUpdate::Progress { frac: Some(10), speed: None, eta: None }), (false, true));
    assert_eq!(s.job(1, JobUpdate::State(JobState::Done)), (true, false));
    assert_eq!(s.job(1, JobUpdate::State(JobState::Done)), (false, false), "nur beim ersten Mal");
}

#[test]
fn folders_of_files() {
    let p = |s: &str, w: bool| omnidl::get::parent_of(s, w);
    assert_eq!(p("/dl/Liste/001 - a.mp3", false).as_deref(), Some("/dl/Liste"));
    assert_eq!(p("/dl/Liste//a.mp3", false).as_deref(), Some("/dl/Liste"));
    assert_eq!(p("/a.mp3", false).as_deref(), Some("/"));
    assert_eq!(p("a.mp3", false).as_deref(), Some(""));
    assert_eq!(p("/", false), None);
    assert_eq!(p("", false), None);
    assert_eq!(p("/dl/x/", false).as_deref(), Some("/dl"));
    assert_eq!(p("C:\\dl\\a.mp3", true).as_deref(), Some("C:\\dl"));
    assert_eq!(p("C:\\a.mp3", true).as_deref(), Some("C:\\"));
    assert_eq!(p("C:\\dl\\a.mp3", false).as_deref(), Some(""));
}
