use omnidl::job::{JobState, JobUpdate};
use omnidl::jobs::Jobs;
use omnidl::term::{fit, frame, job_line, job_row, paint, row, spinner, symbol, truncate, width, Live, Paint, Steps};

fn job(state: JobState) -> Jobs {
    let mut jobs = Jobs::new();
    let url = "https://youtu.be/jNQXAC9IVRw".to_string();
    jobs.apply(1, JobUpdate::New { parent: None, url, title: "Me at the zoo".into(), source: "YouTube" });
    jobs.apply(1, JobUpdate::State(state));
    jobs
}

#[test]
fn truncation_counts_columns() {
    assert_eq!(truncate("Me at the zoo", 20), "Me at the zoo");
    assert_eq!(truncate("Me at the zoo", 8), "Me at t…");
    assert_eq!(width(&truncate("日本語のタイトル", 7)), 7, "breite Zeichen zählen doppelt");
    assert_eq!(truncate("日本語のタイトル", 7), "日本語…");
    assert_eq!(truncate("a\tb\nc", 10), "a b c", "Steuerzeichen werden Leerzeichen");
    assert_eq!(truncate("abc", 0), "");
}

#[test]
fn status_wins_over_a_long_title() {
    let title = "A really long video title that goes on and on";
    let status = "YouTube · 45 % · 3.8 MB/s · noch 0:12";
    assert_eq!(fit(title, status, 200), (title.to_string(), status.to_string()));
    let (t, s) = fit(title, status, 60);
    assert_eq!(s, status);
    assert_eq!(width(&t) + 2 + width(&s), 60);
    // Too narrow even for that: the title keeps a readable start, the status is cut.
    let (t, s) = fit(title, status, 40);
    assert_eq!(width(&t), 16);
    assert!(s.ends_with('…') && width(&s) == 22, "{s}");
    assert_eq!(fit(title, status, 10).1, "", "winzig: nur der Titel");
}

#[test]
fn frames_redraw_in_place() {
    let region = ["a".to_string(), "b".to_string()];
    assert_eq!(frame(0, &[], &region), "\ra\x1b[K\nb\x1b[K\n\x1b[J");
    let log = ["fertig".to_string()];
    assert_eq!(frame(2, &log, &region[..1]), "\x1b[2A\rfertig\x1b[K\na\x1b[K\n\x1b[J");
    assert_eq!(frame(1, &[], &[]), "\x1b[1A\r\x1b[J", "leer: nur wegwischen");
}

#[test]
fn rows_read_calmly() {
    let mut jobs = job(JobState::Downloading);
    jobs.apply(1, JobUpdate::Progress { frac: Some(4500), speed: None, eta: None });
    let j = jobs.get(1).unwrap();
    assert_eq!(job_row(j, false, 0, 80, false), "⠋ Me at the zoo  YouTube · 45 %");
    assert_eq!(job_row(j, false, 2, 80, true), "\x1b[34m⠹\x1b[0m Me at the zoo  \x1b[2mYouTube · 45 %\x1b[0m");
    assert_eq!(job_row(j, true, 0, 80, false), "  ⠋ Me at the zoo  45 %", "Kinder eingerückt, ohne Quelle");

    let done = job(JobState::Done);
    assert_eq!(job_row(done.get(1).unwrap(), false, 0, 80, false), "✓ Me at the zoo  YouTube · Fertig");
    assert_eq!(job_line(done.get(1).unwrap(), false), "Me at the zoo · YouTube · Fertig");

    let failed = job(JobState::Failed("[youtube] x: Video unavailable".into()));
    let row = job_row(failed.get(1).unwrap(), false, 0, 80, true);
    assert!(row.starts_with("\x1b[31m✗\x1b[0m") && row.ends_with("\x1b[31mYouTube · Video unavailable\x1b[0m"), "{row:?}");
    assert_eq!(job_line(failed.get(1).unwrap(), false), "Fehler: Me at the zoo · YouTube · Video unavailable");
}

#[test]
fn rows_never_wrap() {
    let mut jobs = job(JobState::Downloading);
    jobs.apply(1, JobUpdate::Title("Ein sehr langer Titel, der in kein schmales Fenster passt".into()));
    jobs.apply(1, JobUpdate::Progress { frac: Some(5000), speed: Some(1_000_000), eta: Some(30) });
    for w in [20, 40, 60, 80] {
        let line = job_row(jobs.get(1).unwrap(), true, 0, w, false);
        assert!(width(&line) < w, "{w}: {line}");
    }
}

#[test]
fn tool_steps_are_told_once_with_occasional_progress() {
    let mut steps = Steps::new();
    let at = |s: u64| s * 1000;
    assert!(steps.due("Lade yt-dlp …", at(0)));
    assert!(!steps.due("Lade yt-dlp … 10 %", at(1)));
    assert!(steps.due("Lade yt-dlp … 80 %", at(6)), "nach ein paar Sekunden wieder");
    assert!(steps.due("Lade ffmpeg …", at(7)), "neuer Schritt sofort");
}

#[test]
fn paint_only_with_color() {
    assert_eq!(paint("x", Paint::Red, true), "\x1b[31mx\x1b[0m");
    assert_eq!(paint("x", Paint::Red, false), "x");
    assert_eq!(paint("", Paint::Red, true), "");
    assert_eq!(spinner(10), spinner(0));
    assert_eq!(symbol(&JobState::Done, 0), ("✓", Paint::Green));
    assert_eq!(row(2, ("•", Paint::Plain), "T", ("s", Paint::Plain), 80, false), "  • T  s");
}

#[test]
fn live_display_hides_and_restores_the_cursor() {
    let (mut live, start) = Live::new(false);
    assert_eq!(start, "\x1b[?25l");
    let drawn = live.draw(&[], &["a".to_string()]);
    assert_eq!(drawn, "\ra\x1b[K\n\x1b[J");
    let end = live.close(&["fertig".to_string()]);
    assert!(end.contains("fertig") && end.ends_with("\x1b[?25h"), "{end:?}");
}
