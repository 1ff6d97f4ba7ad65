use omnidl::job::{JobId, JobState, JobUpdate};
use omnidl::jobs::{readable_error, Jobs, Tone};

fn new(jobs: &mut Jobs, id: JobId, parent: Option<JobId>) {
    let url = format!("https://example.com/{id}");
    jobs.apply(id, JobUpdate::New { parent, url: url.clone(), title: url, source: "Web" });
}

fn state(jobs: &mut Jobs, id: JobId, s: JobState) {
    jobs.apply(id, JobUpdate::State(s));
}

fn ids(jobs: &Jobs) -> Vec<JobId> {
    jobs.list.iter().map(|j| j.id).collect()
}

#[test]
fn errors_read_like_sentences() {
    assert_eq!(
        readable_error(
            "[generic] nope: Unable to download webpage: HTTP Error 404: Not Found (caused by <HTTPError 404: Not Found>)"
        ),
        "Unable to download webpage: HTTP Error 404: Not Found"
    );
    assert_eq!(readable_error("[youtube] abc: Video unavailable\nmore"), "Video unavailable");
    assert_eq!(readable_error("Kurzlink nicht auflösbar"), "Kurzlink nicht auflösbar");
    assert_eq!(readable_error("[info] Writing video metadata"), "Writing video metadata");
}

#[test]
fn clearing_keeps_whatever_still_runs() {
    let mut jobs = Jobs::new();
    new(&mut jobs, 1, None); // fertig
    new(&mut jobs, 2, None); // Gruppe, ein Kind läuft noch
    new(&mut jobs, 3, Some(2));
    new(&mut jobs, 4, Some(2));
    new(&mut jobs, 5, None); // läuft
    state(&mut jobs, 1, JobState::Done);
    state(&mut jobs, 2, JobState::Group);
    state(&mut jobs, 3, JobState::Done);
    state(&mut jobs, 4, JobState::Downloading);
    state(&mut jobs, 5, JobState::Queued);

    jobs.clear_finished();
    assert_eq!(ids(&jobs), vec![2, 3, 4, 5], "fertige Kinder laufender Gruppen bleiben");
    assert_eq!(jobs.get(2).unwrap().children.len(), 2, "Verknüpfungen neu aufgebaut");
    assert_eq!(jobs.children_of(2).iter().map(|j| j.id).collect::<Vec<_>>(), vec![3, 4]);

    state(&mut jobs, 4, JobState::Done);
    state(&mut jobs, 2, JobState::Done);
    jobs.clear_finished();
    assert_eq!(ids(&jobs), vec![5]);
    // Updates for the remaining job still land in the right row.
    jobs.apply(5, JobUpdate::Title("neu".into()));
    assert_eq!(jobs.get(5).unwrap().title, "neu");
}

#[test]
fn retry_removes_the_whole_group() {
    let mut jobs = Jobs::new();
    new(&mut jobs, 1, None);
    new(&mut jobs, 2, Some(1));
    new(&mut jobs, 3, None);
    new(&mut jobs, 4, Some(1));
    jobs.remove_tree(1);
    assert_eq!(ids(&jobs), vec![3]);
    assert!(jobs.get(2).is_none());
}

#[test]
fn rows_newest_first_with_children_under_their_group() {
    let mut jobs = Jobs::new();
    new(&mut jobs, 1, None);
    new(&mut jobs, 2, None);
    new(&mut jobs, 3, Some(2));
    new(&mut jobs, 4, Some(2));
    let rows: Vec<(JobId, bool)> = jobs.visible_rows().into_iter().map(|(i, c)| (jobs.list[i].id, c)).collect();
    assert_eq!(rows, vec![(2, false), (3, true), (4, true), (1, false)]);

    jobs.set_expanded(2, false);
    assert_eq!(jobs.visible_rows().len(), 2, "zugeklappt: nur die Gruppen");
}

#[test]
fn notes_come_and_go() {
    let mut jobs = Jobs::new();
    new(&mut jobs, 1, None);
    jobs.apply(1, JobUpdate::Note("Wartet auf die Werkzeuge …".into()));
    assert_eq!(jobs.get(1).unwrap().status(false).0, "Web · Wartet auf die Werkzeuge …");
    jobs.apply(1, JobUpdate::Note(String::new()));
    assert_eq!(jobs.get(1).unwrap().status(false).0, "Web · Wartet");
}

fn tonight_at(h: u32, m: u32) -> i64 {
    let now = chrono::Local::now();
    let mut day = now.date_naive();
    loop {
        let t = day.and_hms_opt(h, m, 0).unwrap().and_local_timezone(chrono::Local).earliest().unwrap();
        if t > now {
            return t.timestamp();
        }
        day = day.succ_opt().unwrap();
    }
}

#[test]
fn scheduled_jobs_show_their_start() {
    let mut jobs = Jobs::new();
    new(&mut jobs, 1, None);
    let at = tonight_at(23, 55);
    state(&mut jobs, 1, JobState::Scheduled(at));
    let (line, tone) = jobs.get(1).unwrap().status(false);
    assert!(line.starts_with("Web · Startet "), "{line}");
    assert!(line.ends_with("um 23:55"), "{line}");
    assert_eq!(tone, Tone::Normal);
    assert!(!jobs.animating(), "geplante Jobs brauchen kein Neuzeichnen");
    assert_eq!((jobs.active(), jobs.scheduled()), (0, 1));
    assert!(!jobs.all_finished());
    assert!(!JobState::Scheduled(at).is_finished());
    assert!(!JobState::Scheduled(at).can_retry());
}

#[test]
fn progress_and_outcomes_read_naturally() {
    let mut jobs = Jobs::new();
    new(&mut jobs, 1, None);
    state(&mut jobs, 1, JobState::Downloading);
    jobs.apply(1, JobUpdate::Progress { frac: Some(4500), speed: Some((3.8 * 1024.0 * 1024.0) as u64), eta: Some(12) });
    assert_eq!(jobs.get(1).unwrap().status(false).0, "Web · 45 % · 3.8 MB/s · noch 0:12");
    assert_eq!(jobs.get(1).unwrap().status(true).0, "45 % · 3.8 MB/s · noch 0:12", "Kind ohne Quelle");

    state(&mut jobs, 1, JobState::Failed("[youtube] x: Video unavailable".into()));
    assert_eq!(jobs.get(1).unwrap().status(false), ("Web · Video unavailable".into(), Tone::Error));
    assert!(jobs.all_finished());
    state(&mut jobs, 1, JobState::NoMatch);
    assert_eq!(jobs.get(1).unwrap().status(false).1, Tone::Warning);
}

#[test]
fn unknown_ids_change_nothing() {
    let mut jobs = Jobs::new();
    new(&mut jobs, 1, None);
    jobs.apply(9, JobUpdate::Title("x".into()));
    assert_eq!(jobs.all().len(), 1);
    assert_eq!(jobs.get(1).unwrap().title, "https://example.com/1");
}
