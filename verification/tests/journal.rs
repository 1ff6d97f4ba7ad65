use omnidl::config::Config;
use omnidl::journal::{Entry, Journal};

fn entry(url: &str) -> Entry {
    Entry::new(url.into(), Config::new("/dl".into()), None)
}

#[test]
fn memory_journal_writes_nothing() {
    let mut j = Journal::in_memory();
    j.insert(1, entry("https://a"));
    j.mark_done(1, "k");
    assert_eq!(j.get(1).unwrap().done, vec!["k"]);
    j.remove(1);
    assert_eq!(j.len(), 0);
}

#[test]
fn changes_are_reported_once() {
    let mut j = Journal::in_memory();
    j.insert(2, Entry::new("https://b".into(), Config::new("/dl".into()), Some(1_900_000_000)));
    j.insert(3, entry("https://c"));
    assert!(j.mark_done(3, "https://c/1"));
    assert!(!j.mark_done(3, "https://c/1"), "doppelt gemeldet, einmal gespeichert");
    assert!(j.started(2));
    assert!(!j.started(2));
    assert_eq!(j.get(2).unwrap().start_at, None);
    assert!(!j.remove(9));
    assert!(j.remove(2));
    let left = j.pending();
    assert_eq!(left.len(), 1);
    assert_eq!(left[0].url, "https://c");
    assert_eq!(left[0].done, vec!["https://c/1"]);
}
