use omnidl::sys::{desktop_entry, exec_arg, parent_of};

#[test]
fn desktop_entry_handles_omnidl_links() {
    let entry = desktop_entry("/opt/omni dl/omnidl", "/home/a/omnidl.png", "Videos und Musik herunterladen");
    assert!(entry.starts_with("[Desktop Entry]\n"));
    assert!(entry.contains("\nExec=\"/opt/omni dl/omnidl\" %u\n"), "{entry}");
    assert!(entry.contains("\nMimeType=x-scheme-handler/omnidl;\n"));
    assert!(entry.contains("\nIcon=/home/a/omnidl.png\n"));
    assert!(entry.lines().all(|l| l.starts_with('[') || l.contains('=')), "nur Schlüssel=Wert");
}

#[test]
fn exec_paths_are_escaped() {
    assert_eq!(exec_arg("/usr/bin/omnidl"), r#""/usr/bin/omnidl""#);
    assert_eq!(exec_arg(r#"/a$b"c`d"#), r#""/a\\$b\\"c\\`d""#);
    assert_eq!(exec_arg(r"/a\b"), r#""/a\\\\b""#);
    assert_eq!(exec_arg("/100%"), r#""/100%%""#);
}

#[test]
fn reads_parent_from_proc_stat() {
    assert_eq!(parent_of("4242 (yt-dlp) S 17 4242 17 0 -1"), Some(17));
    assert_eq!(parent_of("7 (a (b) c) R 1 7 7 0"), Some(1), "Klammern im Namen");
    assert_eq!(parent_of("kaputt"), None);
}

#[test]
fn stat_lines_without_a_parent_field() {
    assert_eq!(parent_of("1 (init) S"), None);
    assert_eq!(parent_of("1 (init) S x"), None);
    assert_eq!(parent_of("1 (x) S 99999999999 1"), None, "außerhalb von pid_t");
}
