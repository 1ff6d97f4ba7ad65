use omnidl::util::{days_from_civil, escape_template, fmt_bytes, fmt_eta, sanitize_filename, today_days};

#[test]
fn sanitize() {
    assert_eq!(sanitize_filename("AC/DC: Back in Black?"), "AC_DC_ Back in Black_");
    assert_eq!(sanitize_filename("  ..  "), "download");
    assert_eq!(sanitize_filename("a\tb   c."), "a b c");
}

#[test]
fn civil() {
    assert_eq!(days_from_civil(1970, 1, 1), 0);
    assert_eq!(days_from_civil(2026, 9, 22), 20_718);
}

#[test]
fn formatting() {
    assert_eq!(fmt_eta(65), "1:05");
    assert_eq!(fmt_eta(3725), "1:02:05");
    assert_eq!(fmt_bytes(1536), "1.5 KB");
}

#[test]
fn util_sanitize() {
    assert_eq!(sanitize_filename("AC/DC: Back in Black?"), "AC_DC_ Back in Black_");
    assert_eq!(sanitize_filename("  ..  "), "download");
    assert_eq!(sanitize_filename("a\tb   c."), "a b c");
}

#[test]
fn util_civil() {
    assert_eq!(days_from_civil(1970, 1, 1), 0);
    assert_eq!(days_from_civil(2026, 9, 22), 20_718);
}

#[test]
fn util_formatting() {
    assert_eq!(fmt_eta(65), "1:05");
    assert_eq!(fmt_eta(3725), "1:02:05");
    assert_eq!(fmt_bytes(1536), "1.5 KB");
}

#[test]
fn bytes_read_like_the_float_formatting() {
    for b in [0u64, 1, 1023, 1024, 1536, 1075, 1126, 10 * 1024 * 1024, 1_500_000_000, 5 * 1024 * 1024 * 1024 * 1024] {
        let mut v = b as f64;
        let mut unit = 0;
        let units = ["B", "KB", "MB", "GB"];
        while v >= 1024.0 && unit < units.len() - 1 {
            v /= 1024.0;
            unit += 1;
        }
        let expected = if unit == 0 { format!("{b} B") } else { format!("{v:.1} {}", units[unit]) };
        assert_eq!(fmt_bytes(b), expected, "{b}");
    }
}

#[test]
fn templates_keep_percent_signs() {
    assert_eq!(escape_template("100% Hits"), "100%% Hits");
}

#[test]
fn civil_days_count_from_1970() {
    assert_eq!(days_from_civil(1969, 12, 31), -1);
    assert_eq!(days_from_civil(2000, 3, 1) - days_from_civil(2000, 2, 28), 2, "Schaltjahr");
    assert!(today_days() > days_from_civil(2024, 1, 1));
}

#[test]
fn sanitizing_twice_changes_nothing() {
    for s in ["  a\u{a0}\u{a0}b  :c.. ", "...", "x\ty\nz", "Mix: Best?", "ä  ö"] {
        let once = sanitize_filename(s);
        assert_eq!(sanitize_filename(&once), once);
        assert!(!once.contains("  "), "{once:?}");
    }
}

#[test]
fn escaped_templates_read_back() {
    let e = escape_template("100% und 5%");
    assert_eq!(e, "100%% und 5%%");
    assert_eq!(e.len(), "100% und 5%".len() + 2);
    assert_eq!(e.replace("%%", "%"), "100% und 5%");
}
