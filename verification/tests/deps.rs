use omnidl::deps::{
    common_root, join_path, needs_ytdlp, ytdlp_report, unavailable, version_age_days, version_age_days_at, DepsStatus, Ffmpeg, Sources,
    Tools, place_entry, Placement,
};
use omnidl::util::{days_from_civil, today_days};

fn names(list: &[&str]) -> Vec<String> {
    list.iter().map(|s| s.to_string()).collect()
}

#[test]
fn deps_strips_only_a_shared_top_folder() {
    assert_eq!(common_root(&names(&["deno-x/deno.exe", "deno-x/LICENSE"])), Some("deno-x/".into()));
    // yt-dlp_win.zip: the exe sits at top level next to `_internal/`.
    assert_eq!(common_root(&names(&["yt-dlp.exe", "_internal/python310.dll"])), None);
    assert_eq!(common_root(&names(&["a/x", "b/y"])), None);
    assert_eq!(common_root(&names(&[])), None);
}

#[test]
fn strips_only_a_shared_top_folder() {
    assert_eq!(common_root(&names(&["deno-x/deno.exe", "deno-x/LICENSE"])), Some("deno-x/".into()));
    // yt-dlp_win.zip: the exe sits at top level next to `_internal/`.
    assert_eq!(common_root(&names(&["yt-dlp.exe", "_internal/python310.dll"])), None);
    assert_eq!(common_root(&names(&["a/x", "b/y"])), None);
    assert_eq!(common_root(&names(&[])), None);
}

#[test]
fn parses_ytdlp_version_age() {
    let today = today_days();
    let d = days_from_civil(2026, 9, 1);
    assert_eq!(version_age_days("2026.09.01"), Some(today - d));
    assert_eq!(version_age_days("2026.08.19.123456"), Some(today - days_from_civil(2026, 8, 19)));
    assert_eq!(version_age_days("kaputt"), None);
}

#[test]
fn deps_parses_ytdlp_version_age() {
    let today = today_days();
    let d = days_from_civil(2026, 9, 1);
    assert_eq!(version_age_days("2026.09.01"), Some(today - d));
    assert_eq!(version_age_days("2026.08.19.123456"), Some(today - days_from_civil(2026, 8, 19)));
    assert_eq!(version_age_days("kaputt"), None);
}

#[test]
fn version_age_on_a_given_day() {
    let d = days_from_civil(2026, 9, 1);
    assert_eq!(version_age_days_at("2026.09.01", d + 3), Some(3));
    assert_eq!(version_age_days_at("2026.9.1", d), Some(0));
    assert_eq!(version_age_days_at("2026.x.01", d), None);
    assert_eq!(version_age_days_at("2026.09", d), None);
}

#[test]
fn windows_downloads_stay_the_same() {
    let s = Sources::of("windows", "x86_64", false);
    assert_eq!(s.ytdlp.as_deref(), Some("https://github.com/yt-dlp/yt-dlp/releases/latest/download/yt-dlp_win.zip"));
    assert_eq!(
        s.ffmpeg,
        Some(Ffmpeg::Bundle(
            "https://github.com/yt-dlp/FFmpeg-Builds/releases/download/latest/ffmpeg-master-latest-win64-gpl.zip".into()
        ))
    );
    assert_eq!(
        s.deno.as_deref(),
        Some("https://github.com/denoland/deno/releases/latest/download/deno-x86_64-pc-windows-msvc.zip")
    );
    assert_eq!(s.gallery.as_deref(), Some("https://codeberg.org/mikf/gallery-dl/releases/download/latest/gallery-dl.exe"));
}

#[test]
fn ready_needs_ytdlp_and_ffmpeg_and_quiet() {
    let mut d = DepsStatus::new();
    assert!(!d.ready());
    d.ytdlp = Some("2026.01.01".into());
    d.ffmpeg = true;
    assert!(d.ready());
    d.busy = Some("Lade …".into());
    assert!(!d.ready());
}

#[test]
fn unknown_platforms_get_nothing() {
    let s = Sources::of("plan9", "mips", false);
    assert_eq!(s, Sources::none());
    assert!(unavailable("ffmpeg").starts_with("ffmpeg gibt es"));
    assert!(needs_ytdlp(None, true));
}

/// Every platform with ready-made builds, as (os, arch, musl).
const PLATFORMS: [(&str, &str, bool); 8] = [
    ("windows", "x86_64", false),
    ("windows", "aarch64", false),
    ("macos", "x86_64", false),
    ("macos", "aarch64", false),
    ("linux", "x86_64", false),
    ("linux", "aarch64", false),
    ("linux", "x86_64", true),
    ("linux", "aarch64", true),
];

#[test]
fn every_platform_gets_its_own_builds() {
    for (os, arch, musl) in PLATFORMS {
        let s = Sources::of(os, arch, musl);
        assert!(s.ytdlp.is_some() && s.ffmpeg.is_some(), "{os}/{arch}: yt-dlp und ffmpeg gibt es überall");
    }
    let linux_arm = Sources::of("linux", "aarch64", false);
    assert!(linux_arm.ytdlp.unwrap().ends_with("/yt-dlp_linux_aarch64.zip"));
    assert!(matches!(linux_arm.ffmpeg, Some(Ffmpeg::Bundle(u)) if u.ends_with("-linuxarm64-gpl.tar.xz")));
    assert!(linux_arm.deno.unwrap().ends_with("/deno-aarch64-unknown-linux-gnu.zip"));

    let linux = Sources::of("linux", "x86_64", false);
    assert!(linux.ytdlp.unwrap().ends_with("/yt-dlp_linux.zip"));
    assert!(linux.gallery.unwrap().ends_with("/gallery-dl.bin"));
    assert!(Sources::of("linux", "x86_64", true).ytdlp.unwrap().ends_with("/yt-dlp_musllinux.zip"));

    let mac = Sources::of("macos", "aarch64", false);
    assert!(mac.ytdlp.unwrap().ends_with("/yt-dlp_macos.zip"));
    assert!(matches!(mac.ffmpeg, Some(Ffmpeg::Pair { ffmpeg, ffprobe })
        if ffmpeg.contains("/macos/arm64/") && ffprobe.ends_with("/ffprobe.zip")));
    assert!(mac.deno.unwrap().ends_with("/deno-aarch64-apple-darwin.zip"));
    assert!(mac.gallery.is_none(), "gallery-dl gibt es nicht für macOS");
    assert!(matches!(Sources::of("macos", "x86_64", false).ffmpeg, Some(Ffmpeg::Pair { ffmpeg, .. })
        if ffmpeg.contains("/macos/amd64/")));

    assert_eq!(Sources::of("freebsd", "x86_64", false), Sources::none(), "unbekannte Systeme laden nichts");
    assert_eq!(Sources::of("linux", "arm", false), Sources::none());
}

#[test]
fn tool_paths_live_in_bin() {
    let t = Tools::new("/opt/omnidl", false);
    assert_eq!(t.bin, "/opt/omnidl/bin");
    assert_eq!(t.ytdlp_local(), "/opt/omnidl/bin/yt-dlp/yt-dlp");
    assert_eq!(t.in_bin("gallery-dl"), "/opt/omnidl/bin/gallery-dl");
    let w = Tools::new("C:\\omnidl\\", true);
    assert_eq!(w.bin, "C:\\omnidl\\bin");
    assert_eq!(w.ytdlp_local(), "C:\\omnidl\\bin\\yt-dlp\\yt-dlp.exe");
    assert_eq!(join_path("", "bin", false), "bin");
    assert_eq!(join_path("/opt/", "bin", false), "/opt/bin");
}

#[test]
fn downloaded_tools_win_over_installed_ones() {
    let t = Tools::new("/opt/omnidl", false);
    assert_eq!(t.gallery_dl(true, Some("/usr/bin/gallery-dl".into())), "/opt/omnidl/bin/gallery-dl");
    assert_eq!(t.gallery_dl(false, Some("/usr/bin/gallery-dl".into())), "/usr/bin/gallery-dl");
    assert_eq!(t.ytdlp(false, None), "/opt/omnidl/bin/yt-dlp/yt-dlp");
    assert_eq!(t.deno(false, Some("/usr/bin/deno".into())), "/usr/bin/deno");
    assert_eq!(t.ffmpeg_dir(false, Some("/usr/bin".into())), "/usr/bin");
    assert_eq!(t.ffmpeg_dir(true, Some("/usr/bin".into())), "/opt/omnidl/bin");
    // on Windows only the app's own copies are used
    let w = Tools::new("C:\\omnidl", true);
    assert_eq!(w.deno(false, Some("C:\\deno.exe".into())), "C:\\omnidl\\bin\\deno.exe");
}

#[test]
fn a_fresh_download_is_not_stale() {
    let today = days_from_civil(2026, 3, 1);
    let (v, age) = ytdlp_report("2026.01.01\n", true, Some(2), today).unwrap();
    assert_eq!((v.as_str(), age), ("2026.01.01", Some(2)));
    assert_eq!(ytdlp_report("2026.01.01", true, None, today).unwrap().1, Some(59));
    assert_eq!(ytdlp_report("2026.01.01", true, Some(100), today).unwrap().1, Some(59));
    assert_eq!(ytdlp_report("nightly", true, Some(2), today).unwrap().1, None);
    assert_eq!(ytdlp_report("2026.01.01", false, None, today), None);
    assert_eq!(ytdlp_report("  \n", true, None, today), None);
}

#[test]
fn ffmpeg_and_ffprobe_share_a_folder() {
    let t = Tools::new("/opt/omnidl", false);
    assert_eq!(t.ffmpeg("/usr/bin"), "/usr/bin/ffmpeg");
    assert_eq!(t.ffprobe("/usr/bin/"), "/usr/bin/ffprobe");
    let w = Tools::new("C:\\omnidl", true);
    assert_eq!(w.ffprobe("C:\\omnidl\\bin"), "C:\\omnidl\\bin\\ffprobe.exe");
}

#[test]
fn archive_entries_land_inside_the_folder() {
    assert_eq!(place_entry("yt-dlp/yt-dlp.exe", None, Some("yt-dlp/")), Placement::Keep("yt-dlp.exe".into()));
    assert_eq!(place_entry("yt-dlp\\_internal\\lib.dll", None, Some("yt-dlp/")), Placement::Keep("_internal/lib.dll".into()));
    assert_eq!(place_entry("yt-dlp/", None, Some("yt-dlp/")), Placement::Skip);
    assert_eq!(place_entry("a\\..\\b", None, None), Placement::Unsafe("a/../b".into()));
    assert_eq!(place_entry("C:/x", None, None), Placement::Unsafe("C:/x".into()));
    assert_eq!(place_entry("..foo/bar", None, None), Placement::Keep("..foo/bar".into()));
}

#[test]
fn wanted_programs_land_flat() {
    let wanted = names(&["bin/ffmpeg.exe", "bin/ffprobe.exe"]);
    assert_eq!(
        place_entry("ffmpeg-7.1-essentials/bin/ffprobe.exe", Some(&wanted), None),
        Placement::Program("ffprobe.exe".into())
    );
    assert_eq!(place_entry("ffmpeg-7.1-essentials/doc/ffmpeg.html", Some(&wanted), None), Placement::Skip);
    assert_eq!(place_entry("deno.exe", Some(&names(&["deno.exe"])), None), Placement::Program("deno.exe".into()));
}
