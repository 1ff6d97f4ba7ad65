use omnidl::config::{AudioQuality, Config, Cookies, Format, VideoQuality};
use omnidl::ytdlp::{
    build_args, conclude, effective_format, entry_title, entry_url, error_in, hear, is_processing, list_args,
    parse_item, Heard, Outcome, Request,
};

fn cfg(format: Format) -> Config {
    Config {
        download_dir: "C:/dl".into(),
        parallel: 4,
        format,
        video_quality: VideoQuality::P1080,
        audio_quality: AudioQuality::K320,
        playlist: false,
        cookies: Cookies::Off,
        ..Config::new("C:/dl".into())
    }
}

#[test]
fn item_lines() {
    assert_eq!(parse_item("[download] Downloading item 3 of 20"), Some((3, 20)));
    assert_eq!(parse_item("[download] Downloading item x of y"), None);
    assert_eq!(parse_item("irgendwas"), None);
}

#[test]
fn audio_args_extract_and_convert() {
    let c = cfg(Format::Mp3);
    let req = Request {
        url: "https://x/1",
        dir: "C:/dl",
        template: "%(title)s.%(ext)s".into(),
        cfg: &c,
        playlist: false,
        embed_meta: true,
        force_audio: false,
        duration: Some((180_000, 200_000)),
    };
    let a = build_args("C:/app/bin", None, &req);
    let joined = a.join(" ");
    assert!(joined.contains("-x --audio-format mp3 --audio-quality 320K"));
    assert!(joined.contains("--match-filter duration>=180 & duration<=200"));
    assert!(joined.contains("--embed-thumbnail"));
    assert!(joined.ends_with("-- https://x/1"));
    assert!(joined.contains("--no-playlist"));
}

#[test]
fn video_args_prefer_compatible_codecs() {
    let c = cfg(Format::Mp4);
    let req = Request {
        url: "https://x/1",
        dir: "C:/dl",
        template: "%(title)s.%(ext)s".into(),
        cfg: &c,
        playlist: true,
        embed_meta: false,
        force_audio: false,
        duration: None,
    };
    let joined = build_args("C:/app/bin", None, &req).join(" ");
    assert!(joined.contains("-S res:1080,vcodec:h264,acodec:aac"));
    assert!(joined.contains("--merge-output-format mp4"));
    assert!(joined.contains("--yes-playlist"));
    assert!(!joined.contains("--embed-metadata"));
}

#[test]
fn force_audio_overrides_video_format() {
    let c = cfg(Format::Mp4);
    assert_eq!(effective_format(&c, true), Format::Mp3);
    assert_eq!(effective_format(&c, false), Format::Mp4);
    let c = cfg(Format::Flac);
    assert_eq!(effective_format(&c, true), Format::Flac);
}

#[test]
fn runtime_and_tools_are_passed_on() {
    let c = cfg(Format::Mp4);
    let req = Request {
        url: "https://x/1",
        dir: "/dl",
        template: "t.%(ext)s".into(),
        cfg: &c,
        playlist: false,
        embed_meta: false,
        force_audio: false,
        duration: None,
    };
    let a = build_args("/opt/ff", Some("deno:/opt/deno".into()), &req);
    let joined = a.join(" ");
    assert!(joined.contains("--ffmpeg-location /opt/ff"), "{joined}");
    assert!(joined.contains("--js-runtimes deno:/opt/deno"), "{joined}");
}

#[test]
fn processing_lines_and_fresh_outcomes() {
    assert!(is_processing("[ExtractAudio] Destination: x.mp3"));
    assert!(!is_processing("[download]  45.0% of 3.00MiB"));
    let o = Outcome::new();
    assert!(o.files.is_empty() && !o.cancelled && o.error.is_none());
}

#[test]
fn output_lines_are_read_in_order() {
    assert!(matches!(hear("OMNITITLE  Mein Lied "), Heard::Title(t) if t == "Mein Lied"));
    assert!(matches!(hear("OMNIFILE /dl/a.mp3\r"), Heard::File(f) if f == "/dl/a.mp3"));
    assert!(matches!(hear("OMNI 1024 2048 NA 38605.4 5"), Heard::Progress(r) if r == "1024 2048 NA 38605.4 5"));
    // fewer than three counts is no progress line
    assert!(matches!(hear("OMNI 1024 2048"), Heard::Nothing));
    assert!(matches!(hear("[download] Downloading item 3 of 20"), Heard::Item(3, 20)));
    assert!(matches!(hear("[Merger] Merging formats"), Heard::Processing));
    assert!(matches!(hear("[download] x does not pass filter (duration>=180)"), Heard::Filtered));
    assert!(matches!(hear("[download] Destination: /dl/a.webm"), Heard::Destination));
    assert!(matches!(hear("[youtube] abc: Downloading webpage"), Heard::Nothing));
}

#[test]
fn error_lines_give_their_message() {
    assert_eq!(error_in("ERROR: Video unavailable  ").as_deref(), Some("Video unavailable"));
    assert_eq!(error_in("WARNING: slow"), None);
}

#[test]
fn a_run_without_files_fails() {
    let mut out = Outcome::new();
    conclude(&mut out, true, None);
    assert_eq!(out.error.as_deref(), Some("keine Datei erzeugt"));
    let mut out = Outcome::new();
    conclude(&mut out, false, None);
    assert_eq!(out.error.as_deref(), Some("yt-dlp ist fehlgeschlagen"));
    let mut out = Outcome::new();
    conclude(&mut out, false, Some("Private video".to_string()));
    assert_eq!(out.error.as_deref(), Some("Private video"));
    let mut out = Outcome::new();
    out.files.push("/dl/a.mp3".to_string());
    conclude(&mut out, false, Some("late".to_string()));
    assert_eq!(out.error, None);
    let mut out = Outcome::new();
    out.filtered = true;
    conclude(&mut out, true, None);
    assert_eq!(out.error, None);
}

#[test]
fn flat_list_entries_fall_back_to_the_id() {
    assert_eq!(entry_url(Some("https://x/1"), Some("abc")).as_deref(), Some("https://x/1"));
    assert_eq!(entry_url(None, Some("abc")).as_deref(), Some("https://www.youtube.com/watch?v=abc"));
    assert_eq!(entry_url(None, None), None);
    assert_eq!(entry_title(None), "(ohne Titel)");
    assert_eq!(entry_title(Some("Lied")), "Lied");
}

#[test]
fn flat_listing_arguments() {
    let a = list_args(Some("deno:/bin/deno"), Some("firefox"), Some(5), "ytsearch:lied");
    assert_eq!(
        a.join(" "),
        "--flat-playlist -J --no-warnings --color never --js-runtimes deno:/bin/deno --cookies-from-browser firefox --playlist-end 5 -- ytsearch:lied"
    );
    assert_eq!(list_args(None, None, None, "https://x/l").join(" "), "--flat-playlist -J --no-warnings --color never -- https://x/l");
}

#[test]
fn duration_bounds_read_as_whole_seconds() {
    let c = cfg(Format::Mp3);
    let args_for = |duration: Option<(i64, i64)>| {
        let req = Request {
            url: "https://x/1",
            dir: "C:/dl",
            template: "%(title)s.%(ext)s".into(),
            cfg: &c,
            playlist: false,
            embed_meta: false,
            force_audio: true,
            duration,
        };
        build_args("C:/app/bin", None, &req).join(" ")
    };
    assert!(args_for(Some((-5_000, 15_000))).contains("--match-filter duration>=-5 & duration<=15"));
    assert!(args_for(Some((-300, 9_700))).contains("--match-filter duration>=-0 & duration<=10"));
    assert!(args_for(Some((2_500, 3_500))).contains("--match-filter duration>=2 & duration<=4"));
    assert!(args_for(Some((176_700, 203_300))).contains("--match-filter duration>=177 & duration<=203"));
}
