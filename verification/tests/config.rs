use omnidl::config::{AudioQuality, Config, Cookies, Format, Mode, VideoQuality};

#[test]
fn switching_kind_returns_to_the_last_format() {
    let mut cfg = Config::new("/dl".into());
    cfg.set_format(Format::Mkv);
    cfg.set_audio(true);
    assert_eq!(cfg.format, Format::Mp3);
    cfg.set_format(Format::Flac);
    cfg.set_audio(false);
    assert_eq!(cfg.format, Format::Mkv);
    cfg.set_audio(true);
    assert_eq!(cfg.format, Format::Flac);
}

#[test]
fn mode_from_outside_overrides_only_the_kind() {
    let mut cfg = Config::new("/dl".into());
    cfg.set_format(Format::Opus);
    cfg.set_audio(false);
    assert_eq!(cfg.for_mode(Some(Mode::Audio)).format, Format::Opus);
    assert_eq!(cfg.for_mode(Some(Mode::Video)).format, Format::Mp4);
    assert_eq!(cfg.for_mode(None).format, Format::Mp4);
    assert_eq!(cfg.format, Format::Mp4, "Original bleibt unverändert");
}

#[test]
fn loading_keeps_every_field() {
    let cfg = Config {
        download_dir: "D:/Musik".into(),
        parallel: 7,
        format: Format::Flac,
        last_video: Format::Mkv,
        last_audio: Format::Flac,
        video_quality: VideoQuality::P720,
        audio_quality: AudioQuality::K192,
        playlist: false,
        cookies: Cookies::Firefox,
        check_updates: false,
    };
    assert_eq!(Config::load(Some(cfg.copy()), "/fallback".into()), cfg);
    assert_eq!(Config::load(None, "/fallback".into()), Config::new("/fallback".into()));
}

#[test]
fn labels_and_values() {
    assert_eq!(Format::Mp3.ext(), "mp3");
    assert!(Format::Flac.is_audio() && !Format::Flac.has_bitrate());
    assert_eq!(VideoQuality::P720.height(), Some(720));
    assert_eq!(AudioQuality::K320.ytdlp_value(), "320K");
    assert_eq!(Cookies::Off.browser(), None);
    assert_eq!(Cookies::Firefox.browser(), Some("firefox"));
}
