//! Download settings: output format and quality, browser cookies, and the
//! rule that switching between video and audio returns to the format last
//! used on the other side.

use vstd::prelude::*;

verus! {

#[derive(Clone, Copy, PartialEq, Eq, Debug, Structural)]
pub enum Format {
    Mp4,
    Mkv,
    Mp3,
    M4a,
    Opus,
    Flac,
    Wav,
}

impl Format {
    pub open spec fn label_text(self) -> Seq<char> {
        match self {
            Format::Mp4 => "MP4"@,
            Format::Mkv => "MKV"@,
            Format::Mp3 => "MP3"@,
            Format::M4a => "M4A"@,
            Format::Opus => "Opus"@,
            Format::Flac => "FLAC"@,
            Format::Wav => "WAV"@,
        }
    }

    pub open spec fn ext_text(self) -> Seq<char> {
        match self {
            Format::Mp4 => "mp4"@,
            Format::Mkv => "mkv"@,
            Format::Mp3 => "mp3"@,
            Format::M4a => "m4a"@,
            Format::Opus => "opus"@,
            Format::Flac => "flac"@,
            Format::Wav => "wav"@,
        }
    }

    /// Every format but the two video containers is audio.
    pub open spec fn audio(self) -> bool {
        !(self is Mp4 || self is Mkv)
    }

    pub open spec fn bitrated(self) -> bool {
        self is Mp3 || self is M4a || self is Opus
    }

    pub fn label(self) -> (r: &'static str)
        ensures
            r@ == self.label_text(),
    {
        match self {
            Format::Mp4 => "MP4",
            Format::Mkv => "MKV",
            Format::Mp3 => "MP3",
            Format::M4a => "M4A",
            Format::Opus => "Opus",
            Format::Flac => "FLAC",
            Format::Wav => "WAV",
        }
    }

    /// File extension of the format.
    pub fn ext(self) -> (r: &'static str)
        ensures
            r@ == self.ext_text(),
    {
        match self {
            Format::Mp4 => "mp4",
            Format::Mkv => "mkv",
            Format::Mp3 => "mp3",
            Format::M4a => "m4a",
            Format::Opus => "opus",
            Format::Flac => "flac",
            Format::Wav => "wav",
        }
    }

    pub fn is_audio(self) -> (b: bool)
        ensures
            b == self.audio(),
    {
        !matches!(self, Format::Mp4 | Format::Mkv)
    }

    /// Formats where a bitrate/quality setting makes sense.
    pub fn has_bitrate(self) -> (b: bool)
        ensures
            b == self.bitrated(),
    {
        matches!(self, Format::Mp3 | Format::M4a | Format::Opus)
    }
}

#[derive(Clone, Copy, PartialEq, Eq, Debug, Structural)]
pub enum VideoQuality {
    Best,
    P2160,
    P1440,
    P1080,
    P720,
    P480,
    P360,
}

impl VideoQuality {
    pub open spec fn lines(self) -> Option<u32> {
        match self {
            VideoQuality::Best => None,
            VideoQuality::P2160 => Some(2160),
            VideoQuality::P1440 => Some(1440),
            VideoQuality::P1080 => Some(1080),
            VideoQuality::P720 => Some(720),
            VideoQuality::P480 => Some(480),
            VideoQuality::P360 => Some(360),
        }
    }

    pub open spec fn label_text(self) -> Seq<char> {
        match self {
            VideoQuality::Best => "Beste Qualität"@,
            VideoQuality::P2160 => "2160p (4K)"@,
            VideoQuality::P1440 => "1440p"@,
            VideoQuality::P1080 => "1080p"@,
            VideoQuality::P720 => "720p"@,
            VideoQuality::P480 => "480p"@,
            VideoQuality::P360 => "360p"@,
        }
    }

    /// Highest picture height asked for; `None` for the best there is.
    pub fn height(self) -> (r: Option<u32>)
        ensures
            r == self.lines(),
    {
        match self {
            VideoQuality::Best => None,
            VideoQuality::P2160 => Some(2160),
            VideoQuality::P1440 => Some(1440),
            VideoQuality::P1080 => Some(1080),
            VideoQuality::P720 => Some(720),
            VideoQuality::P480 => Some(480),
            VideoQuality::P360 => Some(360),
        }
    }

    pub fn label(self) -> (r: &'static str)
        ensures
            r@ == self.label_text(),
    {
        match self {
            VideoQuality::Best => "Beste Qualität",
            VideoQuality::P2160 => "2160p (4K)",
            VideoQuality::P1440 => "1440p",
            VideoQuality::P1080 => "1080p",
            VideoQuality::P720 => "720p",
            VideoQuality::P480 => "480p",
            VideoQuality::P360 => "360p",
        }
    }
}

#[derive(Clone, Copy, PartialEq, Eq, Debug, Structural)]
pub enum AudioQuality {
    Best,
    K320,
    K256,
    K192,
    K128,
}

impl AudioQuality {
    pub open spec fn value_text(self) -> Seq<char> {
        match self {
            AudioQuality::Best => "0"@,
            AudioQuality::K320 => "320K"@,
            AudioQuality::K256 => "256K"@,
            AudioQuality::K192 => "192K"@,
            AudioQuality::K128 => "128K"@,
        }
    }

    pub open spec fn label_text(self) -> Seq<char> {
        match self {
            AudioQuality::Best => "Beste (VBR)"@,
            AudioQuality::K320 => "320 kbps"@,
            AudioQuality::K256 => "256 kbps"@,
            AudioQuality::K192 => "192 kbps"@,
            AudioQuality::K128 => "128 kbps"@,
        }
    }

    /// Value for yt-dlp `--audio-quality`.
    pub fn ytdlp_value(self) -> (r: &'static str)
        ensures
            r@ == self.value_text(),
    {
        match self {
            AudioQuality::Best => "0",
            AudioQuality::K320 => "320K",
            AudioQuality::K256 => "256K",
            AudioQuality::K192 => "192K",
            AudioQuality::K128 => "128K",
        }
    }

    pub fn label(self) -> (r: &'static str)
        ensures
            r@ == self.label_text(),
    {
        match self {
            AudioQuality::Best => "Beste (VBR)",
            AudioQuality::K320 => "320 kbps",
            AudioQuality::K256 => "256 kbps",
            AudioQuality::K192 => "192 kbps",
            AudioQuality::K128 => "128 kbps",
        }
    }
}

#[derive(Clone, Copy, PartialEq, Eq, Debug, Structural)]
pub enum Cookies {
    Off,
    Firefox,
    Edge,
    Chrome,
    Brave,
}

impl Cookies {
    pub open spec fn browser_text(self) -> Option<Seq<char>> {
        match self {
            Cookies::Off => None,
            Cookies::Firefox => Some("firefox"@),
            Cookies::Edge => Some("edge"@),
            Cookies::Chrome => Some("chrome"@),
            Cookies::Brave => Some("brave"@),
        }
    }

    pub open spec fn label_text(self) -> Seq<char> {
        match self {
            Cookies::Off => "Aus"@,
            Cookies::Firefox => "Firefox"@,
            Cookies::Edge => "Edge"@,
            Cookies::Chrome => "Chrome"@,
            Cookies::Brave => "Brave"@,
        }
    }

    /// Browser whose cookies yt-dlp reads, if any.
    pub fn browser(self) -> (r: Option<&'static str>)
        ensures
            r matches Some(b) ==> self.browser_text() == Some(b@),
            r is None <==> self.browser_text() is None,
    {
        match self {
            Cookies::Off => None,
            Cookies::Firefox => Some("firefox"),
            Cookies::Edge => Some("edge"),
            Cookies::Chrome => Some("chrome"),
            Cookies::Brave => Some("brave"),
        }
    }

    pub fn label(self) -> (r: &'static str)
        ensures
            r@ == self.label_text(),
    {
        match self {
            Cookies::Off => "Aus",
            Cookies::Firefox => "Firefox",
            Cookies::Edge => "Edge",
            Cookies::Chrome => "Chrome",
            Cookies::Brave => "Brave",
        }
    }
}

/// Video or audio, as requested from outside (browser extension, `omnidl://` link).
#[derive(Clone, Copy, PartialEq, Eq, Debug, Structural)]
pub enum Mode {
    Video,
    Audio,
}

#[derive(Clone, Debug, PartialEq)]
pub struct Config {
    pub download_dir: String,
    pub parallel: usize,
    pub format: Format,
    /// Formats to return to when switching between video and audio.
    pub last_video: Format,
    pub last_audio: Format,
    pub video_quality: VideoQuality,
    pub audio_quality: AudioQuality,
    pub playlist: bool,
    pub cookies: Cookies,
    pub check_updates: bool,
}

impl Config {
    /// The remembered formats lie on their own side.
    pub open spec fn sides_ok(self) -> bool {
        self.last_audio.audio() && !self.last_video.audio()
    }

    /// The current format is the one remembered for its side.
    pub open spec fn remembers(self) -> bool {
        if self.format.audio() {
            self.last_audio == self.format
        } else {
            self.last_video == self.format
        }
    }

    /// The settings after choosing `f`.
    pub open spec fn with_format(self, f: Format) -> Config {
        if f.audio() {
            Config { format: f, last_audio: f, ..self }
        } else {
            Config { format: f, last_video: f, ..self }
        }
    }

    /// The settings after switching to audio or video.
    pub open spec fn with_audio(self, audio: bool) -> Config {
        if audio == self.format.audio() {
            self
        } else if audio {
            Config { format: self.last_audio, ..self }
        } else {
            Config { format: self.last_video, ..self }
        }
    }

    pub open spec fn with_mode(self, mode: Option<Mode>) -> Config {
        match mode {
            Some(m) => self.with_audio(m == Mode::Audio),
            None => self,
        }
    }

    /// Settings as read from disk: the current format becomes the one
    /// remembered for its side.
    pub open spec fn settled(self) -> Config {
        if self.format.audio() {
            Config { last_audio: self.format, ..self }
        } else {
            Config { last_video: self.format, ..self }
        }
    }

    /// The defaults, downloading into `download_dir`.
    pub open spec fn defaults(download_dir: String) -> Config {
        Config {
            download_dir: download_dir,
            parallel: 4,
            format: Format::Mp4,
            last_video: Format::Mp4,
            last_audio: Format::Mp3,
            video_quality: VideoQuality::Best,
            audio_quality: AudioQuality::Best,
            playlist: true,
            cookies: Cookies::Off,
            check_updates: true,
        }
    }

    /// The default settings; `download_dir` is where downloads go.
    pub fn new(download_dir: String) -> (r: Config)
        ensures
            r == Config::defaults(download_dir),
    {
        Config {
            download_dir,
            parallel: 4,
            format: Format::Mp4,
            last_video: Format::Mp4,
            last_audio: Format::Mp3,
            video_quality: VideoQuality::Best,
            audio_quality: AudioQuality::Best,
            playlist: true,
            cookies: Cookies::Off,
            check_updates: true,
        }
    }

    /// Settings from a stored file: `parsed` is what the file held, `None`
    /// when it is missing or unreadable, in which case the defaults for
    /// `download_dir` apply. Files written before formats were remembered
    /// start from their current format.
    pub fn load(parsed: Option<Config>, download_dir: String) -> (r: Config)
        ensures
            r == (match parsed {
                Some(c) => c,
                None => Config::defaults(download_dir),
            }).settled(),
    {
        let mut cfg = match parsed {
            Some(c) => c,
            None => Config::new(download_dir),
        };
        if cfg.format.is_audio() {
            cfg.last_audio = cfg.format;
        } else {
            cfg.last_video = cfg.format;
        }
        cfg
    }

    /// The same settings, as a value of its own.
    pub fn copy(&self) -> (r: Config)
        ensures
            r == *self,
    {
        Config { download_dir: self.download_dir.clone(), ..*self }
    }

    /// Switches between video and audio, remembering the format of the side left.
    pub fn set_audio(&mut self, audio: bool)
        ensures
            *final(self) == old(self).with_audio(audio),
    {
        if audio == self.format.is_audio() {
            return;
        }
        self.format = if audio {
            self.last_audio
        } else {
            self.last_video
        };
    }

    pub fn set_format(&mut self, f: Format)
        ensures
            *final(self) == old(self).with_format(f),
    {
        self.format = f;
        if f.is_audio() {
            self.last_audio = f;
        } else {
            self.last_video = f;
        }
    }

    /// Copy for a download requested as video or audio from outside the window.
    pub fn for_mode(&self, mode: Option<Mode>) -> (r: Config)
        ensures
            r == self.with_mode(mode),
    {
        let mut c = Config {
            download_dir: self.download_dir.clone(),
            parallel: self.parallel,
            format: self.format,
            last_video: self.last_video,
            last_audio: self.last_audio,
            video_quality: self.video_quality,
            audio_quality: self.audio_quality,
            playlist: self.playlist,
            cookies: self.cookies,
            check_updates: self.check_updates,
        };
        if let Some(m) = mode {
            c.set_audio(matches!(m, Mode::Audio));
        }
        c
    }
}

/// Choosing a format remembers it: afterwards it is the current format, it
/// is what its side returns to, and the sides stay sorted.
pub proof fn lemma_choice_is_remembered(c: Config, f: Format)
    ensures
        c.with_format(f).format == f,
        c.with_format(f).remembers(),
        c.sides_ok() ==> c.with_format(f).sides_ok(),
{
}

/// Switching to one side and back returns to the format one started from,
/// whenever that format was the one remembered for its side and both
/// remembered formats lie on their own side.
pub proof fn lemma_switch_round_trip(c: Config)
    requires
        c.sides_ok(),
        c.remembers(),
    ensures
        c.with_audio(!c.format.audio()).with_audio(c.format.audio()) == c,
{
}

/// With both remembered formats on their own side, switching lands on the
/// side asked for, keeps everything but the format, and keeps the
/// remembered formats.
pub proof fn lemma_switch_lands_on_side(c: Config, audio: bool)
    requires
        c.sides_ok(),
    ensures
        c.with_audio(audio).format.audio() == audio,
        c.with_audio(audio).sides_ok(),
        c.remembers() ==> c.with_audio(audio).remembers(),
        c.with_audio(audio) == (Config { format: c.with_audio(audio).format, ..c }),
{
}

/// A request from outside changes the format at most, and no request keeps
/// the settings as they are.
pub proof fn lemma_mode_changes_only_format(c: Config, mode: Option<Mode>)
    ensures
        c.with_mode(mode) == (Config { format: c.with_mode(mode).format, ..c }),
        c.with_mode(None) == c,
{
}

/// Loaded settings always remember their current format.
pub proof fn lemma_loaded_remembers(c: Config)
    ensures
        c.settled().remembers(),
        c.settled().format == c.format,
{
}

} // verus!
