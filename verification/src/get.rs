//! The rules of `omnidl-cli get`: the command-line choices and how they
//! change the settings, which arguments are links, when the run is over,
//! what it says along the way, and its exit code.

use crate::config::{AudioQuality, Config, Cookies, Format, VideoQuality};
use crate::deps::{DepsStatus, STALE_DAYS};
use crate::detect::{split_text, split_urls};
use crate::job::{JobId, JobState, JobUpdate};
use crate::jobs::{Job, JobView, Jobs, applied, last_pos, runs, status_of, top_jobs};
use crate::launch::{is_web_link, web_link, texts};
use crate::text::{
    chars_of, decimal, is_digit, join, join_strings, parse_u64, parsed_u64, push_decimal,
    push_str, same_str, split_first, split_once, string_of, string_views, trim_chars, trim_spaces,
};
use vstd::prelude::*;
use vstd::string::StringExecFns;

verus! {

/// Wrong arguments; the same code the argument parser uses.
pub const USAGE: u8 = 2;

/// After Ctrl+C (128 + SIGINT), as shells expect.
pub const INTERRUPTED: u8 = 130;

#[derive(Clone, Copy, Debug, PartialEq, Eq, Structural)]
pub enum FormatArg {
    Mp4,
    Mkv,
    Mp3,
    M4a,
    Opus,
    Flac,
    Wav,
}

impl FormatArg {
    pub open spec fn spec_format(self) -> Format {
        match self {
            FormatArg::Mp4 => Format::Mp4,
            FormatArg::Mkv => Format::Mkv,
            FormatArg::Mp3 => Format::Mp3,
            FormatArg::M4a => Format::M4a,
            FormatArg::Opus => Format::Opus,
            FormatArg::Flac => Format::Flac,
            FormatArg::Wav => Format::Wav,
        }
    }

    /// The format the flag names.
    pub fn format(self) -> (r: Format)
        ensures
            r == self.spec_format(),
    {
        match self {
            FormatArg::Mp4 => Format::Mp4,
            FormatArg::Mkv => Format::Mkv,
            FormatArg::Mp3 => Format::Mp3,
            FormatArg::M4a => Format::M4a,
            FormatArg::Opus => Format::Opus,
            FormatArg::Flac => Format::Flac,
            FormatArg::Wav => Format::Wav,
        }
    }
}

#[derive(Clone, Copy, Debug, PartialEq, Eq, Structural)]
pub enum QualityArg {
    Best,
    P2160,
    P1440,
    P1080,
    P720,
    P480,
    P360,
}

impl QualityArg {
    pub open spec fn spec_quality(self) -> VideoQuality {
        match self {
            QualityArg::Best => VideoQuality::Best,
            QualityArg::P2160 => VideoQuality::P2160,
            QualityArg::P1440 => VideoQuality::P1440,
            QualityArg::P1080 => VideoQuality::P1080,
            QualityArg::P720 => VideoQuality::P720,
            QualityArg::P480 => VideoQuality::P480,
            QualityArg::P360 => VideoQuality::P360,
        }
    }

    pub fn quality(self) -> (r: VideoQuality)
        ensures
            r == self.spec_quality(),
    {
        match self {
            QualityArg::Best => VideoQuality::Best,
            QualityArg::P2160 => VideoQuality::P2160,
            QualityArg::P1440 => VideoQuality::P1440,
            QualityArg::P1080 => VideoQuality::P1080,
            QualityArg::P720 => VideoQuality::P720,
            QualityArg::P480 => VideoQuality::P480,
            QualityArg::P360 => VideoQuality::P360,
        }
    }
}

#[derive(Clone, Copy, Debug, PartialEq, Eq, Structural)]
pub enum BitrateArg {
    Best,
    K320,
    K256,
    K192,
    K128,
}

impl BitrateArg {
    pub open spec fn spec_quality(self) -> AudioQuality {
        match self {
            BitrateArg::Best => AudioQuality::Best,
            BitrateArg::K320 => AudioQuality::K320,
            BitrateArg::K256 => AudioQuality::K256,
            BitrateArg::K192 => AudioQuality::K192,
            BitrateArg::K128 => AudioQuality::K128,
        }
    }

    pub fn quality(self) -> (r: AudioQuality)
        ensures
            r == self.spec_quality(),
    {
        match self {
            BitrateArg::Best => AudioQuality::Best,
            BitrateArg::K320 => AudioQuality::K320,
            BitrateArg::K256 => AudioQuality::K256,
            BitrateArg::K192 => AudioQuality::K192,
            BitrateArg::K128 => AudioQuality::K128,
        }
    }
}

#[derive(Clone, Copy, Debug, PartialEq, Eq, Structural)]
pub enum CookiesArg {
    Firefox,
    Chrome,
    Edge,
    Brave,
    /// No cookies, even where the app uses some.
    Off,
}

impl CookiesArg {
    pub open spec fn spec_cookies(self) -> Cookies {
        match self {
            CookiesArg::Firefox => Cookies::Firefox,
            CookiesArg::Chrome => Cookies::Chrome,
            CookiesArg::Edge => Cookies::Edge,
            CookiesArg::Brave => Cookies::Brave,
            CookiesArg::Off => Cookies::Off,
        }
    }

    pub fn cookies(self) -> (r: Cookies)
        ensures
            r == self.spec_cookies(),
    {
        match self {
            CookiesArg::Firefox => Cookies::Firefox,
            CookiesArg::Chrome => Cookies::Chrome,
            CookiesArg::Edge => Cookies::Edge,
            CookiesArg::Brave => Cookies::Brave,
            CookiesArg::Off => Cookies::Off,
        }
    }
}

/// The choices of one run as given on the command line; `dir` already made
/// absolute.
pub struct Flags {
    pub audio: bool,
    pub format: Option<FormatArg>,
    pub quality: Option<QualityArg>,
    pub bitrate: Option<BitrateArg>,
    pub dir: Option<String>,
    pub parallel: Option<u8>,
    pub no_playlist: bool,
    pub cookies: Option<CookiesArg>,
}

/// The format side chosen by the flags: audio first, then an explicit format.
pub open spec fn with_kind(audio: bool, format: Option<FormatArg>, cfg: Config) -> Config {
    let c1 = if audio {
        cfg.with_audio(true)
    } else {
        cfg
    };
    match format {
        Some(x) => c1.with_format(x.spec_format()),
        None => c1,
    }
}

/// The settings for this run: the app's, with the flags on top.
pub open spec fn with_flags(f: Flags, cfg: Config) -> Config {
    let k = with_kind(f.audio, f.format, cfg);
    Config {
        download_dir: match f.dir {
            Some(d) => d,
            None => k.download_dir,
        },
        parallel: match f.parallel {
            Some(n) => n as usize,
            None => k.parallel,
        },
        video_quality: match f.quality {
            Some(q) => q.spec_quality(),
            None => k.video_quality,
        },
        audio_quality: match f.bitrate {
            Some(b) => b.spec_quality(),
            None => k.audio_quality,
        },
        playlist: k.playlist && !f.no_playlist,
        cookies: match f.cookies {
            Some(c) => c.spec_cookies(),
            None => k.cookies,
        },
        ..k
    }
}

fn choose_kind(audio: bool, format: Option<FormatArg>, cfg: Config) -> (r: Config)
    ensures
        r == with_kind(audio, format, cfg),
{
    let mut cfg = cfg;
    if audio {
        cfg.set_audio(true);
    }
    if let Some(f) = format {
        cfg.set_format(f.format());
    }
    cfg
}

/// The settings for this run: the app's, with the flags on top. Nothing is saved.
pub fn config(flags: Flags, cfg: Config) -> (r: Config)
    ensures
        r == with_flags(flags, cfg),
{
    let k = choose_kind(flags.audio, flags.format, cfg);
    Config {
        download_dir: match flags.dir {
            Some(d) => d,
            None => k.download_dir,
        },
        parallel: match flags.parallel {
            Some(n) => n as usize,
            None => k.parallel,
        },
        format: k.format,
        last_video: k.last_video,
        last_audio: k.last_audio,
        video_quality: match flags.quality {
            Some(q) => q.quality(),
            None => k.video_quality,
        },
        audio_quality: match flags.bitrate {
            Some(b) => b.quality(),
            None => k.audio_quality,
        },
        playlist: k.playlist && !flags.no_playlist,
        cookies: match flags.cookies {
            Some(c) => c.cookies(),
            None => k.cookies,
        },
        check_updates: k.check_updates,
    }
}

/// A part of a clock time: `lo` to `hi` ASCII digits.
pub open spec fn clock_part(p: Seq<char>, lo: nat, hi: nat) -> Option<u64> {
    if lo <= p.len() <= hi && (forall|i: int| 0 <= i < p.len() ==> is_digit(#[trigger] p[i])) {
        parsed_u64(p)
    } else {
        None
    }
}

/// "2:30" or "02:30" as (hour, minute).
pub open spec fn clock_of(s: Seq<char>) -> Option<(u32, u32)> {
    match split_once(trim_spaces(s), seq![':']) {
        Some((h, m)) => match (clock_part(h, 1, 2), clock_part(m, 2, 2)) {
            (Some(a), Some(b)) => if a < 24 && b < 60 {
                Some((a as u32, b as u32))
            } else {
                None
            },
            _ => None,
        },
        None => None,
    }
}

fn part(p: &[char], lo: usize, hi: usize) -> (r: Option<u64>)
    ensures
        r == clock_part(p@, lo as nat, hi as nat),
{
    if p.len() < lo || p.len() > hi {
        return None;
    }
    let mut i: usize = 0;
    while i < p.len()
        invariant
            i <= p@.len(),
            forall|k: int| 0 <= k < i ==> is_digit(#[trigger] p@[k]),
        decreases p@.len() - i,
    {
        if !('0' <= p[i] && p[i] <= '9') {
            assert(!is_digit(p@[i as int]));
            return None;
        }
        i += 1;
    }
    parse_u64(p)
}

/// "2:30" or "02:30" as (hour, minute); otherwise the message for the user.
pub fn parse_at(s: &str) -> (r: Result<(u32, u32), String>)
    ensures
        match clock_of(s@) {
            Some(t) => r == Ok::<(u32, u32), String>(t),
            None => r matches Err(m) && m@ == "„"@ + s@ + "“ ist keine Uhrzeit, bitte als HH:MM angeben, etwa 02:30"@,
        },
{
    let t = trim_chars(chars_of(s).as_slice());
    let colon: [char; 1] = [':'];
    assert(colon@ == seq![':']);
    let found = match split_first(t.as_slice(), colon.as_slice()) {
        Some((h, m)) => match (part(h.as_slice(), 1, 2), part(m.as_slice(), 2, 2)) {
            (Some(a), Some(b)) => if a < 24 && b < 60 {
                Some((a as u32, b as u32))
            } else {
                None
            },
            _ => None,
        },
        None => None,
    };
    match found {
        Some(t) => Ok(t),
        None => {
            let mut m = String::from_str("„");
            push_str(&mut m, s);
            push_str(&mut m, "“ ist keine Uhrzeit, bitte als HH:MM angeben, etwa 02:30");
            Err(m)
        },
    }
}

/// The web links an argument holds.
pub open spec fn arg_links(a: Seq<char>) -> Seq<Seq<char>> {
    split_text(a).filter(|u: Seq<char>| web_link(u))
}

/// The links of all arguments, and the arguments that hold none.
pub open spec fn sorted_args(args: Seq<Seq<char>>) -> (Seq<Seq<char>>, Seq<Seq<char>>)
    decreases args.len(),
{
    if args.len() == 0 {
        (seq![], seq![])
    } else {
        let (urls, bad) = sorted_args(args.drop_last());
        let found = arg_links(args.last());
        (urls + found, if found.len() == 0 {
            bad.push(args.last())
        } else {
            bad
        })
    }
}

proof fn lemma_filter_push_links(s: Seq<Seq<char>>, x: Seq<char>)
    ensures
        s.push(x).filter(|u: Seq<char>| web_link(u)) == if web_link(x) {
            s.filter(|u: Seq<char>| web_link(u)).push(x)
        } else {
            s.filter(|u: Seq<char>| web_link(u))
        },
{
    reveal(Seq::filter);
    assert(s.push(x).drop_last() =~= s);
}

fn web_links_of(arg: &str) -> (r: Vec<String>)
    ensures
        texts(r@) == arg_links(arg@),
{
    let all = split_urls(arg);
    let mut out: Vec<String> = Vec::new();
    let mut i: usize = 0;
    assert(texts(out@) =~= string_views(all@).take(0).filter(|u: Seq<char>| web_link(u)));
    while i < all.len()
        invariant
            i <= all@.len(),
            texts(out@) == string_views(all@).take(i as int).filter(|u: Seq<char>| web_link(u)),
        decreases all@.len() - i,
    {
        proof {
            assert(string_views(all@).take(i + 1) =~= string_views(all@).take(i as int).push(all@[i as int]@));
            lemma_filter_push_links(string_views(all@).take(i as int), all@[i as int]@);
        }
        if is_web_link(all[i].as_str()) {
            let ghost before = texts(out@);
            out.push(all[i].clone());
            assert(texts(out@) =~= before.push(all@[i as int]@));
        }
        i += 1;
    }
    assert(string_views(all@).take(all@.len() as int) == string_views(all@));
    assert(texts(out@) == arg_links(arg@));
    out
}

/// Every argument must hold at least one web link; the ones that don't are returned.
pub fn links(args: &[String]) -> (r: Result<Vec<String>, Vec<String>>)
    ensures
        ({
            let (urls, bad) = sorted_args(string_views(args@));
            match r {
                Ok(v) => bad.len() == 0 && texts(v@) == urls,
                Err(v) => bad.len() > 0 && texts(v@) == bad,
            }
        }),
{
    let mut urls: Vec<String> = Vec::new();
    let mut bad: Vec<String> = Vec::new();
    let mut i: usize = 0;
    assert(texts(urls@) =~= Seq::<Seq<char>>::empty());
    assert(texts(bad@) =~= Seq::<Seq<char>>::empty());
    while i < args.len()
        invariant
            i <= args@.len(),
            (texts(urls@), texts(bad@)) == sorted_args(string_views(args@).take(i as int)),
        decreases args@.len() - i,
    {
        proof {
            let w = string_views(args@).take(i + 1);
            assert(w.drop_last() =~= string_views(args@).take(i as int));
            assert(w.last() == args@[i as int]@);
        }
        let found = web_links_of(args[i].as_str());
        if found.len() == 0 {
            let ghost before = texts(bad@);
            bad.push(args[i].clone());
            assert(texts(bad@) =~= before.push(args@[i as int]@));
        }
        let ghost before = texts(urls@);
        let mut k: usize = 0;
        while k < found.len()
            invariant
                k <= found@.len(),
                texts(urls@) == before + texts(found@).take(k as int),
            decreases found@.len() - k,
        {
            let ghost b2 = texts(urls@);
            urls.push(found[k].clone());
            assert(texts(urls@) =~= b2.push(found@[k as int]@));
            assert(texts(found@).take(k + 1) =~= texts(found@).take(k as int).push(found@[k as int]@));
            k += 1;
        }
        assert(texts(found@).take(found@.len() as int) == texts(found@));
        i += 1;
    }
    assert(string_views(args@).take(args@.len() as int) == string_views(args@));
    if bad.len() == 0 {
        Ok(urls)
    } else {
        Err(bad)
    }
}

/// Outcome per file: single jobs and the entries of lists, not the lists
/// themselves.
#[derive(Clone, Copy, Debug, PartialEq, Eq, Structural)]
pub struct Counts {
    pub done: usize,
    pub failed: usize,
    pub no_match: usize,
    pub cancelled: usize,
    /// Still running when the program gave up waiting.
    pub open: usize,
}

/// The jobs that are files: those without children.
pub open spec fn leaves(l: Seq<JobView>) -> Seq<JobView> {
    l.filter(|j: JobView| j.children.len() == 0)
}

pub open spec fn count_state(l: Seq<JobView>, f: spec_fn(JobState) -> bool) -> nat {
    leaves(l).filter(|j: JobView| f(j.state)).len()
}

pub open spec fn counted(l: Seq<JobView>) -> Counts
    decreases l.len(),
{
    if l.len() == 0 {
        Counts { done: 0, failed: 0, no_match: 0, cancelled: 0, open: 0 }
    } else {
        let c = counted(l.drop_last());
        let j = l.last();
        if j.children.len() > 0 {
            c
        } else {
            match j.state {
                JobState::Done => Counts { done: (c.done + 1) as usize, ..c },
                JobState::Failed(_) => Counts { failed: (c.failed + 1) as usize, ..c },
                JobState::NoMatch => Counts { no_match: (c.no_match + 1) as usize, ..c },
                JobState::Cancelled => Counts { cancelled: (c.cancelled + 1) as usize, ..c },
                _ => Counts { open: (c.open + 1) as usize, ..c },
            }
        }
    }
}

proof fn lemma_counted_bound(l: Seq<JobView>)
    ensures
        counted(l).done + counted(l).failed + counted(l).no_match + counted(l).cancelled
            + counted(l).open <= l.len(),
    decreases l.len(),
{
    if l.len() > 0 {
        lemma_counted_bound(l.drop_last());
    }
}

/// Outcome per file: single jobs and the entries of lists, not the lists themselves.
pub fn counts(jobs: &Jobs) -> (r: Counts)
    ensures
        r == counted(jobs@),
{
    let list = jobs.all();
    let mut c = Counts { done: 0, failed: 0, no_match: 0, cancelled: 0, open: 0 };
    let mut i: usize = 0;
    while i < list.len()
        invariant
            i <= list@.len(),
            crate::jobs::ref_views(list@) == jobs@,
            c == counted(jobs@.take(i as int)),
        decreases list@.len() - i,
    {
        proof {
            assert(jobs@.take(i + 1).drop_last() =~= jobs@.take(i as int));
            assert(jobs@.take(i + 1).last() == list@[i as int]@);
            lemma_counted_bound(jobs@.take(i as int));
        }
        let j = list[i];
        if j.children.len() == 0 {
            match j.state {
                JobState::Done => c.done = c.done + 1,
                JobState::Failed(_) => c.failed = c.failed + 1,
                JobState::NoMatch => c.no_match = c.no_match + 1,
                JobState::Cancelled => c.cancelled = c.cancelled + 1,
                _ => c.open = c.open + 1,
            }
        }
        i += 1;
    }
    assert(jobs@.take(jobs@.len() as int) == jobs@);
    c
}

/// "3 fertig, 1 fehlgeschlagen".
pub open spec fn summary_parts(c: Counts) -> Seq<Seq<char>> {
    (if c.done > 0 {
        seq![decimal(c.done as nat) + " fertig"@]
    } else {
        seq![]
    }) + (if c.failed > 0 {
        seq![decimal(c.failed as nat) + " fehlgeschlagen"@]
    } else {
        seq![]
    }) + (if c.no_match > 0 {
        seq![decimal(c.no_match as nat) + " ohne Treffer"@]
    } else {
        seq![]
    }) + (if c.cancelled > 0 {
        seq![decimal(c.cancelled as nat) + " gestoppt"@]
    } else {
        seq![]
    }) + (if c.open > 0 {
        seq![decimal(c.open as nat) + " nicht fertig"@]
    } else {
        seq![]
    })
}

pub open spec fn summary_text(c: Counts) -> Seq<char> {
    if summary_parts(c).len() == 0 {
        "Nichts heruntergeladen"@
    } else {
        join(summary_parts(c), ", "@)
    }
}

fn count_part(parts: &mut Vec<String>, n: usize, what: &str)
    ensures
        string_views(final(parts)@) == string_views(old(parts)@) + if n > 0 {
            seq![decimal(n as nat) + what@]
        } else {
            seq![]
        },
{
    if n > 0 {
        let mut s = String::new();
        push_decimal(&mut s, n as u64);
        push_str(&mut s, what);
        let ghost before = string_views(parts@);
        parts.push(s);
        assert(string_views(parts@) =~= before.push(decimal(n as nat) + what@));
    } else {
        assert(string_views(parts@) =~= string_views(old(parts)@) + Seq::<Seq<char>>::empty());
    }
}

/// "3 fertig, 1 fehlgeschlagen"; "Nichts heruntergeladen" when nothing counts.
pub fn summary(c: &Counts) -> (r: String)
    ensures
        r@ == summary_text(*c),
{
    let mut parts: Vec<String> = Vec::new();
    assert(string_views(parts@) =~= Seq::<Seq<char>>::empty());
    count_part(&mut parts, c.done, " fertig");
    count_part(&mut parts, c.failed, " fehlgeschlagen");
    count_part(&mut parts, c.no_match, " ohne Treffer");
    count_part(&mut parts, c.cancelled, " gestoppt");
    count_part(&mut parts, c.open, " nicht fertig");
    assert(string_views(parts@) =~= summary_parts(*c));
    if parts.len() == 0 {
        String::from_str("Nichts heruntergeladen")
    } else {
        join_strings(parts.as_slice(), ", ")
    }
}

pub open spec fn code_for(c: Counts, interrupted: bool, tools_failed: bool) -> u8 {
    if interrupted {
        INTERRUPTED
    } else if tools_failed || c.done == 0 || c.failed + c.no_match + c.cancelled + c.open > 0 {
        1
    } else {
        0
    }
}

/// 0: everything arrived; 1: something did not; 130: stopped with Ctrl+C.
pub fn exit_code(c: &Counts, interrupted: bool, tools_failed: bool) -> (r: u8)
    ensures
        r == code_for(*c, interrupted, tools_failed),
{
    if interrupted {
        INTERRUPTED
    } else if tools_failed || c.done == 0 || c.failed > 0 || c.no_match > 0 || c.cancelled > 0
        || c.open > 0 {
        1
    } else {
        0
    }
}

/// A run ends with 0 exactly when it was not interrupted, the tools worked,
/// something arrived and nothing else happened.
pub proof fn lemma_success_means_everything_arrived(c: Counts, interrupted: bool, tools_failed: bool)
    ensures
        (code_for(c, interrupted, tools_failed) == 0) == (!interrupted && !tools_failed && c.done > 0
            && c.failed == 0 && c.no_match == 0 && c.cancelled == 0 && c.open == 0),
        interrupted ==> code_for(c, interrupted, tools_failed) == INTERRUPTED,
{
}

/// Worth knowing before the downloads start, though they can go ahead.
pub open spec fn hint_lines(d: DepsStatus) -> Seq<Seq<char>> {
    (match d.error {
        Some(e) => seq!["Nicht alle Werkzeuge sind bereit: "@ + e@],
        None => seq![],
    }) + (if d.js is None {
        seq!["Keine JavaScript-Laufzeit gefunden, YouTube braucht eine."@]
    } else {
        seq![]
    }) + (match d.ytdlp_age_days {
        Some(a) => if a > STALE_DAYS {
            seq![
                "yt-dlp wurde seit "@ + decimal(a as nat)
                    + " Tagen nicht aktualisiert. Scheitern Downloads, hilft „omnidl-cli tools update“."@,
            ]
        } else {
            seq![]
        },
        None => seq![],
    })
}

/// Worth knowing before the downloads start, though they can go ahead.
pub fn hints(d: &DepsStatus) -> (r: Vec<String>)
    ensures
        string_views(r@) == hint_lines(*d),
{
    let mut lines: Vec<String> = Vec::new();
    let ghost s0 = string_views(lines@);
    if let Some(e) = &d.error {
        let mut s = String::from_str("Nicht alle Werkzeuge sind bereit: ");
        push_str(&mut s, e.as_str());
        lines.push(s);
    }
    let ghost s1 = string_views(lines@);
    assert(s1 =~= s0 + match d.error {
        Some(e) => seq!["Nicht alle Werkzeuge sind bereit: "@ + e@],
        None => Seq::<Seq<char>>::empty(),
    });
    if d.js.is_none() {
        lines.push(String::from_str("Keine JavaScript-Laufzeit gefunden, YouTube braucht eine."));
    }
    let ghost s2 = string_views(lines@);
    assert(s2 =~= s1 + if d.js is None {
        seq!["Keine JavaScript-Laufzeit gefunden, YouTube braucht eine."@]
    } else {
        Seq::<Seq<char>>::empty()
    });
    if let Some(age) = d.ytdlp_age_days {
        if age > STALE_DAYS {
            let mut s = String::from_str("yt-dlp wurde seit ");
            push_decimal(&mut s, age as u64);
            push_str(
                &mut s,
                " Tagen nicht aktualisiert. Scheitern Downloads, hilft „omnidl-cli tools update“.",
            );
            lines.push(s);
        }
    }
    assert(string_views(lines@) =~= s2 + match d.ytdlp_age_days {
        Some(a) => if a > STALE_DAYS {
            seq![
                "yt-dlp wurde seit "@ + decimal(a as nat)
                    + " Tagen nicht aktualisiert. Scheitern Downloads, hilft „omnidl-cli tools update“."@,
            ]
        } else {
            Seq::<Seq<char>>::empty()
        },
        None => Seq::<Seq<char>>::empty(),
    });
    lines
}

/// What was said about a job, so plain output does not repeat itself.
/// `last` is when, in milliseconds on a monotonic clock.
#[derive(Clone, Copy, Debug, PartialEq, Eq, Structural)]
pub struct Said {
    pub scheduled: bool,
    pub started: bool,
    pub processing: bool,
    pub last: Option<u64>,
}

impl Said {
    pub fn new() -> (r: Said)
        ensures
            r == (Said { scheduled: false, started: false, processing: false, last: None }),
    {
        Said { scheduled: false, started: false, processing: false, last: None }
    }
}

/// Plain output repeats the progress of a running job this often (ms).
pub const PLAIN_PROGRESS_MS: u64 = 10_000;

/// Whether plain output speaks about a job now, and what it remembers.
pub open spec fn speaks(said: Said, state: JobState, finished_now: bool, progress: bool, now: u64) -> (bool, Said) {
    let due = match said.last {
        None => true,
        Some(t) => now >= t && now - t >= PLAIN_PROGRESS_MS,
    };
    let (say, s) = if finished_now {
        (true, said)
    } else {
        match state {
            JobState::Scheduled(_) => (!said.scheduled, Said { scheduled: true, ..said }),
            JobState::Resolving | JobState::Downloading | JobState::Group => (
                !said.started || (progress && due),
                Said { started: true, ..said },
            ),
            JobState::Processing => (!said.processing, Said { processing: true, ..said }),
            _ => (false, said),
        }
    };
    if say {
        (true, Said { last: Some(now), ..s })
    } else {
        (false, s)
    }
}

/// Plain output speaks when a job is scheduled, starts, converts or ends, and
/// repeats its progress every few seconds. `now` is in milliseconds.
pub fn plain_line(said: &mut Said, job: &Job, finished_now: bool, progress: bool, now: u64) -> (r: Option<String>)
    ensures
        ({
            let (say, s) = speaks(*old(said), job@.state, finished_now, progress, now);
            &&& *final(said) == s
            &&& (r is Some) == say
            &&& r matches Some(line) ==> exists|start: Seq<char>| line@ == crate::term::line_text(
                job@.title,
                job@.parent is Some,
                #[trigger] status_of(job@, job@.parent is Some, start),
            )
        }),
{
    let due = match said.last {
        None => true,
        Some(t) => now >= t && now - t >= PLAIN_PROGRESS_MS,
    };
    let say = if finished_now {
        true
    } else {
        match job.state {
            JobState::Scheduled(_) => {
                let was = said.scheduled;
                said.scheduled = true;
                !was
            },
            JobState::Resolving | JobState::Downloading | JobState::Group => {
                let was = said.started;
                said.started = true;
                !was || (progress && due)
            },
            JobState::Processing => {
                let was = said.processing;
                said.processing = true;
                !was
            },
            _ => false,
        }
    };
    if say {
        said.last = Some(now);
        Some(crate::term::job_line(job, job.parent.is_some()))
    } else {
        None
    }
}

// ---------------------------------------------------------------- the session

/// A download run from the terminal: the list, what is expected of it and
/// how the tools stand.
pub struct Session {
    pub jobs: Jobs,
    /// Top-level jobs to wait for, one per link.
    pub expected: usize,
    /// Tool setup at work, e.g. "Lade ffmpeg … 45 %".
    pub busy: Option<String>,
    pub tools_checked: bool,
    /// The tools are unusable, so nothing can start.
    pub tools_error: Option<String>,
    pub interrupted: bool,
}

/// What a tool report means for the run.
pub enum ToolNews {
    /// Setup at work; nothing to decide.
    Working,
    /// The tools cannot be used: the downloads are given up, with this
    /// message.
    Unusable(String),
    /// Ready; the hints to show, given with the first report only.
    Ready(Vec<String>),
}

/// The error a report of unusable tools carries.
pub open spec fn tools_error_of(d: DepsStatus) -> Seq<char> {
    match d.error {
        Some(e) => e@,
        None => "yt-dlp oder ffmpeg fehlen"@,
    }
}

impl Session {
    pub fn new(expected: usize) -> (r: Session)
        ensures
            r.jobs.wf(),
            r.jobs@ == Seq::<JobView>::empty(),
            r.expected == expected,
            r.busy is None,
            !r.tools_checked,
            r.tools_error is None,
            !r.interrupted,
    {
        Session {
            jobs: Jobs::new(),
            expected,
            busy: None,
            tools_checked: false,
            tools_error: None,
            interrupted: false,
        }
    }

    /// Takes in a tool report.
    pub fn deps(&mut self, d: DepsStatus) -> (r: ToolNews)
        ensures
            final(self).jobs == old(self).jobs,
            final(self).expected == old(self).expected,
            final(self).interrupted == old(self).interrupted,
            d.busy is Some ==> (r is Working && final(self).busy == d.busy && final(self).tools_checked
                == old(self).tools_checked && final(self).tools_error == old(self).tools_error),
            d.busy is None ==> final(self).busy is None && final(self).tools_checked,
            d.busy is None && !d.is_ready() ==> (r matches ToolNews::Unusable(m) && m@
                == "Werkzeuge konnten nicht eingerichtet werden: "@ + tools_error_of(d) && (
            final(self).tools_error matches Some(e) && e@ == tools_error_of(d))),
            d.is_ready() ==> final(self).tools_error == old(self).tools_error && (r matches ToolNews::Ready(
                h,
            ) && string_views(h@) == (if old(self).tools_checked {
                seq![]
            } else {
                hint_lines(d)
            })),
    {
        if d.busy.is_some() {
            self.busy = d.busy;
            return ToolNews::Working;
        }
        self.busy = None;
        let first = !self.tools_checked;
        self.tools_checked = true;
        if !d.ready() {
            let err = match &d.error {
                Some(e) => e.clone(),
                None => String::from_str("yt-dlp oder ffmpeg fehlen"),
            };
            let mut m = String::from_str("Werkzeuge konnten nicht eingerichtet werden: ");
            push_str(&mut m, err.as_str());
            self.tools_error = Some(err);
            return ToolNews::Unusable(m);
        }
        if first {
            ToolNews::Ready(hints(&d))
        } else {
            let none: Vec<String> = Vec::new();
            assert(string_views(none@) =~= seq![]);
            ToolNews::Ready(none)
        }
    }

    /// Takes in a job update. The results: the job finished with this update,
    /// and the update reports progress.
    pub fn job(&mut self, id: JobId, update: JobUpdate) -> (r: (bool, bool))
        requires
            old(self).jobs.wf(),
            old(self).jobs@.len() + 1 < usize::MAX,
        ensures
            final(self).jobs.wf(),
            final(self).jobs@ == applied(old(self).jobs@, id, update),
            final(self).expected == old(self).expected,
            final(self).busy == old(self).busy,
            final(self).tools_checked == old(self).tools_checked,
            final(self).tools_error == old(self).tools_error,
            final(self).interrupted == old(self).interrupted,
            r.1 == update is Progress,
            r.0 == (match last_pos(final(self).jobs@, id) {
                Some(i) => final(self).jobs@[i].state.finished() && !(match last_pos(old(self).jobs@, id) {
                    Some(k) => old(self).jobs@[k].state.finished(),
                    None => false,
                }),
                None => false,
            }),
    {
        let progress = matches!(update, JobUpdate::Progress { .. });
        let was = match self.jobs.get(id) {
            Some(j) => j.state.is_finished(),
            None => false,
        };
        self.jobs.apply(id, update);
        let now = match self.jobs.get(id) {
            Some(j) => j.state.is_finished(),
            None => false,
        };
        (now && !was, progress)
    }

    /// Every link has its job and nothing runs any more.
    pub fn finished(&self) -> (b: bool)
        requires
            self.jobs.wf(),
        ensures
            b == (top_jobs(self.jobs@).len() >= self.expected && forall|i: int|
                0 <= i < self.jobs@.len() ==> !#[trigger] runs(self.jobs@, i)),
    {
        self.jobs.top_level().len() >= self.expected && self.jobs.all_finished()
    }
}

// ---------------------------------------------------------------- results

/// The files of the jobs without children, in list order.
pub open spec fn leaf_files(l: Seq<JobView>) -> Seq<Seq<char>>
    decreases l.len(),
{
    if l.len() == 0 {
        seq![]
    } else {
        let j = l.last();
        match j.output {
            Some(o) if j.children.len() == 0 => leaf_files(l.drop_last()).push(o),
            _ => leaf_files(l.drop_last()),
        }
    }
}

/// Every file that arrived: single jobs and the entries of lists.
pub fn files(jobs: &Jobs) -> (r: Vec<String>)
    ensures
        string_views(r@) == leaf_files(jobs@),
{
    let all = jobs.all();
    let ghost l = crate::jobs::ref_views(all@);
    let mut out: Vec<String> = Vec::new();
    let mut i: usize = 0;
    while i < all.len()
        invariant
            i <= all@.len(),
            l == crate::jobs::ref_views(all@),
            l == jobs@,
            string_views(out@) == leaf_files(l.take(i as int)),
        decreases all@.len() - i,
    {
        assert(l.take(i + 1).drop_last() =~= l.take(i as int));
        let j = all[i];
        assert(l[i as int] == j@);
        if j.children.len() == 0 {
            if let Some(o) = &j.output {
                let ghost before = string_views(out@);
                out.push(o.clone());
                assert(string_views(out@) =~= before.push(o@));
            }
        }
        i += 1;
    }
    assert(l.take(all@.len() as int) =~= l);
    out
}

/// A path separator: `/`, and on Windows also `\\`.
pub open spec fn sep(c: char, windows: bool) -> bool {
    c == '/' || (windows && c == '\\')
}

/// The text without separators at its end.
pub open spec fn drop_back_seps(s: Seq<char>, windows: bool) -> Seq<char>
    decreases s.len(),
{
    if s.len() > 0 && sep(s.last(), windows) {
        drop_back_seps(s.drop_last(), windows)
    } else {
        s
    }
}

/// Where the last separator stands.
pub open spec fn last_sep(s: Seq<char>, windows: bool) -> Option<int>
    decreases s.len(),
{
    if s.len() == 0 {
        None
    } else if sep(s.last(), windows) {
        Some(s.len() - 1)
    } else {
        last_sep(s.drop_last(), windows)
    }
}

/// The folder part of a file path, as `Path::parent` gives it for the
/// absolute file paths yt-dlp reports: trailing separators are ignored, the
/// last component and the separators before it go, a root (`/`, or `C:\\`
/// on Windows) stays; a bare name has the empty folder; an empty path or a
/// root alone has none.
pub open spec fn dir_of(p: Seq<char>, windows: bool) -> Option<Seq<char>> {
    let t = drop_back_seps(p, windows);
    if t.len() == 0 {
        None
    } else {
        match last_sep(t, windows) {
            None => Some(seq![]),
            Some(k) => {
                let d = drop_back_seps(t.take(k), windows);
                if d.len() == 0 || (windows && d.last() == ':') {
                    Some(t.take(d.len() as int + 1))
                } else {
                    Some(d)
                }
            },
        }
    }
}

fn back_seps_len(v: &[char], n: usize, windows: bool) -> (r: usize)
    requires
        n <= v@.len(),
    ensures
        r <= n,
        drop_back_seps(v@.take(n as int), windows) == v@.take(r as int),
{
    let mut k: usize = n;
    while k > 0 && (v[k - 1] == '/' || (windows && v[k - 1] == '\\'))
        invariant
            k <= n <= v@.len(),
            drop_back_seps(v@.take(n as int), windows) == drop_back_seps(v@.take(k as int), windows),
        decreases k,
    {
        assert(v@.take(k as int).drop_last() =~= v@.take(k - 1));
        k -= 1;
    }
    k
}

/// The folder part of a file path (see `dir_of`).
pub fn parent_of(p: &str, windows: bool) -> (r: Option<String>)
    ensures
        opt_views(r) == dir_of(p@, windows),
{
    let v = chars_of(p);
    let n: usize = v.len();
    assert(v@.take(n as int) =~= p@);
    let t = back_seps_len(v.as_slice(), n, windows);
    if t == 0 {
        return None;
    }
    let ghost ts = v@.take(t as int);
    // the last separator within the first `t` characters
    let mut k: usize = t;
    while k > 0 && !(v[k - 1] == '/' || (windows && v[k - 1] == '\\'))
        invariant
            k <= t <= v@.len(),
            ts == v@.take(t as int),
            last_sep(ts, windows) == last_sep(v@.take(k as int), windows),
        decreases k,
    {
        assert(v@.take(k as int).drop_last() =~= v@.take(k - 1));
        k -= 1;
    }
    if k == 0 {
        assert(last_sep(v@.take(0), windows) is None);
        return Some(String::new());
    }
    assert(last_sep(v@.take(k as int), windows) == Some(k - 1));
    assert(ts.take(k - 1) =~= v@.take(k - 1));
    let d = back_seps_len(v.as_slice(), k - 1, windows);
    let keep = if d == 0 || (windows && v[d - 1] == ':') {
        d + 1
    } else {
        d
    };
    assert(ts.take(keep as int) =~= v@.take(keep as int));
    Some(crate::text::string_of_range(v.as_slice(), 0, keep))
}

/// The file of the first child that has one.
pub open spec fn first_child_file(l: Seq<JobView>, cs: Seq<usize>) -> Option<Seq<char>>
    decreases cs.len(),
{
    if cs.len() == 0 {
        None
    } else {
        match first_child_file(l, cs.drop_last()) {
            Some(f) => Some(f),
            None => l[cs.last() as int].output,
        }
    }
}

/// `places` are where to look after the run, per top-level job: a list's
/// folder (the parent of its first file that arrived), else the job's own
/// file.
pub open spec fn places_fit(l: Seq<JobView>, tops: Seq<JobView>, places: Seq<Option<Seq<char>>>, windows: bool) -> bool {
    &&& places.len() == tops.len()
    &&& forall|i: int|
        0 <= i < tops.len() ==> places[i] == match first_child_file(l, kids_of(l, #[trigger] tops[i].id)) {
            Some(f) => dir_of(f, windows),
            None => tops[i].output,
        }
}

/// The places present, each once, in order.
pub open spec fn distinct_places(ps: Seq<Option<Seq<char>>>) -> Seq<Seq<char>>
    decreases ps.len(),
{
    if ps.len() == 0 {
        seq![]
    } else {
        let d = distinct_places(ps.drop_last());
        match ps.last() {
            Some(p) if !d.contains(p) => d.push(p),
            _ => d,
        }
    }
}

fn holds_text(v: &Vec<String>, s: &str) -> (b: bool)
    ensures
        b == string_views(v@).contains(s@),
{
    let mut i: usize = 0;
    while i < v.len()
        invariant
            i <= v@.len(),
            forall|k: int| 0 <= k < i ==> string_views(v@)[k] != s@,
        decreases v@.len() - i,
    {
        if same_str(v[i].as_str(), s) {
            assert(string_views(v@)[i as int] == s@);
            return true;
        }
        i += 1;
    }
    false
}

/// Where to look afterwards: each file, and a list's folder instead of its
/// entries; each place once. `windows`: paths use Windows separators too.
pub fn outputs(jobs: &Jobs, windows: bool) -> (r: Vec<String>)
    requires
        jobs.wf(),
    ensures
        exists|places: Seq<Option<Seq<char>>>|
            places_fit(jobs@, top_jobs(jobs@), places, windows) && string_views(r@) == distinct_places(
                places,
            ),
{
    let tops = jobs.top_level();
    let ghost tv = crate::jobs::ref_views(tops@);
    let ghost mut places: Seq<Option<Seq<char>>> = seq![];
    let mut out: Vec<String> = Vec::new();
    let mut i: usize = 0;
    while i < tops.len()
        invariant
            i <= tops@.len(),
            jobs.wf(),
            tv == crate::jobs::ref_views(tops@),
            tv == top_jobs(jobs@),
            places_fit(jobs@, tv.take(i as int), places, windows),
            string_views(out@) == distinct_places(places),
        decreases tops@.len() - i,
    {
        let job = tops[i];
        assert(tv[i as int] == job@);
        let kids = jobs.children_of(job.id);
        proof {
            crate::jobs::lemma_last_pos(jobs@, job.id);
        }
        let ghost kv = crate::jobs::ref_views(kids@);
        let mut first: Option<String> = None;
        let mut k: usize = 0;
        while k < kids.len()
            invariant
                k <= kids@.len(),
                kv == crate::jobs::ref_views(kids@),
                opt_views(first) == first_in(kv.take(k as int)),
            decreases kids@.len() - k,
        {
            assert(kv.take(k + 1).drop_last() =~= kv.take(k as int));
            if first.is_none() {
                if let Some(o) = &kids[k].output {
                    first = Some(o.clone());
                }
            }
            k += 1;
        }
        assert(kv.take(kids@.len() as int) =~= kv);
        proof {
            assert(kv =~= kids_of(jobs@, job.id).map_values(|c: usize| jobs@[c as int]));
            lemma_first_child_file(jobs@, kids_of(jobs@, job.id), kv);
        }
        let place: Option<String> = match &first {
            Some(f) => parent_of(f.as_str(), windows),
            None => match &job.output {
                Some(o) => Some(o.clone()),
                None => None,
            },
        };
        let ghost pv = opt_views(place);
        if let Some(p) = &place {
            if !holds_text(&out, p.as_str()) {
                let ghost before = string_views(out@);
                out.push(p.clone());
                assert(string_views(out@) =~= before.push(p@));
            }
        }
        proof {
            let old_places = places;
            places = places.push(pv);
            assert(places.drop_last() =~= old_places);
            assert(tv.take(i + 1).drop_last() =~= tv.take(i as int));
            assert forall|x: int| 0 <= x < i + 1 implies places[x] == match first_child_file(
                jobs@,
                kids_of(jobs@, #[trigger] tv.take(i + 1)[x].id),
            ) {
                Some(f) => dir_of(f, windows),
                None => tv.take(i + 1)[x].output,
            } by {
                if x < i {
                    assert(tv.take(i + 1)[x] == tv.take(i as int)[x]);
                    assert(places[x] == old_places[x]);
                }
            }
        }
        i += 1;
    }
    assert(tv.take(tops@.len() as int) =~= tv);
    out
}

pub open spec fn opt_views(o: Option<String>) -> Option<Seq<char>> {
    match o {
        Some(s) => Some(s@),
        None => None,
    }
}

/// The first file among the given jobs.
pub open spec fn first_in(js: Seq<JobView>) -> Option<Seq<char>>
    decreases js.len(),
{
    if js.len() == 0 {
        None
    } else {
        match first_in(js.drop_last()) {
            Some(f) => Some(f),
            None => js.last().output,
        }
    }
}

/// The children of the job the list finds under `id`.
pub open spec fn kids_of(l: Seq<JobView>, id: JobId) -> Seq<usize> {
    match last_pos(l, id) {
        Some(p) => l[p].children,
        None => seq![],
    }
}

proof fn lemma_first_child_file(l: Seq<JobView>, cs: Seq<usize>, kv: Seq<JobView>)
    requires
        kv == cs.map_values(|c: usize| l[c as int]),
    ensures
        first_in(kv) == first_child_file(l, cs),
    decreases cs.len(),
{
    if cs.len() > 0 {
        assert(kv.drop_last() =~= cs.drop_last().map_values(|c: usize| l[c as int]));
        lemma_first_child_file(l, cs.drop_last(), kv.drop_last());
    }
}

// ---------------------------------------------------------------- live lines

/// A row `term::job_row` may give for job `j`.
pub open spec fn job_row_fits(r: Seq<char>, j: JobView, child: bool, frame: nat, width: nat, color: bool) -> bool {
    exists|start: Seq<char>|
        r == crate::term::row_text(
            if child {
                2nat
            } else {
                0nat
            },
            crate::term::symbol_of(j.state, frame),
            j.title,
            (
                #[trigger] status_of(j, child, start).0,
                crate::term::Paint::of_tone(status_of(j, child, start).1),
            ),
            width,
            color,
        )
}

/// Children shown under their list: at work or gone wrong.
pub open spec fn shown(s: JobState) -> bool {
    s is Resolving || s is Downloading || s is Processing || s is Failed || s is NoMatch
}

/// The shown children among `cs`.
pub open spec fn shown_kids(cs: Seq<JobView>) -> Seq<(JobView, bool)>
    decreases cs.len(),
{
    if cs.len() == 0 {
        seq![]
    } else if shown(cs.last().state) {
        shown_kids(cs.drop_last()).push((cs.last(), true))
    } else {
        shown_kids(cs.drop_last())
    }
}

/// The jobs the live lines show, in order, each with whether it is a child:
/// every unfinished top-level job, then its children at work or gone wrong.
pub open spec fn live_plan(l: Seq<JobView>, tops: Seq<JobView>) -> Seq<(JobView, bool)>
    decreases tops.len(),
{
    if tops.len() == 0 {
        seq![]
    } else {
        let j = tops.last();
        live_plan(l, tops.drop_last()) + if j.state.finished() {
            seq![]
        } else {
            seq![(j, false)] + shown_kids(kids_of(l, j.id).map_values(|c: usize| l[c as int]))
        }
    }
}

/// At most `max` rows: the rest is summed up in a last one.
pub open spec fn capped(rows: Seq<Seq<char>>, max: nat, color: bool) -> Seq<Seq<char>> {
    if rows.len() > max {
        rows.take(max - 1) + seq![
            crate::term::painted(
                "  … und "@ + decimal((rows.len() - (max - 1)) as nat) + " weitere"@,
                crate::term::Paint::Dim,
                color,
            ),
        ]
    } else {
        rows
    }
}

/// Capping keeps at most `max` rows, and rows that fit stay as they are.
pub proof fn lemma_capped_fits(rows: Seq<Seq<char>>, max: nat, color: bool)
    requires
        max >= 1,
    ensures
        capped(rows, max, color).len() <= max,
        rows.len() <= max ==> capped(rows, max, color) == rows,
{
}

/// The busy row's place: the tool setup at work, with a spinner.
pub open spec fn busy_rows(busy: Option<String>, frame: nat, width: nat, color: bool) -> Seq<Seq<char>> {
    match busy {
        Some(b) => seq![
            crate::term::row_text(
                0,
                (crate::term::spinner_text(frame), crate::term::Paint::Blue),
                "Werkzeuge"@,
                (b@, crate::term::Paint::Dim),
                width,
                color,
            ),
        ],
        None => seq![],
    }
}

proof fn lemma_plan_step(l: Seq<JobView>, tops: Seq<JobView>, i: int)
    requires
        0 <= i < tops.len(),
    ensures
        live_plan(l, tops.take(i + 1)) == live_plan(l, tops.take(i)) + if tops[i].state.finished() {
            seq![]
        } else {
            seq![(tops[i], false)] + shown_kids(
                kids_of(l, tops[i].id).map_values(|c: usize| l[c as int]),
            )
        },
{
    assert(tops.take(i + 1).drop_last() =~= tops.take(i));
}

/// `rows` are the live lines before capping: the busy row, then a row for
/// each job of the plan.
pub open spec fn live_rows(
    rows: Seq<Seq<char>>,
    l: Seq<JobView>,
    busy: Option<String>,
    frame: nat,
    width: nat,
    color: bool,
) -> bool {
    let plan = live_plan(l, top_jobs(l));
    let head = busy_rows(busy, frame, width, color);
    &&& rows.len() == head.len() + plan.len()
    &&& rows.take(head.len() as int) == head
    &&& forall|k: int|
        0 <= k < plan.len() ==> job_row_fits(
            #[trigger] rows[head.len() + k],
            plan[k].0,
            plan[k].1,
            frame,
            width,
            color,
        )
}

/// The live lines: tool setup, then every unfinished job with the children
/// at work or gone wrong. Never taller than the terminal: at most its height
/// less one, but at least three.
pub fn region(s: &Session, frame: usize, size: (usize, usize), color: bool) -> (r: Vec<String>)
    requires
        s.jobs.wf(),
    ensures
        exists|rows: Seq<Seq<char>>|
            #[trigger] live_rows(rows, s.jobs@, s.busy, frame as nat, size.0 as nat, color)
                && string_views(r@) == capped(
                rows,
                if size.1 >= 4 {
                    (size.1 - 1) as nat
                } else {
                    3nat
                },
                color,
            ),
        r@.len() <= if size.1 >= 4 {
            size.1 - 1
        } else {
            3
        },
{
    let (width, height) = size;
    let mut rows: Vec<String> = Vec::new();
    let ghost head = busy_rows(s.busy, frame as nat, width as nat, color);
    if let Some(busy) = &s.busy {
        let sym = (crate::term::spinner(frame), crate::term::Paint::Blue);
        let line = crate::term::row(0, sym, "Werkzeuge", (busy.as_str(), crate::term::Paint::Dim), width, color);
        rows.push(line);
    }
    assert(string_views(rows@) =~= head);
    let tops = s.jobs.top_level();
    let ghost tv = crate::jobs::ref_views(tops@);
    let ghost l = s.jobs@;
    let mut i: usize = 0;
    while i < tops.len()
        invariant
            i <= tops@.len(),
            s.jobs.wf(),
            l == s.jobs@,
            tv == crate::jobs::ref_views(tops@),
            tv == top_jobs(l),
            string_views(rows@).len() == head.len() + live_plan(l, tv.take(i as int)).len(),
            string_views(rows@).take(head.len() as int) == head,
            forall|k: int|
                0 <= k < live_plan(l, tv.take(i as int)).len() ==> job_row_fits(
                    #[trigger] string_views(rows@)[head.len() + k],
                    live_plan(l, tv.take(i as int))[k].0,
                    live_plan(l, tv.take(i as int))[k].1,
                    frame as nat,
                    width as nat,
                    color,
                ),
        decreases tops@.len() - i,
    {
        let job = tops[i];
        assert(tv[i as int] == job@);
        proof {
            lemma_plan_step(l, tv, i as int);
        }
        let ghost before = string_views(rows@);
        let ghost plan0 = live_plan(l, tv.take(i as int));
        if !job.state.is_finished() {
            let line = crate::term::job_row(job, false, frame, width, color);
            let ghost lv = line@;
            rows.push(line);
            assert(string_views(rows@) =~= before.push(lv));
            let kids = s.jobs.children_of(job.id);
            let ghost kv = crate::jobs::ref_views(kids@);
            assert(kv =~= kids_of(l, job.id).map_values(|c: usize| l[c as int]));
            let ghost mid = string_views(rows@);
            let mut k: usize = 0;
            assert(kv.take(0) =~= seq![]);
            while k < kids.len()
                invariant
                    k <= kids@.len(),
                    kv == crate::jobs::ref_views(kids@),
                    string_views(rows@).len() == mid.len() + shown_kids(kv.take(k as int)).len(),
                    string_views(rows@).take(mid.len() as int) == mid,
                    forall|x: int|
                        0 <= x < shown_kids(kv.take(k as int)).len() ==> job_row_fits(
                            #[trigger] string_views(rows@)[mid.len() + x],
                            shown_kids(kv.take(k as int))[x].0,
                            shown_kids(kv.take(k as int))[x].1,
                            frame as nat,
                            width as nat,
                            color,
                        ),
                decreases kids@.len() - k,
            {
                let c = kids[k];
                assert(kv[k as int] == c@);
                assert(kv.take(k + 1).drop_last() =~= kv.take(k as int));
                let show = matches!(
                    c.state,
                    JobState::Resolving | JobState::Downloading | JobState::Processing
                        | JobState::Failed(_) | JobState::NoMatch
                );
                if show {
                    let ghost pre = string_views(rows@);
                    let line = crate::term::job_row(c, true, frame, width, color);
                    rows.push(line);
                    assert(string_views(rows@) =~= pre.push(line@));
                    assert forall|x: int|
                        0 <= x < shown_kids(kv.take(k + 1)).len() implies job_row_fits(
                        #[trigger] string_views(rows@)[mid.len() + x],
                        shown_kids(kv.take(k + 1))[x].0,
                        shown_kids(kv.take(k + 1))[x].1,
                        frame as nat,
                        width as nat,
                        color,
                    ) by {
                        if x < shown_kids(kv.take(k as int)).len() {
                            assert(string_views(rows@)[mid.len() + x] == pre[mid.len() + x]);
                        }
                    }
                }
                assert(string_views(rows@).take(mid.len() as int) =~= mid);
                k += 1;
            }
            assert(kv.take(kids@.len() as int) =~= kv);
            let ghost added = seq![(job@, false)] + shown_kids(kv);
            assert(live_plan(l, tv.take(i + 1)) =~= plan0 + added);
            assert forall|x: int|
                0 <= x < live_plan(l, tv.take(i + 1)).len() implies job_row_fits(
                #[trigger] string_views(rows@)[head.len() + x],
                live_plan(l, tv.take(i + 1))[x].0,
                live_plan(l, tv.take(i + 1))[x].1,
                frame as nat,
                width as nat,
                color,
            ) by {
                if x < plan0.len() {
                    assert(string_views(rows@)[head.len() + x] == mid[head.len() + x]);
                    assert(mid[head.len() + x] == before[head.len() + x]);
                    assert(live_plan(l, tv.take(i + 1))[x] == plan0[x]);
                } else if x == plan0.len() {
                    assert(string_views(rows@)[head.len() + x] == mid[head.len() + x]);
                    assert(mid[head.len() + x] == lv);
                    assert(live_plan(l, tv.take(i + 1))[x] == (job@, false));
                } else {
                    let y = x - plan0.len() - 1;
                    assert(string_views(rows@)[head.len() + x] == string_views(rows@)[mid.len() + y]);
                    assert(live_plan(l, tv.take(i + 1))[x] == shown_kids(kv)[y]);
                    assert(shown_kids(kv.take(kids@.len() as int)) == shown_kids(kv));
                }
            }
            assert(string_views(rows@).take(head.len() as int) =~= head) by {
                assert forall|y: int| 0 <= y < head.len() implies string_views(rows@)[y] == head[y] by {
                    assert(string_views(rows@)[y] == mid[y]);
                    assert(mid[y] == before[y]);
                }
            }
        } else {
            assert(live_plan(l, tv.take(i + 1)) =~= plan0);
        }
        i += 1;
    }
    assert(tv.take(tops@.len() as int) =~= tv);
    let ghost all = string_views(rows@);
    assert(live_rows(all, s.jobs@, s.busy, frame as nat, width as nat, color));
    let max: usize = if height >= 4 { height - 1 } else { 3 };
    if rows.len() > max {
        let more: usize = rows.len() - (max - 1);
        let mut kept: Vec<String> = Vec::new();
        let mut k: usize = 0;
        while k < max - 1
            invariant
                k <= max - 1,
                max - 1 < rows@.len(),
                all == string_views(rows@),
                string_views(kept@) == all.take(k as int),
            decreases max - 1 - k,
        {
            let ghost pre = string_views(kept@);
            kept.push(rows[k].clone());
            assert(string_views(kept@) =~= pre.push(all[k as int]));
            assert(all.take(k + 1) =~= all.take(k as int).push(all[k as int]));
            k += 1;
        }
        let mut text = String::from_str("  … und ");
        push_decimal(&mut text, more as u64);
        push_str(&mut text, " weitere");
        let last = crate::term::paint(text.as_str(), crate::term::Paint::Dim, color);
        let ghost pre = string_views(kept@);
        kept.push(last);
        assert(string_views(kept@) =~= pre.push(last@));
        assert(string_views(kept@).len() == kept@.len());
        return kept;
    }
    assert(all.len() == rows@.len());
    rows
}

} // verus!
