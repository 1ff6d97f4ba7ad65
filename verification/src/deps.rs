//! The external programs the app drives: where ready-made builds come from
//! on each platform, how an archive's layout is read, how old an installed
//! yt-dlp is, and when the tools are ready.

use crate::text::{
    all_digits, chars_of, digits_value, is_digit, parse_i64, parsed_i64, push_char, push_str, same_str,
    slice_vec, split_char, split_on, string_of, string_views, views, split_first, split_once,
    after_last, after_last_index, begins_with, contains, ends_with, finishes_with, has, same_chars,
    starts_with,
};
use crate::util::{civil_days, days_from_civil, today_days};
use vstd::prelude::*;
use vstd::string::StringExecFns;

verus! {

#[derive(Debug)]
pub struct DepsStatus {
    pub ytdlp: Option<String>,
    /// Days since yt-dlp was last refreshed, at most the age of its release.
    pub ytdlp_age_days: Option<i64>,
    pub ffmpeg: bool,
    pub js: Option<String>,
    pub gallery: bool,
    pub busy: Option<String>,
    pub error: Option<String>,
}

impl DepsStatus {
    /// Nothing known yet.
    pub fn new() -> (r: DepsStatus)
        ensures
            r.ytdlp is None && r.ytdlp_age_days is None && !r.ffmpeg && r.js is None && !r.gallery
                && r.busy is None && r.error is None,
    {
        DepsStatus {
            ytdlp: None,
            ytdlp_age_days: None,
            ffmpeg: false,
            js: None,
            gallery: false,
            busy: None,
            error: None,
        }
    }

    pub open spec fn is_ready(self) -> bool {
        self.ytdlp is Some && self.ffmpeg && self.busy is None
    }

    /// Downloads can start: yt-dlp and ffmpeg are there and nothing is
    /// being installed.
    pub fn ready(&self) -> (b: bool)
        ensures
            b == self.is_ready(),
    {
        self.ytdlp.is_some() && self.ffmpeg && self.busy.is_none()
    }
}

/// Past this many days an installed yt-dlp is replaced by a download.
pub const STALE_DAYS: i64 = 14;

/// How ffmpeg is downloaded on one platform.
#[derive(Debug, PartialEq)]
pub enum Ffmpeg {
    /// One archive (.zip or .tar.xz) with `bin/ffmpeg` and `bin/ffprobe`.
    Bundle(String),
    /// One zip per program.
    Pair { ffmpeg: String, ffprobe: String },
}

/// Where the tools come from on one platform. `None` where no ready-made
/// build exists; the program then has to be installed by hand.
#[derive(Debug, PartialEq)]
pub struct Sources {
    /// yt-dlp as a folder zip.
    pub ytdlp: Option<String>,
    pub ffmpeg: Option<Ffmpeg>,
    /// Zip with the `deno` executable.
    pub deno: Option<String>,
    /// The executable itself.
    pub gallery: Option<String>,
}

/// An ffmpeg download as texts.
pub enum FfmpegView {
    Bundle(Seq<char>),
    Pair(Seq<char>, Seq<char>),
}

pub struct SourcesView {
    pub ytdlp: Option<Seq<char>>,
    pub ffmpeg: Option<FfmpegView>,
    pub deno: Option<Seq<char>>,
    pub gallery: Option<Seq<char>>,
}

impl View for Sources {
    type V = SourcesView;

    open spec fn view(&self) -> SourcesView {
        SourcesView {
            ytdlp: crate::jobs::opt_text(self.ytdlp),
            ffmpeg: match self.ffmpeg {
                Some(Ffmpeg::Bundle(u)) => Some(FfmpegView::Bundle(u@)),
                Some(Ffmpeg::Pair { ffmpeg, ffprobe }) => Some(FfmpegView::Pair(ffmpeg@, ffprobe@)),
                None => None,
            },
            deno: crate::jobs::opt_text(self.deno),
            gallery: crate::jobs::opt_text(self.gallery),
        }
    }
}

pub open spec fn ytdlp_url(file: Seq<char>) -> Seq<char> {
    "https://github.com/yt-dlp/yt-dlp/releases/latest/download/"@ + file
}

pub open spec fn ffmpeg_url(build: Seq<char>, ext: Seq<char>) -> Seq<char> {
    "https://github.com/yt-dlp/FFmpeg-Builds/releases/download/latest/ffmpeg-master-latest-"@ + build
        + "-gpl."@ + ext
}

/// The signed static macOS builds, one zip per program.
pub open spec fn riedl_url(arch: Seq<char>, tool: Seq<char>) -> Seq<char> {
    "https://ffmpeg.martin-riedl.de/redirect/latest/macos/"@ + arch + "/release/"@ + tool + ".zip"@
}

pub open spec fn deno_url(target: Seq<char>) -> Seq<char> {
    "https://github.com/denoland/deno/releases/latest/download/deno-"@ + target + ".zip"@
}

pub open spec fn gallery_url(file: Seq<char>) -> Seq<char> {
    "https://codeberg.org/mikf/gallery-dl/releases/download/latest/"@ + file
}

pub open spec fn no_sources() -> SourcesView {
    SourcesView { ytdlp: None, ffmpeg: None, deno: None, gallery: None }
}

pub open spec fn riedl(arch: Seq<char>) -> Option<FfmpegView> {
    Some(FfmpegView::Pair(riedl_url(arch, "ffmpeg"@), riedl_url(arch, "ffprobe"@)))
}

/// The downloads for `os`/`arch`; `musl` for Linux systems without glibc.
pub open spec fn sources_for(os: Seq<char>, arch: Seq<char>, musl: bool) -> SourcesView {
    if os == "windows"@ && arch == "x86_64"@ {
        SourcesView {
            ytdlp: Some(ytdlp_url("yt-dlp_win.zip"@)),
            ffmpeg: Some(FfmpegView::Bundle(ffmpeg_url("win64"@, "zip"@))),
            deno: Some(deno_url("x86_64-pc-windows-msvc"@)),
            gallery: Some(gallery_url("gallery-dl.exe"@)),
        }
    } else if os == "windows"@ && arch == "aarch64"@ {
        SourcesView {
            ytdlp: Some(ytdlp_url("yt-dlp_win_arm64.zip"@)),
            ffmpeg: Some(FfmpegView::Bundle(ffmpeg_url("winarm64"@, "zip"@))),
            deno: Some(deno_url("aarch64-pc-windows-msvc"@)),
            gallery: Some(gallery_url("gallery-dl.exe"@)),
        }
    } else if os == "macos"@ && arch == "x86_64"@ {
        SourcesView {
            ytdlp: Some(ytdlp_url("yt-dlp_macos.zip"@)),
            ffmpeg: riedl("amd64"@),
            deno: Some(deno_url("x86_64-apple-darwin"@)),
            gallery: None,
        }
    } else if os == "macos"@ && arch == "aarch64"@ {
        SourcesView {
            ytdlp: Some(ytdlp_url("yt-dlp_macos.zip"@)),
            ffmpeg: riedl("arm64"@),
            deno: Some(deno_url("aarch64-apple-darwin"@)),
            gallery: None,
        }
    } else if os == "linux"@ && arch == "x86_64"@ && !musl {
        SourcesView {
            ytdlp: Some(ytdlp_url("yt-dlp_linux.zip"@)),
            ffmpeg: Some(FfmpegView::Bundle(ffmpeg_url("linux64"@, "tar.xz"@))),
            deno: Some(deno_url("x86_64-unknown-linux-gnu"@)),
            gallery: Some(gallery_url("gallery-dl.bin"@)),
        }
    } else if os == "linux"@ && arch == "aarch64"@ && !musl {
        SourcesView {
            ytdlp: Some(ytdlp_url("yt-dlp_linux_aarch64.zip"@)),
            ffmpeg: Some(FfmpegView::Bundle(ffmpeg_url("linuxarm64"@, "tar.xz"@))),
            deno: Some(deno_url("aarch64-unknown-linux-gnu"@)),
            gallery: None,
        }
    } else if os == "linux"@ && arch == "x86_64"@ && musl {
        SourcesView {
            ytdlp: Some(ytdlp_url("yt-dlp_musllinux.zip"@)),
            ffmpeg: Some(FfmpegView::Bundle(ffmpeg_url("linux64"@, "tar.xz"@))),
            deno: None,
            gallery: None,
        }
    } else if os == "linux"@ && arch == "aarch64"@ && musl {
        SourcesView {
            ytdlp: Some(ytdlp_url("yt-dlp_musllinux_aarch64.zip"@)),
            ffmpeg: Some(FfmpegView::Bundle(ffmpeg_url("linuxarm64"@, "tar.xz"@))),
            deno: None,
            gallery: None,
        }
    } else {
        no_sources()
    }
}

fn joined(a: &str, b: &str) -> (r: String)
    ensures
        r@ == a@ + b@,
{
    let mut s = String::from_str(a);
    push_str(&mut s, b);
    s
}

fn joined3(a: &str, b: &str, c: &str) -> (r: String)
    ensures
        r@ == a@ + b@ + c@,
{
    let mut s = String::from_str(a);
    push_str(&mut s, b);
    push_str(&mut s, c);
    s
}

fn ytdlp_src(file: &str) -> (r: Option<String>)
    ensures
        crate::jobs::opt_text(r) == Some(ytdlp_url(file@)),
{
    Some(joined("https://github.com/yt-dlp/yt-dlp/releases/latest/download/", file))
}

fn ffmpeg_src(build: &str, ext: &str) -> (r: Option<Ffmpeg>)
    ensures
        r matches Some(Ffmpeg::Bundle(u)) && u@ == ffmpeg_url(build@, ext@),
{
    let mut s = String::from_str(
        "https://github.com/yt-dlp/FFmpeg-Builds/releases/download/latest/ffmpeg-master-latest-",
    );
    push_str(&mut s, build);
    push_str(&mut s, "-gpl.");
    push_str(&mut s, ext);
    Some(Ffmpeg::Bundle(s))
}

fn riedl_src(arch: &str) -> (r: Option<Ffmpeg>)
    ensures
        r matches Some(Ffmpeg::Pair { ffmpeg, ffprobe }) && ffmpeg@ == riedl_url(arch@, "ffmpeg"@)
            && ffprobe@ == riedl_url(arch@, "ffprobe"@),
{
    let url = |tool: &str| -> (u: String)
        ensures
            u@ == riedl_url(arch@, tool@),
        {
            let mut s = String::from_str("https://ffmpeg.martin-riedl.de/redirect/latest/macos/");
            push_str(&mut s, arch);
            push_str(&mut s, "/release/");
            push_str(&mut s, tool);
            push_str(&mut s, ".zip");
            s
        };
    Some(Ffmpeg::Pair { ffmpeg: url("ffmpeg"), ffprobe: url("ffprobe") })
}

fn deno_src(target: &str) -> (r: Option<String>)
    ensures
        crate::jobs::opt_text(r) == Some(deno_url(target@)),
{
    Some(joined3("https://github.com/denoland/deno/releases/latest/download/deno-", target, ".zip"))
}

fn gallery_src(file: &str) -> (r: Option<String>)
    ensures
        crate::jobs::opt_text(r) == Some(gallery_url(file@)),
{
    Some(joined("https://codeberg.org/mikf/gallery-dl/releases/download/latest/", file))
}

impl Sources {
    /// No downloads at all.
    pub fn none() -> (r: Sources)
        ensures
            r@ == no_sources(),
    {
        Sources { ytdlp: None, ffmpeg: None, deno: None, gallery: None }
    }

    /// The downloads for `os`/`arch` (`std::env::consts` values); `musl` for
    /// Linux systems without glibc, where Deno and gallery-dl have no build.
    pub fn of(os: &str, arch: &str, musl: bool) -> (r: Sources)
        ensures
            r@ == sources_for(os@, arch@, musl),
    {
        let win = same_str(os, "windows");
        let mac = same_str(os, "macos");
        let linux = same_str(os, "linux");
        let x64 = same_str(arch, "x86_64");
        let arm = same_str(arch, "aarch64");
        if win && x64 {
            Sources {
                ytdlp: ytdlp_src("yt-dlp_win.zip"),
                ffmpeg: ffmpeg_src("win64", "zip"),
                deno: deno_src("x86_64-pc-windows-msvc"),
                gallery: gallery_src("gallery-dl.exe"),
            }
        } else if win && arm {
            Sources {
                ytdlp: ytdlp_src("yt-dlp_win_arm64.zip"),
                ffmpeg: ffmpeg_src("winarm64", "zip"),
                deno: deno_src("aarch64-pc-windows-msvc"),
                gallery: gallery_src("gallery-dl.exe"),
            }
        } else if mac && x64 {
            Sources {
                ytdlp: ytdlp_src("yt-dlp_macos.zip"),
                ffmpeg: riedl_src("amd64"),
                deno: deno_src("x86_64-apple-darwin"),
                gallery: None,
            }
        } else if mac && arm {
            Sources {
                ytdlp: ytdlp_src("yt-dlp_macos.zip"),
                ffmpeg: riedl_src("arm64"),
                deno: deno_src("aarch64-apple-darwin"),
                gallery: None,
            }
        } else if linux && x64 && !musl {
            Sources {
                ytdlp: ytdlp_src("yt-dlp_linux.zip"),
                ffmpeg: ffmpeg_src("linux64", "tar.xz"),
                deno: deno_src("x86_64-unknown-linux-gnu"),
                gallery: gallery_src("gallery-dl.bin"),
            }
        } else if linux && arm && !musl {
            Sources {
                ytdlp: ytdlp_src("yt-dlp_linux_aarch64.zip"),
                ffmpeg: ffmpeg_src("linuxarm64", "tar.xz"),
                deno: deno_src("aarch64-unknown-linux-gnu"),
                gallery: None,
            }
        } else if linux && x64 && musl {
            Sources {
                ytdlp: ytdlp_src("yt-dlp_musllinux.zip"),
                ffmpeg: ffmpeg_src("linux64", "tar.xz"),
                deno: None,
                gallery: None,
            }
        } else if linux && arm && musl {
            Sources {
                ytdlp: ytdlp_src("yt-dlp_musllinux_aarch64.zip"),
                ffmpeg: ffmpeg_src("linuxarm64", "tar.xz"),
                deno: None,
                gallery: None,
            }
        } else {
            Sources::none()
        }
    }
}

/// Every supported platform gets yt-dlp and ffmpeg.
pub proof fn lemma_supported_platforms_get_both(os: Seq<char>, arch: Seq<char>, musl: bool)
    requires
        (os == "windows"@ || os == "macos"@ || os == "linux"@) && (arch == "x86_64"@ || arch
            == "aarch64"@),
    ensures
        sources_for(os, arch, musl).ytdlp is Some,
        sources_for(os, arch, musl).ffmpeg is Some,
{
}

/// The folder every entry of an archive sits in (`"name/"`), if there is
/// exactly one: `None` once an entry has no folder or another one.
pub open spec fn root_from(names: Seq<Seq<char>>, root: Option<Seq<char>>) -> Option<Option<Seq<char>>>
    decreases names.len(),
{
    if names.len() == 0 {
        Some(root)
    } else {
        match split_once(names[0], seq!['/']) {
            None => None,
            Some((first, _)) => match root {
                None => root_from(names.drop_first(), Some(first)),
                Some(r) => if r == first {
                    root_from(names.drop_first(), root)
                } else {
                    None
                },
            },
        }
    }
}

pub open spec fn shared_root(names: Seq<Seq<char>>) -> Option<Seq<char>> {
    match root_from(names, None) {
        Some(Some(r)) => Some(r.push('/')),
        _ => None,
    }
}

/// The folder every entry sits in (`"name/"`), if the archive has exactly one.
/// yt-dlp ships `yt-dlp.exe` next to `_internal/`, which must stay intact.
pub fn common_root(names: &[String]) -> (r: Option<String>)
    ensures
        crate::jobs::opt_text(r) == shared_root(string_views(names@)),
{
    let mut root: Option<Vec<char>> = None;
    let mut i: usize = 0;
    let slash: [char; 1] = ['/'];
    assert(slash@ == seq!['/']);
    assert(string_views(names@).skip(0) == string_views(names@));
    while i < names.len()
        invariant
            i <= names@.len(),
            slash@ == seq!['/'],
            root_from(string_views(names@), None) == root_from(
                string_views(names@).skip(i as int),
                match root {
                    Some(v) => Some(v@),
                    None => None,
                },
            ),
        decreases names@.len() - i,
    {
        let v = chars_of(names[i].as_str());
        assert(string_views(names@).skip(i as int)[0] == v@);
        assert(string_views(names@).skip(i as int).drop_first() =~= string_views(names@).skip(i + 1));
        let first = match split_first(v.as_slice(), slash.as_slice()) {
            Some((f, _)) => f,
            None => return None,
        };
        match &root {
            None => {
                root = Some(first);
            },
            Some(r) => {
                let rs = string_of(r.as_slice());
                if !crate::text::same_chars(first.as_slice(), rs.as_str()) {
                    return None;
                }
            },
        }
        i += 1;
    }
    match root {
        Some(r) => {
            let mut s = string_of(r.as_slice());
            crate::text::push_char(&mut s, '/');
            Some(s)
        },
        None => None,
    }
}

// ---------------------------------------------------------------- archive entries

/// An entry's name with Windows separators turned into `/`.
pub open spec fn slashed(s: Seq<char>) -> Seq<char> {
    s.map_values(|c: char| if c == '\\' { '/' } else { c })
}

/// The first wanted path that `name` ends with.
pub open spec fn first_wanted(ws: Seq<Seq<char>>, name: Seq<char>) -> Option<Seq<char>>
    decreases ws.len(),
{
    if ws.len() == 0 {
        None
    } else if ends_with(name, ws[0]) {
        Some(ws[0])
    } else {
        first_wanted(ws.drop_first(), name)
    }
}

/// `name` below the archive's common folder, when it lies in it.
pub open spec fn below_root(name: Seq<char>, root: Option<Seq<char>>) -> Seq<char> {
    match root {
        Some(r) => if starts_with(name, r) {
            name.skip(r.len() as int)
        } else {
            name
        },
        None => name,
    }
}

/// A path part that leads out of the target folder: `..`, or one with a
/// drive or stream colon.
pub open spec fn unsafe_part(p: Seq<char>) -> bool {
    p == ".."@ || contains(p, seq![':'])
}

/// Some part of `rel` between slashes leads out of the target folder.
pub open spec fn escapes(rel: Seq<char>) -> bool {
    exists|k: int| 0 <= k < split_on(rel, '/').len() && unsafe_part(#[trigger] split_on(rel, '/')[k])
}

/// Where an entry of a tool archive is written.
#[derive(Debug, PartialEq)]
pub enum Placement {
    /// Not extracted.
    Skip,
    /// A picked program: flat in the target folder under this name, made
    /// executable.
    Program(String),
    /// At this path inside the target folder, with the archive's mode.
    Keep(String),
    /// A path that would leave the target folder: the archive is refused.
    Unsafe(String),
}

/// What becomes of the archive entry `name`. With a `wanted` list the first
/// path that the name ends with picks the entry, which lands flat under that
/// path's last part; other entries are skipped. Without one every entry is
/// kept below the archive's common folder `root`, except an empty rest, and
/// a path with a `..` part or a colon is refused.
pub fn place_entry(name: &str, wanted: Option<&Vec<String>>, root: Option<&str>) -> (r: Placement)
    ensures
        ({
            let n = slashed(name@);
            match wanted {
                Some(ws) => match first_wanted(string_views(ws@), n) {
                    Some(w) => r matches Placement::Program(f) && f@ == after_last(w, '/'),
                    None => r is Skip,
                },
                None => {
                    let rel = below_root(n, match root {
                        Some(x) => Some(x@),
                        None => None,
                    });
                    if rel.len() == 0 {
                        r is Skip
                    } else if escapes(rel) {
                        r matches Placement::Unsafe(p) && p@ == rel
                    } else {
                        r matches Placement::Keep(p) && p@ == rel
                    }
                },
            }
        }),
{
    let v = chars_of(name);
    let mut n: Vec<char> = Vec::new();
    let mut i: usize = 0;
    while i < v.len()
        invariant
            i <= v@.len(),
            v@ == name@,
            n@ == slashed(v@.take(i as int)),
        decreases v@.len() - i,
    {
        let c = v[i];
        n.push(if c == '\\' { '/' } else { c });
        i += 1;
        assert(n@ =~= slashed(v@.take(i as int)));
    }
    assert(v@.take(v@.len() as int) =~= v@);
    match wanted {
        Some(ws) => {
            let ghost all = string_views(ws@);
            let mut k: usize = 0;
            assert(all.skip(0) =~= all);
            while k < ws.len()
                invariant
                    k <= ws@.len(),
                    all == string_views(ws@),
                    wanted == Some(ws),
                    n@ == slashed(name@),
                    first_wanted(all, n@) == first_wanted(all.skip(k as int), n@),
                decreases ws@.len() - k,
            {
                let w = chars_of(ws[k].as_str());
                assert(all.skip(k as int)[0] == w@);
                assert(all.skip(k as int).drop_first() =~= all.skip(k + 1));
                if finishes_with(n.as_slice(), w.as_slice()) {
                    let from = after_last_index(w.as_slice(), '/');
                    let last = slice_vec(w.as_slice(), from, w.len());
                    assert(w@.subrange(from as int, w@.len() as int) =~= w@.skip(from as int));
                    assert(ends_with(n@, all.skip(k as int)[0]));
                    assert(first_wanted(all.skip(k as int), n@) == Some(w@));
                    return Placement::Program(string_of(last.as_slice()));
                }
                k += 1;
            }
            Placement::Skip
        },
        None => {
            let rel: Vec<char> = match root {
                Some(r) => {
                    let rv = chars_of(r);
                    if begins_with(n.as_slice(), rv.as_slice()) {
                        let t = slice_vec(n.as_slice(), rv.len(), n.len());
                        assert(t@ =~= n@.skip(rv@.len() as int));
                        t
                    } else {
                        n
                    }
                },
                None => n,
            };
            if rel.len() == 0 {
                return Placement::Skip;
            }
            let parts = split_char(rel.as_slice(), '/');
            let colon: [char; 1] = [':'];
            assert(colon@ == seq![':']);
            let mut k: usize = 0;
            while k < parts.len()
                invariant
                    k <= parts@.len(),
                    views(parts@) == split_on(rel@, '/'),
                    colon@ == seq![':'],
                    wanted is None,
                    rel@.len() > 0,
                    rel@ == below_root(slashed(name@), match root {
                        Some(x) => Some(x@),
                        None => None,
                    }),
                    forall|j: int| 0 <= j < k ==> !unsafe_part(#[trigger] split_on(rel@, '/')[j]),
                decreases parts@.len() - k,
            {
                let part = parts[k].as_slice();
                assert(split_on(rel@, '/')[k as int] == part@);
                if same_chars(part, "..") || has(part, colon.as_slice()) {
                    assert(unsafe_part(split_on(rel@, '/')[k as int]));
                    assert(escapes(rel@));
                    return Placement::Unsafe(string_of(rel.as_slice()));
                }
                k += 1;
            }
            Placement::Keep(string_of(rel.as_slice()))
        },
    }
}

/// A prefix of ASCII digits.
pub open spec fn digit_prefix(s: Seq<char>) -> Seq<char>
    decreases s.len(),
{
    if s.len() > 0 && is_digit(s[0]) {
        seq![s[0]] + digit_prefix(s.drop_first())
    } else {
        seq![]
    }
}

/// Year, month and day of a yt-dlp version (`2026.08.19`, perhaps with a
/// build number after the day).
pub open spec fn version_date(v: Seq<char>) -> Option<(i64, i64, i64)> {
    let ps = split_on(v, '.');
    if ps.len() < 3 {
        None
    } else {
        match (parsed_i64(ps[0]), parsed_i64(ps[1]), parsed_i64(digit_prefix(ps[2]))) {
            (Some(y), Some(m), Some(d)) => Some((y, m, d)),
            _ => None,
        }
    }
}

/// Days from the version's date to day `today`, for dates whose parts lie
/// within ±10^12.
pub open spec fn age_at(v: Seq<char>, today: i64) -> Option<int> {
    match version_date(v) {
        Some((y, m, d)) => if crate::util::civil_in_range(y, m, d) {
            Some(today - civil_days(y as int, m as int, d as int))
        } else {
            None
        },
        None => None,
    }
}

fn digit_prefix_of(s: &[char]) -> (r: Vec<char>)
    ensures
        r@ == digit_prefix(s@),
{
    let mut k: usize = 0;
    assert(s@.skip(0) == s@);
    assert(s@.take(0) + digit_prefix(s@) =~= digit_prefix(s@));
    while k < s.len() && '0' <= s[k] && s[k] <= '9'
        invariant
            k <= s@.len(),
            digit_prefix(s@) == s@.take(k as int) + digit_prefix(s@.skip(k as int)),
        decreases s@.len() - k,
    {
        assert(s@.skip(k as int).drop_first() =~= s@.skip(k + 1));
        assert(s@.take(k + 1) =~= s@.take(k as int) + seq![s@[k as int]]);
        k += 1;
    }
    slice_vec(s, 0, k)
}

/// How many days `v` (a yt-dlp version, which is a date) lies before day
/// `today` (days since 1970). `None` for anything that is not such a date.
pub fn version_age_days_at(v: &str, today: i64) -> (r: Option<i64>)
    requires
        0 <= today <= 213_503_982_334_601,
    ensures
        match age_at(v@, today) {
            Some(a) => r == Some(a as i64),
            None => r is None,
        },
{
    let c = chars_of(v);
    let ps = split_char(c.as_slice(), '.');
    if ps.len() < 3 {
        return None;
    }
    assert(views(ps@)[0] == ps@[0]@ && views(ps@)[1] == ps@[1]@ && views(ps@)[2] == ps@[2]@);
    let y = match parse_i64(ps[0].as_slice()) {
        Some(y) => y,
        None => return None,
    };
    let m = match parse_i64(ps[1].as_slice()) {
        Some(m) => m,
        None => return None,
    };
    let dp = digit_prefix_of(ps[2].as_slice());
    let d = match parse_i64(dp.as_slice()) {
        Some(d) => d,
        None => return None,
    };
    if !(-1_000_000_000_000 <= y && y <= 1_000_000_000_000 && -1_000_000_000_000 <= m && m
        <= 1_000_000_000_000 && -1_000_000_000_000 <= d && d <= 1_000_000_000_000) {
        return None;
    }
    let day = days_from_civil(y, m, d);
    Some(today - day)
}

/// yt-dlp versions are dates: `2026.08.19`. Days since that date, by the
/// system clock.
pub fn version_age_days(v: &str) -> (r: Option<i64>)
    ensures
        exists|today: i64| 0 <= today && #[trigger] age_at(v@, today) == match r {
            Some(a) => Some(a as int),
            None => None::<int>,
        },
{
    let today = today_days();
    let r = version_age_days_at(v, today);
    assert(age_at(v@, today) == match r {
        Some(a) => Some(a as int),
        None => None::<int>,
    });
    r
}

/// The age that counts for yt-dlp: the release's, or the days since the
/// program file was last written when that is sooner, as a fresh download
/// of the newest release is not stale however old that release is.
pub open spec fn fresh_age(release_age: Option<int>, refreshed: Option<i64>) -> Option<int> {
    match release_age {
        Some(a) => match refreshed {
            Some(d) => Some(if d < a {
                d as int
            } else {
                a
            }),
            None => Some(a),
        },
        None => None,
    }
}

/// What `yt-dlp --version` told: the version (its output, trimmed) and its
/// age in days by `fresh_age` on day `today`; `None` when yt-dlp did not
/// run through (`ok` false) or printed nothing.
pub fn ytdlp_report(output: &str, ok: bool, refreshed: Option<i64>, today: i64) -> (r: Option<(String, Option<i64>)>)
    requires
        0 <= today <= 213_503_982_334_601,
    ensures
        !ok || crate::text::trim_spaces(output@).len() == 0 ==> r is None,
        ok && crate::text::trim_spaces(output@).len() > 0 ==> (r matches Some((v, age)) && v@
            == crate::text::trim_spaces(output@) && match fresh_age(age_at(v@, today), refreshed) {
            Some(a) => age == Some(a as i64),
            None => age is None,
        }),
{
    let v = crate::text::trimmed(output);
    if !ok || v.len() == 0 {
        return None;
    }
    let version = string_of(v.as_slice());
    let age = match version_age_days_at(version.as_str(), today) {
        Some(a) => match refreshed {
            Some(d) => Some(if d < a { d } else { a }),
            None => Some(a),
        },
        None => None,
    };
    Some((version, age))
}

/// yt-dlp is downloaded when none works (`age` is `None`), or when the only
/// one is an installed copy outside the app's folder that has fallen behind.
pub fn needs_ytdlp(info: Option<Option<i64>>, in_app_folder: bool) -> (r: bool)
    ensures
        r == match info {
            None => true,
            Some(age) => !in_app_folder && (age matches Some(a) && a > STALE_DAYS),
        },
{
    match info {
        None => true,
        Some(age) => !in_app_folder && match age {
            Some(a) => a > STALE_DAYS,
            None => false,
        },
    }
}

/// The message for a tool that has no download on this system.
pub fn unavailable(name: &str) -> (r: String)
    ensures
        r@ == name@ + " gibt es für dieses System nicht zum Herunterladen – bitte über die Paketverwaltung installieren"@,
{
    joined(
        name,
        " gibt es für dieses System nicht zum Herunterladen – bitte über die Paketverwaltung installieren",
    )
}

// ---------------------------------------------------------------- tools

/// `name` with the platform's executable suffix (`.exe` on Windows).
pub fn exe(name: &str, windows: bool) -> (r: String)
    ensures
        r@ == name@ + (if windows {
            ".exe"@
        } else {
            seq![]
        }),
{
    let mut s = String::from_str(name);
    if windows {
        push_str(&mut s, ".exe");
    }
    s
}

/// Which copy of a tool to run: the downloaded one when it is there (on
/// Windows always), else an installed one found on the search path, else
/// the download location, which the setup fills.
pub fn pick(local: String, local_is_file: bool, windows: bool, installed: Option<String>) -> (r: String)
    ensures
        r == (if local_is_file || windows {
            local
        } else {
            match installed {
                Some(p) => p,
                None => local,
            }
        }),
{
    if local_is_file || windows {
        return local;
    }
    match installed {
        Some(p) => p,
        None => local,
    }
}

/// The value for yt-dlp's `--js-runtimes`: the downloaded Deno when it is
/// there, else an installed Node.js, else none. YouTube needs one.
pub fn js_runtime(deno: &str, deno_is_file: bool, node: Option<String>) -> (r: Option<String>)
    ensures
        deno_is_file ==> (r matches Some(v) && v@ == "deno:"@ + deno@),
        !deno_is_file ==> match node {
            Some(n) => r matches Some(v) && v@ == "node:"@ + n@,
            None => r is None,
        },
{
    if deno_is_file {
        let mut v = String::from_str("deno:");
        push_str(&mut v, deno);
        return Some(v);
    }
    match node {
        Some(n) => {
            let mut v = String::from_str("node:");
            push_str(&mut v, n.as_str());
            Some(v)
        },
        None => None,
    }
}

/// The folder holding ffmpeg and ffprobe, for `--ffmpeg-location`: the
/// download folder on Windows or when both are in it, else the first
/// folder of the search path that has both, else the download folder.
pub fn ffmpeg_dir(bin: String, windows: bool, bin_has_both: bool, found: Option<String>) -> (r: String)
    ensures
        r == (if windows || bin_has_both {
            bin
        } else {
            match found {
                Some(d) => d,
                None => bin,
            }
        }),
{
    if windows || bin_has_both {
        return bin;
    }
    match found {
        Some(d) => d,
        None => bin,
    }
}

// ---------------------------------------------------------------- paths

/// The name with the platform's executable suffix.
pub open spec fn exe_name(name: Seq<char>, windows: bool) -> Seq<char> {
    name + (if windows {
        ".exe"@
    } else {
        seq![]
    })
}

/// A path separator: `/`, and on Windows also `\\`.
pub open spec fn is_separator(c: char, windows: bool) -> bool {
    c == '/' || (windows && c == '\\')
}

/// `name` below `dir`, as joining a relative path does: a separator goes
/// between them unless `dir` is empty or already ends with one.
pub open spec fn path_joined(dir: Seq<char>, name: Seq<char>, windows: bool) -> Seq<char> {
    if dir.len() == 0 || is_separator(dir.last(), windows) {
        dir + name
    } else {
        dir + seq![if windows { '\\' } else { '/' }] + name
    }
}

/// Joins the relative path `name` to `dir`.
pub fn join_path(dir: &str, name: &str, windows: bool) -> (r: String)
    ensures
        r@ == path_joined(dir@, name@, windows),
{
    let v = chars_of(dir);
    let n: usize = v.len();
    let mut s = string_of(v.as_slice());
    if n > 0 {
        let last = v[n - 1];
        if !(last == '/' || (windows && last == '\\')) {
            push_char(&mut s, if windows { '\\' } else { '/' });
        }
    }
    push_str(&mut s, name);
    s
}

/// Where the app keeps the tools it downloads: `<base>/bin`. On macOS and
/// Linux a program already installed stands in for a missing download.
pub struct Tools {
    pub bin: String,
    pub windows: bool,
}

impl Tools {
    pub fn new(base: &str, windows: bool) -> (t: Tools)
        ensures
            t.bin@ == path_joined(base@, "bin"@, windows),
            t.windows == windows,
    {
        Tools { bin: join_path(base, "bin", windows), windows }
    }

    /// `name` with the executable suffix, inside `bin`.
    pub fn in_bin(&self, name: &str) -> (r: String)
        ensures
            r@ == path_joined(self.bin@, exe_name(name@, self.windows), self.windows),
    {
        let file = exe(name, self.windows);
        join_path(self.bin.as_str(), file.as_str(), self.windows)
    }

    /// Where the downloaded yt-dlp lives: a folder of its own in `bin`.
    pub open spec fn ytdlp_path(self) -> Seq<char> {
        path_joined(
            path_joined(self.bin@, "yt-dlp"@, self.windows),
            exe_name("yt-dlp"@, self.windows),
            self.windows,
        )
    }

    /// The downloaded yt-dlp's path.
    pub fn ytdlp_local(&self) -> (r: String)
        ensures
            r@ == self.ytdlp_path(),
    {
        let dir = join_path(self.bin.as_str(), "yt-dlp", self.windows);
        let file = exe("yt-dlp", self.windows);
        join_path(dir.as_str(), file.as_str(), self.windows)
    }

    /// yt-dlp to run: the downloaded one if `local_is_file` says it is
    /// there, else `installed` (found on the search path), as `pick` decides.
    pub fn ytdlp(&self, local_is_file: bool, installed: Option<String>) -> (r: String)
        ensures
            r@ == (if local_is_file || self.windows {
                self.ytdlp_path()
            } else {
                match installed {
                    Some(p) => p@,
                    None => self.ytdlp_path(),
                }
            }),
    {
        pick(self.ytdlp_local(), local_is_file, self.windows, installed)
    }

    /// gallery-dl to run, chosen as for yt-dlp.
    pub fn gallery_dl(&self, local_is_file: bool, installed: Option<String>) -> (r: String)
        ensures
            ({
                let local = path_joined(self.bin@, exe_name("gallery-dl"@, self.windows), self.windows);
                r@ == (if local_is_file || self.windows {
                    local
                } else {
                    match installed {
                        Some(p) => p@,
                        None => local,
                    }
                })
            }),
    {
        pick(self.in_bin("gallery-dl"), local_is_file, self.windows, installed)
    }

    /// Deno to run, chosen as for yt-dlp.
    pub fn deno(&self, local_is_file: bool, installed: Option<String>) -> (r: String)
        ensures
            ({
                let local = path_joined(self.bin@, exe_name("deno"@, self.windows), self.windows);
                r@ == (if local_is_file || self.windows {
                    local
                } else {
                    match installed {
                        Some(p) => p@,
                        None => local,
                    }
                })
            }),
    {
        pick(self.in_bin("deno"), local_is_file, self.windows, installed)
    }

    /// ffmpeg inside the folder `dir` that holds it (see `ffmpeg_dir`).
    pub fn ffmpeg(&self, dir: &str) -> (r: String)
        ensures
            r@ == path_joined(dir@, exe_name("ffmpeg"@, self.windows), self.windows),
    {
        let file = exe("ffmpeg", self.windows);
        join_path(dir, file.as_str(), self.windows)
    }

    /// ffprobe inside the folder `dir` that holds it (see `ffmpeg_dir`).
    pub fn ffprobe(&self, dir: &str) -> (r: String)
        ensures
            r@ == path_joined(dir@, exe_name("ffprobe"@, self.windows), self.windows),
    {
        let file = exe("ffprobe", self.windows);
        join_path(dir, file.as_str(), self.windows)
    }

    /// The folder holding ffmpeg and ffprobe: `bin` on Windows or when both
    /// are in it, else `found` (a folder of the search path with both).
    pub fn ffmpeg_dir(&self, bin_has_both: bool, found: Option<String>) -> (r: String)
        ensures
            r@ == (if self.windows || bin_has_both {
                self.bin@
            } else {
                match found {
                    Some(d) => d@,
                    None => self.bin@,
                }
            }),
    {
        ffmpeg_dir(self.bin.clone(), self.windows, bin_has_both, found)
    }
}

} // verus!
