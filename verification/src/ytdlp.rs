//! How yt-dlp is asked for a download, and how its output lines are read.

use crate::config::{Config, Format};
use crate::text::{
    chars_of, contains, decimal, has, split_words, trim_chars, views, words, parse_u64, parsed_u64, push_decimal, push_str, slice_vec, split_first,
    split_once, starts_with, begins_with, string_of, string_views, trim_spaces, trimmed,
};
use crate::util::round_half_even;
use vstd::prelude::*;
use vstd::string::StringExecFns;

verus! {

/// What to download and how.
pub struct Request<'a> {
    pub url: &'a str,
    pub dir: &'a str,
    /// yt-dlp output template, relative to `dir`.
    pub template: String,
    pub cfg: &'a Config,
    pub playlist: bool,
    pub embed_meta: bool,
    /// Forces audio extraction even if the user picked a video format (Spotify).
    pub force_audio: bool,
    /// Accept only media whose duration lies within these bounds, in
    /// milliseconds; yt-dlp gets them as whole seconds.
    pub duration: Option<(i64, i64)>,
}

/// What a yt-dlp run produced.
#[derive(Debug)]
pub struct Outcome {
    pub files: Vec<String>,
    /// Media was skipped because it did not pass `--match-filter`.
    pub filtered: bool,
    pub error: Option<String>,
    pub cancelled: bool,
}

impl Outcome {
    pub fn new() -> (r: Outcome)
        ensures
            r.files@.len() == 0,
            !r.filtered,
            r.error is None,
            !r.cancelled,
    {
        Outcome { files: Vec::new(), filtered: false, error: None, cancelled: false }
    }
}

pub open spec fn effective(format: Format, force_audio: bool) -> Format {
    if force_audio && !format.audio() {
        Format::Mp3
    } else {
        format
    }
}

/// The format actually used, honouring `force_audio`.
pub fn effective_format(cfg: &Config, force_audio: bool) -> (r: Format)
    ensures
        r == effective(cfg.format, force_audio),
{
    if force_audio && !cfg.format.is_audio() {
        Format::Mp3
    } else {
        cfg.format
    }
}

/// The template yt-dlp prints progress lines with.
pub open spec fn progress_template() -> Seq<char> {
    "download:OMNI %(progress.downloaded_bytes)s %(progress.total_bytes)s %(progress.total_bytes_estimate)s %(progress.speed)s %(progress.eta)s"@
}

/// The fixed start of every argument list.
pub open spec fn base_args(ffmpeg_dir: Seq<char>, dir: Seq<char>, template: Seq<char>) -> Seq<Seq<char>> {
    seq![
        "--newline"@,
        "--no-quiet"@,
        "--progress"@,
        "--color"@,
        "never"@,
        "--no-mtime"@,
        "--windows-filenames"@,
        "--no-warnings"@,
        "-N"@,
        "8"@,
        "--retries"@,
        "10"@,
        "--fragment-retries"@,
        "10"@,
        "--ffmpeg-location"@,
        ffmpeg_dir,
        "--progress-template"@,
        progress_template(),
        "--print"@,
        "before_dl:OMNITITLE %(title)s"@,
        "--print"@,
        "after_move:OMNIFILE %(filepath)s"@,
        "-P"@,
        dir,
        "-o"@,
        template,
    ]
}

/// The sort order asked of yt-dlp for video.
pub open spec fn video_sort(height: Option<u32>, fmt: Format) -> Seq<char> {
    match height {
        Some(h) => if fmt == Format::Mp4 {
            "res:"@ + decimal(h as nat) + ",vcodec:h264,acodec:aac"@
        } else {
            "res:"@ + decimal(h as nat)
        },
        None => if fmt == Format::Mp4 {
            "res,vcodec:h264,acodec:aac"@
        } else {
            "res"@
        },
    }
}

/// The arguments that pick and convert the format.
pub open spec fn format_args(cfg: Config, fmt: Format) -> Seq<Seq<char>> {
    if fmt.audio() {
        seq!["-f"@, "ba/b"@, "-x"@, "--audio-format"@, fmt.ext_text()] + if fmt.bitrated() {
            seq!["--audio-quality"@, cfg.audio_quality.value_text()]
        } else {
            seq![]
        }
    } else {
        seq![
            "-f"@,
            "bv*+ba/b"@,
            "-S"@,
            video_sort(cfg.video_quality.lines(), fmt),
            "--merge-output-format"@,
            fmt.ext_text(),
        ]
    }
}

pub open spec fn meta_args(embed: bool, fmt: Format) -> Seq<Seq<char>> {
    if embed {
        seq!["--embed-metadata"@] + (if fmt != Format::Wav {
            seq!["--embed-thumbnail"@]
        } else {
            seq![]
        }) + (if !fmt.audio() {
            seq!["--embed-chapters"@]
        } else {
            seq![]
        })
    } else {
        seq![]
    }
}

/// The full argument list for a download.
pub open spec fn ytdlp_args(
    ffmpeg_dir: Seq<char>,
    js: Option<Seq<char>>,
    url: Seq<char>,
    dir: Seq<char>,
    template: Seq<char>,
    cfg: Config,
    playlist: bool,
    embed_meta: bool,
    force_audio: bool,
    duration: Option<(i64, i64)>,
) -> Seq<Seq<char>> {
    let fmt = effective(cfg.format, force_audio);
    base_args(ffmpeg_dir, dir, template) + (match js {
        Some(j) => seq!["--js-runtimes"@, j],
        None => seq![],
    }) + (match cfg.cookies.browser_text() {
        Some(b) => seq!["--cookies-from-browser"@, b],
        None => seq![],
    }) + seq![
        if playlist {
            "--yes-playlist"@
        } else {
            "--no-playlist"@
        },
    ] + (match duration {
        Some((lo, hi)) => seq![
            "--match-filter"@,
            "duration>="@ + secs_text(lo as int) + " & duration<="@ + secs_text(hi as int),
        ],
        None => seq![],
    }) + format_args(cfg, fmt) + meta_args(embed_meta, fmt) + seq!["--"@, url]
}

proof fn lemma_add_lacks(a: Seq<Seq<char>>, b: Seq<Seq<char>>, x: Seq<char>)
    requires
        !a.contains(x),
        !b.contains(x),
    ensures
        !(a + b).contains(x),
{
    if (a + b).contains(x) {
        let i = choose|i: int| 0 <= i < (a + b).len() && (a + b)[i] == x;
        if i < a.len() {
            assert(a[i] == x);
        } else {
            assert(b[i - a.len()] == x);
        }
    }
}

proof fn lemma_base_lacks(ffmpeg_dir: Seq<char>, dir: Seq<char>, template: Seq<char>)
    requires
        ffmpeg_dir != "--embed-chapters"@,
        dir != "--embed-chapters"@,
        template != "--embed-chapters"@,
    ensures
        !base_args(ffmpeg_dir, dir, template).contains("--embed-chapters"@),
{
    reveal_strlit("--color");
    reveal_strlit("--ffmpeg-location");
    reveal_strlit("--fragment-retries");
    reveal_strlit("--newline");
    reveal_strlit("--no-mtime");
    reveal_strlit("--no-quiet");
    reveal_strlit("--no-warnings");
    reveal_strlit("--print");
    reveal_strlit("--progress");
    reveal_strlit("--progress-template");
    reveal_strlit("--retries");
    reveal_strlit("--windows-filenames");
    reveal_strlit("-N");
    reveal_strlit("-P");
    reveal_strlit("-o");
    reveal_strlit("10");
    reveal_strlit("8");
    reveal_strlit("after_move:OMNIFILE %(filepath)s");
    reveal_strlit("before_dl:OMNITITLE %(title)s");
    reveal_strlit("never");
    reveal_strlit("download:OMNI %(progress.downloaded_bytes)s %(progress.total_bytes)s %(progress.total_bytes_estimate)s %(progress.speed)s %(progress.eta)s");
    reveal_strlit("--embed-chapters");
    let x = "--embed-chapters"@;
    let s = base_args(ffmpeg_dir, dir, template);
    if s.contains(x) {
        let i = choose|i: int| 0 <= i < s.len() && s[i] == x;
        if i == 0 {
            assert(s[0] == "--newline"@);
        } else if i == 1 {
            assert(s[1] == "--no-quiet"@);
        } else if i == 2 {
            assert(s[2] == "--progress"@);
        } else if i == 3 {
            assert(s[3] == "--color"@);
        } else if i == 4 {
            assert(s[4] == "never"@);
        } else if i == 5 {
            assert(s[5] == "--no-mtime"@);
        } else if i == 6 {
            assert(s[6] == "--windows-filenames"@);
        } else if i == 7 {
            assert(s[7] == "--no-warnings"@);
        } else if i == 8 {
            assert(s[8] == "-N"@);
        } else if i == 9 {
            assert(s[9] == "8"@);
        } else if i == 10 {
            assert(s[10] == "--retries"@);
        } else if i == 11 {
            assert(s[11] == "10"@);
        } else if i == 12 {
            assert(s[12] == "--fragment-retries"@);
        } else if i == 13 {
            assert(s[13] == "10"@);
        } else if i == 14 {
            assert(s[14] == "--ffmpeg-location"@);
        } else if i == 15 {
            assert(s[15] != x);
        } else if i == 16 {
            assert(s[16] == "--progress-template"@);
        } else if i == 17 {
            assert(s[17] == progress_template());
        } else if i == 18 {
            assert(s[18] == "--print"@);
        } else if i == 19 {
            assert(s[19] == "before_dl:OMNITITLE %(title)s"@);
        } else if i == 20 {
            assert(s[20] == "--print"@);
        } else if i == 21 {
            assert(s[21] == "after_move:OMNIFILE %(filepath)s"@);
        } else if i == 22 {
            assert(s[22] == "-P"@);
        } else if i == 23 {
            assert(s[23] != x);
        } else if i == 24 {
            assert(s[24] == "-o"@);
        } else if i == 25 {
            assert(s[25] != x);
        }
    }
}

proof fn lemma_audio_format_lacks(cfg: Config, fmt: Format)
    requires
        fmt.audio(),
    ensures
        !format_args(cfg, fmt).contains("--embed-chapters"@),
{
    reveal_strlit("-f");
    reveal_strlit("ba/b");
    reveal_strlit("-x");
    reveal_strlit("--audio-format");
    reveal_strlit("--audio-quality");
    reveal_strlit("mp3");
    reveal_strlit("m4a");
    reveal_strlit("opus");
    reveal_strlit("flac");
    reveal_strlit("wav");
    reveal_strlit("0");
    reveal_strlit("320K");
    reveal_strlit("256K");
    reveal_strlit("192K");
    reveal_strlit("128K");
    reveal_strlit("--embed-chapters");
    let x = "--embed-chapters"@;
    let s = format_args(cfg, fmt);
    if s.contains(x) {
        let i = choose|i: int| 0 <= i < s.len() && s[i] == x;
        assert(s[i].len() <= 15);
    }
}

/// A list of at most three arguments, none of which is `x`, holds no `x`.
proof fn lemma_short_lacks(s: Seq<Seq<char>>, x: Seq<char>)
    requires
        s.len() <= 3,
        s.len() > 0 ==> s[0] != x,
        s.len() > 1 ==> s[1] != x,
        s.len() > 2 ==> s[2] != x,
    ensures
        !s.contains(x),
{
    if s.contains(x) {
        let i = choose|i: int| 0 <= i < s.len() && s[i] == x;
        assert(i == 0 || i == 1 || i == 2);
    }
}

/// With metadata embedded every download embeds its metadata, and its
/// thumbnail unless it is WAV; a video download (MP4 or MKV, audio not
/// forced) also embeds its chapters. An audio download never asks for chapters:
/// no argument reads `--embed-chapters`, unless a path, the link or the
/// JavaScript runtime given reads so itself.
pub proof fn lemma_chapters_only_for_video(
    ffmpeg_dir: Seq<char>,
    js: Option<Seq<char>>,
    url: Seq<char>,
    dir: Seq<char>,
    template: Seq<char>,
    cfg: Config,
    playlist: bool,
    embed_meta: bool,
    force_audio: bool,
    duration: Option<(i64, i64)>,
)
    ensures
        embed_meta && !force_audio && (cfg.format is Mp4 || cfg.format is Mkv) ==> ytdlp_args(
            ffmpeg_dir,
            js,
            url,
            dir,
            template,
            cfg,
            playlist,
            embed_meta,
            force_audio,
            duration,
        ).contains("--embed-chapters"@),
        embed_meta ==> ytdlp_args(
            ffmpeg_dir,
            js,
            url,
            dir,
            template,
            cfg,
            playlist,
            embed_meta,
            force_audio,
            duration,
        ).contains("--embed-metadata"@),
        embed_meta && !(cfg.format is Wav) ==> ytdlp_args(
            ffmpeg_dir,
            js,
            url,
            dir,
            template,
            cfg,
            playlist,
            embed_meta,
            force_audio,
            duration,
        ).contains("--embed-thumbnail"@),
        (force_audio || !(cfg.format is Mp4 || cfg.format is Mkv)) && ffmpeg_dir != "--embed-chapters"@
            && url != "--embed-chapters"@ && dir != "--embed-chapters"@ && template != "--embed-chapters"@
            && js != Some("--embed-chapters"@) ==> !ytdlp_args(
            ffmpeg_dir,
            js,
            url,
            dir,
            template,
            cfg,
            playlist,
            embed_meta,
            force_audio,
            duration,
        ).contains("--embed-chapters"@),
{
    reveal_strlit("--embed-chapters");
    let x = "--embed-chapters"@;
    let fmt = effective(cfg.format, force_audio);
    let base = base_args(ffmpeg_dir, dir, template);
    let j = match js {
        Some(j) => seq!["--js-runtimes"@, j],
        None => seq![],
    };
    let c = match cfg.cookies.browser_text() {
        Some(b) => seq!["--cookies-from-browser"@, b],
        None => seq![],
    };
    let p = seq![
        if playlist {
            "--yes-playlist"@
        } else {
            "--no-playlist"@
        },
    ];
    let d = match duration {
        Some((lo, hi)) => seq![
            "--match-filter"@,
            "duration>="@ + secs_text(lo as int) + " & duration<="@ + secs_text(hi as int),
        ],
        None => seq![],
    };
    let f = format_args(cfg, fmt);
    let m = meta_args(embed_meta, fmt);
    let t = seq!["--"@, url];
    let q = base + j + c + p + d + f;
    let all = ytdlp_args(ffmpeg_dir, js, url, dir, template, cfg, playlist, embed_meta, force_audio, duration);
    assert(all == q + m + t);
    if embed_meta && !force_audio && (cfg.format is Mp4 || cfg.format is Mkv) {
        assert(m[m.len() - 1] == x);
        assert(all[q.len() + m.len() - 1] == x);
    }
    if embed_meta {
        assert(m[0] == "--embed-metadata"@);
        assert(all[q.len() as int] == "--embed-metadata"@);
        if !(cfg.format is Wav) {
            assert(fmt != Format::Wav);
            assert(m[1] == "--embed-thumbnail"@);
            assert(all[q.len() + 1int] == "--embed-thumbnail"@);
        }
    }
    if (force_audio || !(cfg.format is Mp4 || cfg.format is Mkv)) && ffmpeg_dir != x && url != x && dir != x
        && template != x && js != Some(x) {
        assert(fmt.audio());
        lemma_base_lacks(ffmpeg_dir, dir, template);
        reveal_strlit("--js-runtimes");
        reveal_strlit("--cookies-from-browser");
        reveal_strlit("--yes-playlist");
        reveal_strlit("--no-playlist");
        reveal_strlit("--match-filter");
        reveal_strlit("duration>=");
        reveal_strlit("--embed-metadata");
        reveal_strlit("--embed-thumbnail");
        reveal_strlit("--");
        reveal_strlit("firefox");
        reveal_strlit("edge");
        reveal_strlit("chrome");
        reveal_strlit("brave");
        assert(x.len() == 16);
        assert(j.len() > 0 ==> j[0] == "--js-runtimes"@ && "--js-runtimes"@.len() == 13);
        lemma_short_lacks(j, x);
        lemma_short_lacks(c, x);
        assert(p[0] == "--yes-playlist"@ || p[0] == "--no-playlist"@);
        assert("--yes-playlist"@.len() == 14 && "--no-playlist"@.len() == 13);
        lemma_short_lacks(p, x);
        if let Some((lo, hi)) = duration {
            let e = "duration>="@ + secs_text(lo as int) + " & duration<="@ + secs_text(hi as int);
            assert(e[0] == 'd');
        }
        lemma_short_lacks(d, x);
        lemma_audio_format_lacks(cfg, fmt);
        assert("--embed-metadata"@[8] != x[8]);
        lemma_short_lacks(m, x);
        assert(t[0] == "--"@ && "--"@.len() == 2);
        lemma_short_lacks(t, x);
        lemma_add_lacks(base, j, x);
        lemma_add_lacks(base + j, c, x);
        lemma_add_lacks(base + j + c, p, x);
        lemma_add_lacks(base + j + c + p, d, x);
        lemma_add_lacks(base + j + c + p + d, f, x);
        lemma_add_lacks(q, m, x);
        lemma_add_lacks(q + m, t, x);
    }
}


fn push_arg(a: &mut Vec<String>, s: String)
    ensures
        string_views(final(a)@) == string_views(old(a)@).push(s@),
{
    a.push(s);
    assert(string_views(a@) =~= string_views(old(a)@).push(s@));
}

pub(crate) fn push_lit(a: &mut Vec<String>, s: &str)
    ensures
        string_views(final(a)@) == string_views(old(a)@).push(s@),
{
    push_arg(a, String::from_str(s));
}

fn push_base(a: &mut Vec<String>, ffmpeg_dir: &str, dir: &str, template: &String)
    ensures
        string_views(final(a)@) == string_views(old(a)@) + base_args(ffmpeg_dir@, dir@, template@),
{
    let ghost start = string_views(a@);
    push_lit(a, "--newline");
    push_lit(a, "--no-quiet");
    push_lit(a, "--progress");
    push_lit(a, "--color");
    push_lit(a, "never");
    push_lit(a, "--no-mtime");
    push_lit(a, "--windows-filenames");
    push_lit(a, "--no-warnings");
    push_lit(a, "-N");
    push_lit(a, "8");
    push_lit(a, "--retries");
    push_lit(a, "10");
    push_lit(a, "--fragment-retries");
    push_lit(a, "10");
    push_lit(a, "--ffmpeg-location");
    push_lit(a, ffmpeg_dir);
    push_lit(a, "--progress-template");
    push_lit(
        a,
        "download:OMNI %(progress.downloaded_bytes)s %(progress.total_bytes)s %(progress.total_bytes_estimate)s %(progress.speed)s %(progress.eta)s",
    );
    push_lit(a, "--print");
    push_lit(a, "before_dl:OMNITITLE %(title)s");
    push_lit(a, "--print");
    push_lit(a, "after_move:OMNIFILE %(filepath)s");
    push_lit(a, "-P");
    push_lit(a, dir);
    push_lit(a, "-o");
    push_arg(a, template.clone());
    assert(string_views(a@) =~= start + base_args(ffmpeg_dir@, dir@, template@));
}

fn push_format(a: &mut Vec<String>, cfg: &Config, fmt: Format)
    ensures
        string_views(final(a)@) == string_views(old(a)@) + format_args(*cfg, fmt),
{
    let ghost start = string_views(a@);
    if fmt.is_audio() {
        push_lit(a, "-f");
        push_lit(a, "ba/b");
        push_lit(a, "-x");
        push_lit(a, "--audio-format");
        push_lit(a, fmt.ext());
        if fmt.has_bitrate() {
            push_lit(a, "--audio-quality");
            push_lit(a, cfg.audio_quality.ytdlp_value());
        }
    } else {
        push_lit(a, "-f");
        push_lit(a, "bv*+ba/b");
        push_lit(a, "-S");
        let sort = match cfg.video_quality.height() {
            Some(h) => {
                let mut s = String::from_str("res:");
                push_decimal(&mut s, h as u64);
                if matches!(fmt, Format::Mp4) {
                    push_str(&mut s, ",vcodec:h264,acodec:aac");
                }
                s
            },
            None => if matches!(fmt, Format::Mp4) {
                String::from_str("res,vcodec:h264,acodec:aac")
            } else {
                String::from_str("res")
            },
        };
        push_arg(a, sort);
        push_lit(a, "--merge-output-format");
        push_lit(a, fmt.ext());
    }
    assert(string_views(a@) =~= start + format_args(*cfg, fmt));
}

fn push_meta(a: &mut Vec<String>, embed: bool, fmt: Format)
    ensures
        string_views(final(a)@) == string_views(old(a)@) + meta_args(embed, fmt),
{
    let ghost start = string_views(a@);
    if embed {
        push_lit(a, "--embed-metadata");
        if !matches!(fmt, Format::Wav) {
            push_lit(a, "--embed-thumbnail");
        }
        if !fmt.is_audio() {
            push_lit(a, "--embed-chapters");
        }
    }
    assert(string_views(a@) =~= start + meta_args(embed, fmt));
}

/// Milliseconds as whole seconds the way `{:.0}` prints them: rounded to
/// the nearest, ties to even, with a minus sign on any negative value.
pub open spec fn secs_text(ms: int) -> Seq<char> {
    if ms < 0 {
        "-"@ + decimal(round_half_even((-ms) as nat, 1000))
    } else {
        decimal(round_half_even(ms as nat, 1000))
    }
}

fn push_secs(s: &mut String, ms: i64)
    ensures
        final(s)@ == old(s)@ + secs_text(ms as int),
{
    let m: u64 = if ms < 0 {
        push_str(s, "-");
        (-(ms as i128)) as u64
    } else {
        ms as u64
    };
    let q: u64 = m / 1000;
    let r: u64 = m % 1000;
    let n: u64 = if 2 * r > 1000 || (2 * r == 1000 && q % 2 == 1) { q + 1 } else { q };
    push_decimal(s, n);
    proof {
        reveal_strlit("-");
    }
}

fn push_choices(a: &mut Vec<String>, js_runtime: Option<String>, cfg: &Config, playlist: bool, duration: Option<(i64, i64)>)
    ensures
        string_views(final(a)@) == string_views(old(a)@) + (match crate::jobs::opt_text(js_runtime) {
            Some(j) => seq!["--js-runtimes"@, j],
            None => seq![],
        }) + (match cfg.cookies.browser_text() {
            Some(b) => seq!["--cookies-from-browser"@, b],
            None => seq![],
        }) + seq![
            if playlist {
                "--yes-playlist"@
            } else {
                "--no-playlist"@
            },
        ] + (match duration {
            Some((lo, hi)) => seq![
                "--match-filter"@,
                "duration>="@ + secs_text(lo as int) + " & duration<="@ + secs_text(hi as int),
            ],
            None => seq![],
        }),
{
    let ghost start = string_views(a@);
    let ghost js = crate::jobs::opt_text(js_runtime);
    if let Some(js) = js_runtime {
        push_lit(a, "--js-runtimes");
        push_arg(a, js);
    }
    let ghost s1 = string_views(a@);
    assert(s1 =~= start + match js {
        Some(j) => seq!["--js-runtimes"@, j],
        None => Seq::<Seq<char>>::empty(),
    });
    if let Some(browser) = cfg.cookies.browser() {
        push_lit(a, "--cookies-from-browser");
        push_lit(a, browser);
    }
    let ghost s2 = string_views(a@);
    assert(s2 =~= s1 + match cfg.cookies.browser_text() {
        Some(b) => seq!["--cookies-from-browser"@, b],
        None => Seq::<Seq<char>>::empty(),
    });
    if playlist {
        push_lit(a, "--yes-playlist");
    } else {
        push_lit(a, "--no-playlist");
    }
    let ghost s3 = string_views(a@);
    if let Some((lo, hi)) = duration {
        push_lit(a, "--match-filter");
        let mut f = String::from_str("duration>=");
        push_secs(&mut f, lo);
        push_str(&mut f, " & duration<=");
        push_secs(&mut f, hi);
        push_arg(a, f);
    }
    let ghost s4 = string_views(a@);
    assert(s4 =~= s3 + match duration {
        Some((lo, hi)) => seq![
            "--match-filter"@,
            "duration>="@ + secs_text(lo as int) + " & duration<="@ + secs_text(hi as int),
        ],
        None => Seq::<Seq<char>>::empty(),
    });
}

/// yt-dlp's arguments for a request. `ffmpeg_dir` is the folder holding
/// ffmpeg and ffprobe, `js_runtime` the value for `--js-runtimes`, if any.
pub fn build_args(ffmpeg_dir: &str, js_runtime: Option<String>, req: &Request) -> (r: Vec<String>)
    ensures
        string_views(r@) == ytdlp_args(
            ffmpeg_dir@,
            crate::jobs::opt_text(js_runtime),
            req.url@,
            req.dir@,
            req.template@,
            *req.cfg,
            req.playlist,
            req.embed_meta,
            req.force_audio,
            req.duration,
        ),
{
    let cfg = req.cfg;
    let mut a: Vec<String> = Vec::new();
    assert(string_views(a@) =~= Seq::<Seq<char>>::empty());
    push_base(&mut a, ffmpeg_dir, req.dir, &req.template);
    push_choices(&mut a, js_runtime, cfg, req.playlist, req.duration);
    let fmt = effective_format(cfg, req.force_audio);
    push_format(&mut a, cfg, fmt);
    push_meta(&mut a, req.embed_meta, fmt);
    let ghost before = string_views(a@);
    push_lit(&mut a, "--");
    push_lit(&mut a, req.url);
    assert(string_views(a@) =~= before + seq!["--"@, req.url@]);
    a
}

/// `[download] Downloading item 3 of 20`: item and count.
pub open spec fn item_of(line: Seq<char>) -> Option<(u32, u32)> {
    if !starts_with(line, "[download] Downloading item "@) {
        None
    } else {
        match split_once(line.skip(28), " of "@) {
            None => None,
            Some((i, n)) => match (parsed_u64(trim_spaces(i)), parsed_u64(trim_spaces(n))) {
                (Some(a), Some(b)) => if a <= u32::MAX && b <= u32::MAX {
                    Some((a as u32, b as u32))
                } else {
                    None
                },
                _ => None,
            },
        }
    }
}

fn parse_u32(s: &[char]) -> (r: Option<u32>)
    ensures
        r matches Some(v) ==> parsed_u64(s@) == Some(v as u64),
        r is None ==> parsed_u64(s@) is None || parsed_u64(s@).unwrap() > u32::MAX,
{
    match parse_u64(s) {
        Some(v) => if v <= u32::MAX as u64 {
            Some(v as u32)
        } else {
            None
        },
        None => None,
    }
}

/// `[download] Downloading item 3 of 20`
pub fn parse_item(line: &str) -> (r: Option<(u32, u32)>)
    ensures
        r == item_of(line@),
{
    let v = chars_of(line);
    let p = chars_of("[download] Downloading item ");
    proof {
        reveal_strlit("[download] Downloading item ");
    }
    if !begins_with(v.as_slice(), p.as_slice()) {
        return None;
    }
    let rest = slice_vec(v.as_slice(), 28, v.len());
    assert(rest@ == line@.skip(28));
    let of = chars_of(" of ");
    let (i, n) = match split_first(rest.as_slice(), of.as_slice()) {
        Some(x) => x,
        None => return None,
    };
    let it = crate::text::trim_chars(i.as_slice());
    let nt = crate::text::trim_chars(n.as_slice());
    match (parse_u32(it.as_slice()), parse_u32(nt.as_slice())) {
        (Some(a), Some(b)) => Some((a, b)),
        _ => None,
    }
}

pub open spec fn processing_line(line: Seq<char>) -> bool {
    starts_with(line, "[Merger]"@) || starts_with(line, "[ExtractAudio]"@) || starts_with(
        line,
        "[EmbedThumbnail]"@,
    ) || starts_with(line, "[Metadata]"@) || starts_with(line, "[VideoConvertor]"@) || starts_with(
        line,
        "[VideoRemuxer]"@,
    ) || starts_with(line, "[FixupM3u8]"@)
}

fn starts(v: &[char], p: &str) -> (b: bool)
    ensures
        b == starts_with(v@, p@),
{
    let pv = chars_of(p);
    begins_with(v, pv.as_slice())
}

/// A line of yt-dlp's post-processing steps (merging, converting, tagging).
pub fn is_processing(line: &str) -> (b: bool)
    ensures
        b == processing_line(line@),
{
    let v = chars_of(line);
    let v = v.as_slice();
    starts(v, "[Merger]") || starts(v, "[ExtractAudio]") || starts(v, "[EmbedThumbnail]") || starts(
        v,
        "[Metadata]",
    ) || starts(v, "[VideoConvertor]") || starts(v, "[VideoRemuxer]") || starts(v, "[FixupM3u8]")
}


/// Prefix of the progress lines that `build_args` asks for.
pub const P_PROGRESS: &'static str = "OMNI ";

/// Prefix of the title line that `build_args` asks for.
pub const P_TITLE: &'static str = "OMNITITLE ";

/// Prefix of the line naming a finished file.
pub const P_FILE: &'static str = "OMNIFILE ";

/// What one line of yt-dlp's standard output tells.
pub enum Heard {
    /// The title, trimmed.
    Title(String),
    /// A finished file, its path trimmed.
    File(String),
    /// A progress line: the text after the prefix, which holds at least the
    /// three byte counts (done, total, estimate); reading their numbers is
    /// left to the caller.
    Progress(String),
    /// `Downloading item i of n`.
    Item(u32, u32),
    /// A post-processing step began.
    Processing,
    /// The media did not pass `--match-filter`.
    Filtered,
    /// The download proper began.
    Destination,
    Nothing,
}

/// What `line` tells, checked in this order: title, file, progress, item,
/// post-processing, filter, destination.
pub open spec fn hears(line: Seq<char>, h: Heard) -> bool {
    if starts_with(line, "OMNITITLE "@) {
        h matches Heard::Title(t) && t@ == trim_spaces(line.skip(10))
    } else if starts_with(line, "OMNIFILE "@) {
        h matches Heard::File(f) && f@ == trim_spaces(line.skip(9))
    } else if starts_with(line, "OMNI "@) && words(line.skip(5)).len() >= 3 {
        h matches Heard::Progress(r) && r@ == line.skip(5)
    } else if item_of(line) is Some {
        h == Heard::Item(item_of(line).unwrap().0, item_of(line).unwrap().1)
    } else if processing_line(line) {
        h is Processing
    } else if contains(line, "does not pass filter"@) {
        h is Filtered
    } else if starts_with(line, "[download] Destination:"@) {
        h is Destination
    } else {
        h is Nothing
    }
}

/// Reads one line of yt-dlp's standard output.
pub fn hear(line: &str) -> (h: Heard)
    ensures
        hears(line@, h),
{
    let v = chars_of(line);
    let n: usize = v.len();
    proof {
        reveal_strlit("OMNITITLE ");
        reveal_strlit("OMNIFILE ");
        reveal_strlit("OMNI ");
    }
    if starts(v.as_slice(), "OMNITITLE ") {
        let rest = slice_vec(v.as_slice(), 10, n);
        assert(rest@ == line@.skip(10));
        let t = trim_chars(rest.as_slice());
        return Heard::Title(string_of(t.as_slice()));
    }
    if starts(v.as_slice(), "OMNIFILE ") {
        let rest = slice_vec(v.as_slice(), 9, n);
        assert(rest@ == line@.skip(9));
        let t = trim_chars(rest.as_slice());
        return Heard::File(string_of(t.as_slice()));
    }
    if starts(v.as_slice(), "OMNI ") {
        let rest = slice_vec(v.as_slice(), 5, n);
        assert(rest@ == line@.skip(5));
        let r = string_of(rest.as_slice());
        let ws = split_words(r.as_str());
        assert(ws@.len() == views(ws@).len());
        if ws.len() >= 3 {
            return Heard::Progress(r);
        }
    }
    if let Some((i, k)) = parse_item(line) {
        return Heard::Item(i, k);
    }
    if is_processing(line) {
        return Heard::Processing;
    }
    let f = chars_of("does not pass filter");
    if has(v.as_slice(), f.as_slice()) {
        return Heard::Filtered;
    }
    if starts(v.as_slice(), "[download] Destination:") {
        return Heard::Destination;
    }
    Heard::Nothing
}

/// The message of an `ERROR: ` line of yt-dlp's error output, trimmed.
pub open spec fn error_in_line(line: Seq<char>) -> Option<Seq<char>> {
    if starts_with(line, "ERROR: "@) {
        Some(trim_spaces(line.skip(7)))
    } else {
        None
    }
}

/// Reads one line of yt-dlp's error output.
pub fn error_in(line: &str) -> (r: Option<String>)
    ensures
        match r {
            Some(e) => error_in_line(line@) == Some(e@),
            None => error_in_line(line@) is None,
        },
{
    let v = chars_of(line);
    let n: usize = v.len();
    proof {
        reveal_strlit("ERROR: ");
    }
    if starts(v.as_slice(), "ERROR: ") {
        let rest = slice_vec(v.as_slice(), 7, n);
        assert(rest@ == line@.skip(7));
        let t = trim_chars(rest.as_slice());
        Some(string_of(t.as_slice()))
    } else {
        None
    }
}

/// The error of a run that left no file and was not filtered: the last
/// `ERROR: ` message, else one by the exit status.
pub open spec fn failure(ok: bool, last_error: Option<String>) -> Seq<char> {
    match last_error {
        Some(e) => e@,
        None => if ok {
            "keine Datei erzeugt"@
        } else {
            "yt-dlp ist fehlgeschlagen"@
        },
    }
}

/// Closes the outcome of a finished run: a run that produced no file and was
/// not filtered failed, with `failure(ok, last_error)`; otherwise the outcome
/// stays as it is.
pub fn conclude(out: &mut Outcome, ok: bool, last_error: Option<String>)
    ensures
        final(out).files@ == old(out).files@,
        final(out).filtered == old(out).filtered,
        final(out).cancelled == old(out).cancelled,
        if old(out).files@.len() == 0 && !old(out).filtered {
            final(out).error matches Some(e) && e@ == failure(ok, last_error)
        } else {
            final(out).error == old(out).error
        },
{
    if out.files.len() == 0 && !out.filtered {
        let e = match last_error {
            Some(e) => e,
            None => if ok {
                String::from_str("keine Datei erzeugt")
            } else {
                String::from_str("yt-dlp ist fehlgeschlagen")
            },
        };
        out.error = Some(e);
    }
}

/// The link of an entry of a flat list: its `url`, else the YouTube watch
/// link of its `id`; an entry with neither is dropped.
pub open spec fn entry_link(url: Option<Seq<char>>, id: Option<Seq<char>>) -> Option<Seq<char>> {
    match url {
        Some(u) => Some(u),
        None => match id {
            Some(i) => Some("https://www.youtube.com/watch?v="@ + i),
            None => None,
        },
    }
}

/// The characters of an optional text.
pub open spec fn str_view(o: Option<&str>) -> Option<Seq<char>> {
    match o {
        Some(t) => Some(t@),
        None => None,
    }
}

/// The link of a flat-list entry, from its `url` and `id` fields.
pub fn entry_url(url: Option<&str>, id: Option<&str>) -> (r: Option<String>)
    ensures
        match r {
            Some(s) => entry_link(str_view(url), str_view(id)) == Some(s@),
            None => entry_link(str_view(url), str_view(id)) is None,
        },
{
    match url {
        Some(u) => Some(u.to_string()),
        None => match id {
            Some(i) => {
                let mut s = String::from_str("https://www.youtube.com/watch?v=");
                proof {
                    reveal_strlit("https://www.youtube.com/watch?v=");
                }
                push_str(&mut s, i);
                Some(s)
            },
            None => None,
        },
    }
}

/// The title of a flat-list entry; one without a title is shown as
/// "(ohne Titel)".
pub fn entry_title(title: Option<&str>) -> (r: String)
    ensures
        r@ == match title {
            Some(t) => t@,
            None => "(ohne Titel)"@,
        },
{
    match title {
        Some(t) => t.to_string(),
        None => String::from_str("(ohne Titel)"),
    }
}

/// The arguments that list a playlist, channel or search without
/// downloading it: one JSON document, at most `limit` entries.
pub open spec fn list_args_of(
    js: Option<Seq<char>>,
    cookies: Option<Seq<char>>,
    limit: Option<u32>,
    target: Seq<char>,
) -> Seq<Seq<char>> {
    seq!["--flat-playlist"@, "-J"@, "--no-warnings"@, "--color"@, "never"@] + (match js {
        Some(j) => seq!["--js-runtimes"@, j],
        None => seq![],
    }) + (match cookies {
        Some(b) => seq!["--cookies-from-browser"@, b],
        None => seq![],
    }) + (match limit {
        Some(n) => seq!["--playlist-end"@, decimal(n as nat)],
        None => seq![],
    }) + seq!["--"@, target]
}

/// yt-dlp's arguments for a flat listing of `target`.
pub fn list_args(js: Option<&str>, cookies: Option<&str>, limit: Option<u32>, target: &str) -> (r: Vec<String>)
    ensures
        string_views(r@) == list_args_of(str_view(js), str_view(cookies), limit, target@),
{
    let mut a: Vec<String> = Vec::new();
    push_lit(&mut a, "--flat-playlist");
    push_lit(&mut a, "-J");
    push_lit(&mut a, "--no-warnings");
    push_lit(&mut a, "--color");
    push_lit(&mut a, "never");
    if let Some(j) = js {
        push_lit(&mut a, "--js-runtimes");
        push_lit(&mut a, j);
    }
    if let Some(b) = cookies {
        push_lit(&mut a, "--cookies-from-browser");
        push_lit(&mut a, b);
    }
    if let Some(n) = limit {
        push_lit(&mut a, "--playlist-end");
        let mut v = String::new();
        push_decimal(&mut v, n as u64);
        push_arg(&mut a, v);
    }
    push_lit(&mut a, "--");
    push_lit(&mut a, target);
    assert(string_views(a@) =~= list_args_of(str_view(js), str_view(cookies), limit, target@));
    a
}

} // verus!
