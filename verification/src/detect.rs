//! What kind of link a URL is: the site, and whether it names a list.

use vstd::string::StringExecFns;
use crate::text::{
    after, after_first, after_last, after_last_index, begins_with, chars_of, contains, ends_with,
    finishes_with, has, lower_all, slice_vec, split_once, split_words, starts_with, string_of,
    trim_in, trim_set, trim_spaces, trimmed, until, until_index, views, words, same_chars, string_views,
};
use vstd::prelude::*;

verus! {

#[derive(Clone, Copy, Debug, PartialEq, Eq, Structural)]
pub enum SpotifyKind {
    Track,
    Album,
    Playlist,
    Artist,
}

impl SpotifyKind {
    pub open spec fn path_text(self) -> Seq<char> {
        match self {
            SpotifyKind::Track => "track"@,
            SpotifyKind::Album => "album"@,
            SpotifyKind::Playlist => "playlist"@,
            SpotifyKind::Artist => "artist"@,
        }
    }

    /// The kind as Spotify writes it in URLs.
    pub fn path(self) -> (r: &'static str)
        ensures
            r@ == self.path_text(),
    {
        match self {
            SpotifyKind::Track => "track",
            SpotifyKind::Album => "album",
            SpotifyKind::Playlist => "playlist",
            SpotifyKind::Artist => "artist",
        }
    }
}

#[derive(Clone, Debug, PartialEq, Eq)]
pub enum Source {
    YouTube { playlist: bool },
    TikTok,
    TikTokPhoto,
    Spotify(SpotifyKind, String),
    SpotifyShort,
    Instagram,
    Twitter,
    SoundCloud { set: bool },
    Generic,
}

/// A [`Source`] with the Spotify id as characters.
pub enum SourceView {
    YouTube { playlist: bool },
    TikTok,
    TikTokPhoto,
    Spotify(SpotifyKind, Seq<char>),
    SpotifyShort,
    Instagram,
    Twitter,
    SoundCloud { set: bool },
    Generic,
}

impl View for Source {
    type V = SourceView;

    open spec fn view(&self) -> SourceView {
        match self {
            Source::YouTube { playlist } => SourceView::YouTube { playlist: *playlist },
            Source::TikTok => SourceView::TikTok,
            Source::TikTokPhoto => SourceView::TikTokPhoto,
            Source::Spotify(k, id) => SourceView::Spotify(*k, id@),
            Source::SpotifyShort => SourceView::SpotifyShort,
            Source::Instagram => SourceView::Instagram,
            Source::Twitter => SourceView::Twitter,
            Source::SoundCloud { set } => SourceView::SoundCloud { set: *set },
            Source::Generic => SourceView::Generic,
        }
    }
}

impl SourceView {
    pub open spec fn label(self) -> Seq<char> {
        match self {
            SourceView::YouTube { playlist } => if playlist {
                "YouTube-Playlist"@
            } else {
                "YouTube"@
            },
            SourceView::TikTok => "TikTok"@,
            SourceView::TikTokPhoto => "TikTok-Fotos"@,
            SourceView::Spotify(k, _) => match k {
                SpotifyKind::Track => "Spotify-Track"@,
                SpotifyKind::Album => "Spotify-Album"@,
                SpotifyKind::Playlist => "Spotify-Playlist"@,
                SpotifyKind::Artist => "Spotify-Künstler"@,
            },
            SourceView::SpotifyShort => "Spotify"@,
            SourceView::Instagram => "Instagram"@,
            SourceView::Twitter => "X / Twitter"@,
            SourceView::SoundCloud { set } => if set {
                "SoundCloud-Set"@
            } else {
                "SoundCloud"@
            },
            SourceView::Generic => "Web"@,
        }
    }

    pub open spec fn is_list(self) -> bool {
        match self {
            SourceView::YouTube { playlist } => playlist,
            SourceView::SoundCloud { set } => set,
            _ => false,
        }
    }
}

impl Source {
    /// The name shown next to a job.
    pub fn label(&self) -> (r: &'static str)
        ensures
            r@ == self@.label(),
    {
        match self {
            Source::YouTube { playlist: false } => "YouTube",
            Source::YouTube { playlist: true } => "YouTube-Playlist",
            Source::TikTok => "TikTok",
            Source::TikTokPhoto => "TikTok-Fotos",
            Source::Spotify(SpotifyKind::Track, _) => "Spotify-Track",
            Source::Spotify(SpotifyKind::Album, _) => "Spotify-Album",
            Source::Spotify(SpotifyKind::Playlist, _) => "Spotify-Playlist",
            Source::Spotify(SpotifyKind::Artist, _) => "Spotify-Künstler",
            Source::SpotifyShort => "Spotify",
            Source::Instagram => "Instagram",
            Source::Twitter => "X / Twitter",
            Source::SoundCloud { set: false } => "SoundCloud",
            Source::SoundCloud { set: true } => "SoundCloud-Set",
            Source::Generic => "Web",
        }
    }

    /// Whether this URL most likely points to a list that should be expanded into
    /// one job per entry (parallel downloads).
    pub fn is_list(&self) -> (b: bool)
        ensures
            b == self@.is_list(),
    {
        match self {
            Source::YouTube { playlist } => *playlist,
            Source::SoundCloud { set } => *set,
            _ => false,
        }
    }
}

/// Spotify links: `open.spotify.com/[intl-xx/][embed/]<kind>/<id>` or
/// `spotify:<kind>:<id>`, with the kind and the 22-character id captured.
pub const SPOTIFY_PATTERN: &'static str = "(?i)(?:open\\.spotify\\.com/(?:intl-[a-z-]+/)?(?:embed/)?|spotify:)(track|album|playlist|artist)[/:]([A-Za-z0-9]{22})";

/// The first two capture groups of the first match of the regular expression
/// `pattern` in `text`; `None` if the pattern is invalid, nothing matches, or
/// a group took no part in the match.
pub uninterp spec fn regex_captures(pattern: Seq<char>, text: Seq<char>) -> Option<
    (Seq<char>, Seq<char>),
>;

/// Compiles `pattern` with `regex::Regex::new` and reads the first two groups
/// of `Regex::captures` on `text`. The contract only names the result:
/// regular expression matching is not restated here.
#[verifier::external_body]
fn captures(pattern: &str, text: &str) -> (r: Option<(String, String)>)
    ensures
        match r {
            Some((a, b)) => regex_captures(pattern@, text@) == Some((a@, b@)),
            None => regex_captures(pattern@, text@) is None,
        },
{
    let re = regex::Regex::new(pattern).ok()?;
    let c = re.captures(text)?;
    Some((c.get(1)?.as_str().to_string(), c.get(2)?.as_str().to_string()))
}

/// Host of a URL in lower case, without user, port and a leading `www.` or `m.`.
pub open spec fn host(url: Seq<char>) -> Seq<char> {
    let rest = after_first(url, "://"@);
    let h = lower_all(until(after_last(until(rest, "/?#"@), '@'), ":"@));
    if starts_with(h, "www."@) {
        h.skip("www."@.len() as int)
    } else if starts_with(h, "m."@) {
        h.skip("m."@.len() as int)
    } else {
        h
    }
}

/// Everything after the host: the path with query, without its leading `/`.
pub open spec fn path_of(url: Seq<char>) -> Seq<char> {
    match split_once(after_first(url, "://"@), "/"@) {
        Some((_, p)) => p,
        None => seq![],
    }
}

pub open spec fn spotify_kind(k: Seq<char>) -> SpotifyKind {
    let k = lower_all(k);
    if k == "track"@ {
        SpotifyKind::Track
    } else if k == "album"@ {
        SpotifyKind::Album
    } else if k == "playlist"@ {
        SpotifyKind::Playlist
    } else {
        SpotifyKind::Artist
    }
}

/// A YouTube path that names a playlist or a whole channel.
pub open spec fn youtube_list(path: Seq<char>) -> bool {
    starts_with(path, "playlist"@) || contains(path, "list="@) || starts_with(path, "@"@)
        || starts_with(path, "channel/"@) || starts_with(path, "c/"@) || starts_with(
        path,
        "user/"@,
    )
}

/// The source of a trimmed URL that is no Spotify link, by its host.
pub open spec fn source_by_host(url: Seq<char>) -> SourceView {
    let h = host(url);
    let path = path_of(url);
    if h == "spotify.link"@ {
        SourceView::SpotifyShort
    } else if h == "youtu.be"@ || ends_with(h, "youtube.com"@) {
        SourceView::YouTube { playlist: youtube_list(path) }
    } else if ends_with(h, "tiktok.com"@) {
        if contains(path, "/photo/"@) {
            SourceView::TikTokPhoto
        } else {
            SourceView::TikTok
        }
    } else if ends_with(h, "instagram.com"@) {
        SourceView::Instagram
    } else if h == "x.com"@ || h == "twitter.com"@ || h == "mobile.twitter.com"@ {
        SourceView::Twitter
    } else if ends_with(h, "soundcloud.com"@) {
        SourceView::SoundCloud { set: contains(path, "/sets/"@) }
    } else {
        SourceView::Generic
    }
}

/// What `detect` makes of a URL.
pub open spec fn detected(url: Seq<char>) -> SourceView {
    let u = trim_spaces(url);
    match regex_captures(SPOTIFY_PATTERN@, u) {
        Some((k, id)) => SourceView::Spotify(spotify_kind(k), id),
        None => source_by_host(u),
    }
}

fn host_chars(url: &[char]) -> (r: Vec<char>)
    ensures
        r@ == host(url@),
{
    let sep = chars_of("://");
    let rest = after(url, sep.as_slice());
    let stop = chars_of("/?#");
    let n = until_index(rest.as_slice(), stop.as_slice());
    let h1 = slice_vec(rest.as_slice(), 0, n);
    let at = after_last_index(h1.as_slice(), '@');
    let h2 = slice_vec(h1.as_slice(), at, h1.len());
    assert(h2@ == h1@.skip(at as int));
    let colon = chars_of(":");
    let m = until_index(h2.as_slice(), colon.as_slice());
    let mut h: Vec<char> = Vec::new();
    let mut i: usize = 0;
    while i < m
        invariant
            i <= m <= h2@.len(),
            h@ == lower_all(h2@.take(i as int)),
        decreases m - i,
    {
        h.push(crate::text::ascii_lower(h2[i]));
        i += 1;
        assert(lower_all(h2@.take(i as int)) =~= lower_all(h2@.take(i - 1)).push(
            crate::text::lower(h2@[i - 1]),
        ));
    }
    let www = chars_of("www.");
    let m_ = chars_of("m.");
    if begins_with(h.as_slice(), www.as_slice()) {
        slice_vec(h.as_slice(), www.len(), h.len())
    } else if begins_with(h.as_slice(), m_.as_slice()) {
        slice_vec(h.as_slice(), m_.len(), h.len())
    } else {
        h
    }
}

/// Host of a URL in lower case, without user, port and a leading `www.` or `m.`.
pub fn host_of(url: &str) -> (r: String)
    ensures
        r@ == host(url@),
{
    let v = chars_of(url);
    let h = host_chars(v.as_slice());
    string_of(h.as_slice())
}

fn path_chars(url: &[char]) -> (r: Vec<char>)
    ensures
        r@ == path_of(url@),
{
    let sep = chars_of("://");
    let rest = after(url, sep.as_slice());
    let slash = chars_of("/");
    proof {
        crate::text::lemma_find_bounds(rest@, slash@);
    }
    match crate::text::find_in(rest.as_slice(), slash.as_slice()) {
        Some(i) => {
            let n = rest.len();
            assert(i + slash@.len() <= n);
            slice_vec(rest.as_slice(), i + slash.len(), n)
        },
        None => Vec::new(),
    }
}

fn ends_with_str(a: &[char], b: &str) -> (r: bool)
    ensures
        r == ends_with(a@, b@),
{
    let bv = chars_of(b);
    finishes_with(a, bv.as_slice())
}

fn starts_with_str(a: &[char], b: &str) -> (r: bool)
    ensures
        r == starts_with(a@, b@),
{
    let bv = chars_of(b);
    begins_with(a, bv.as_slice())
}

fn contains_str(a: &[char], b: &str) -> (r: bool)
    ensures
        r == contains(a@, b@),
{
    let bv = chars_of(b);
    has(a, bv.as_slice())
}

/// A Spotify link's kind is the kind word it carries: for `track`,
/// `album`, `playlist` or `artist` (in any case) the detected kind is
/// written the same way in Spotify's paths, and the id is the captured one.
pub proof fn lemma_spotify_kind_is_the_word(url: Seq<char>, k: Seq<char>, id: Seq<char>)
    requires
        regex_captures(SPOTIFY_PATTERN@, trim_spaces(url)) == Some((k, id)),
        lower_all(k) == "track"@ || lower_all(k) == "album"@ || lower_all(k) == "playlist"@
            || lower_all(k) == "artist"@,
    ensures
        detected(url) matches SourceView::Spotify(kind, i) && kind.path_text() == lower_all(k) && i == id,
{
    reveal_strlit("track");
    reveal_strlit("album");
    reveal_strlit("playlist");
    reveal_strlit("artist");
}

/// The site a link belongs to and whether it names a list.
pub fn detect(url: &str) -> (r: Source)
    ensures
        r@ == detected(url@),
{
    let v = trimmed(url);
    let u = string_of(v.as_slice());
    let caps = captures(SPOTIFY_PATTERN, u.as_str());
    source_of(url, caps)
}

/// What `detect` makes of `url` once the Spotify pattern was tried on it
/// (trimmed): `caps` are the kind and id it captured, if it matched; without
/// a match the host and path decide.
pub fn source_of(url: &str, caps: Option<(String, String)>) -> (r: Source)
    ensures
        r@ == match caps {
            Some((k, id)) => SourceView::Spotify(spotify_kind(k@), id@),
            None => source_by_host(trim_spaces(url@)),
        },
{
    let v = trimmed(url);
    if let Some((k, id)) = caps {
        let kl = crate::text::ascii_lowercase(k.as_str());
        let kind = if same_chars(kl.as_slice(), "track") {
            SpotifyKind::Track
        } else if same_chars(kl.as_slice(), "album") {
            SpotifyKind::Album
        } else if same_chars(kl.as_slice(), "playlist") {
            SpotifyKind::Playlist
        } else {
            SpotifyKind::Artist
        };
        return Source::Spotify(kind, id);
    }
    let h = host_chars(v.as_slice());
    let path = path_chars(v.as_slice());
    let h = h.as_slice();
    let path = path.as_slice();
    if same_chars(h, "spotify.link") {
        Source::SpotifyShort
    } else if same_chars(h, "youtu.be") || ends_with_str(h, "youtube.com") {
        let is_list = starts_with_str(path, "playlist") || contains_str(path, "list=")
            || starts_with_str(path, "@") || starts_with_str(path, "channel/") || starts_with_str(
            path,
            "c/",
        ) || starts_with_str(path, "user/");
        Source::YouTube { playlist: is_list }
    } else if ends_with_str(h, "tiktok.com") {
        if contains_str(path, "/photo/") {
            Source::TikTokPhoto
        } else {
            Source::TikTok
        }
    } else if ends_with_str(h, "instagram.com") {
        Source::Instagram
    } else if same_chars(h, "x.com") || same_chars(h, "twitter.com") || same_chars(
        h,
        "mobile.twitter.com",
    ) {
        Source::Twitter
    } else if ends_with_str(h, "soundcloud.com") {
        Source::SoundCloud { set: contains_str(path, "/sets/") }
    } else {
        Source::Generic
    }
}

/// Marks that surround pasted links: angle brackets and quotes.
pub open spec fn quote_marks() -> Seq<char> {
    seq!['<', '>', '"', '\'']
}

fn quote_chars() -> (r: Vec<char>)
    ensures
        r@ == quote_marks(),
{
    let mut r: Vec<char> = Vec::new();
    r.push('<');
    r.push('>');
    r.push('"');
    r.push('\'');
    assert(r@ =~= quote_marks());
    r
}

/// A pasted word as a link: quotes and angle brackets removed, and
/// `https://` put in front of a bare host; `None` for a word that is no link.
pub open spec fn url_of_word(w: Seq<char>) -> Option<Seq<char>> {
    let t = trim_in(w, quote_marks());
    if contains(t, "://"@) || starts_with(t, "spotify:"@) {
        Some(t)
    } else if contains(t, "."@) {
        Some("https://"@ + t)
    } else {
        None
    }
}

pub open spec fn urls_of(ws: Seq<Seq<char>>) -> Seq<Seq<char>>
    decreases ws.len(),
{
    if ws.len() == 0 {
        seq![]
    } else {
        urls_of(ws.drop_last()) + match url_of_word(ws.last()) {
            Some(u) => seq![u],
            None => seq![],
        }
    }
}

/// The links in pasted text, as `split_urls` finds them.
pub open spec fn split_text(text: Seq<char>) -> Seq<Seq<char>> {
    urls_of(words(text))
}


/// Splits pasted text into URLs (one per line or whitespace separated).
pub fn split_urls(text: &str) -> (r: Vec<String>)
    ensures
        string_views(r@) == split_text(text@),
{
    let ws = split_words(text);
    let quotes = quote_chars();
    let mut out: Vec<String> = Vec::new();
    let mut i: usize = 0;
    while i < ws.len()
        invariant
            i <= ws@.len(),
            views(ws@) == words(text@),
            quotes@ == quote_marks(),
            string_views(out@) == urls_of(views(ws@).take(i as int)),
        decreases ws@.len() - i,
    {
        let ghost before = string_views(out@);
        assert(views(ws@).take(i + 1).drop_last() == views(ws@).take(i as int));
        assert(views(ws@).take(i + 1).last() == ws@[i as int]@);
        let t = trim_set(ws[i].as_slice(), quotes.as_slice());
        let t = t.as_slice();
        if contains_str(t, "://") || starts_with_str(t, "spotify:") {
            out.push(string_of(t));
            assert(string_views(out@) =~= before.push(t@));
        } else if contains_str(t, ".") {
            let mut s = String::from_str("https://");
            crate::text::push_str(&mut s, string_of(t).as_str());
            out.push(s);
            assert(string_views(out@) =~= before.push("https://"@ + t@));
        }
        i += 1;
    }
    assert(views(ws@).take(ws@.len() as int) == views(ws@));
    out
}

} // verus!
