//! What omnidl was started with: links passed on the command line, an
//! `omnidl://` link from the browser, the restart after an update, or the
//! clean-up call from the uninstaller.

use crate::config::Mode;
use crate::text::{
    ascii_lowercase, begins_with, chars_of, control, drop_back_in, drop_front_in, find_in,
    is_control, is_space, lower_all, same_chars, slice_vec, space, split_char, split_on,
    split_once, starts_with, string_of, trim_spaces, trimmed, views, lemma_find_bounds, find,
};
use vstd::prelude::*;
use vstd::utf8::{decode_utf8, encode_utf8, valid_utf8};
use vstd::string::StringSliceAdditionalSpecFns;

verus! {

pub const SCHEME: &'static str = "omnidl";

/// Set by the updater so the new instance waits for the old one to exit.
pub const RESTARTED: &'static str = "--restarted";

/// Run by the uninstaller: remove what the app created, then quit.
pub const UNINSTALL: &'static str = "--uninstall";

#[derive(Clone, Debug, PartialEq)]
pub struct Launch {
    pub urls: Vec<String>,
    pub mode: Option<Mode>,
    pub restarted: bool,
    pub uninstall: bool,
}

pub struct LaunchView {
    pub urls: Seq<Seq<char>>,
    pub mode: Option<Mode>,
    pub restarted: bool,
    pub uninstall: bool,
}

pub open spec fn texts(v: Seq<String>) -> Seq<Seq<char>> {
    v.map_values(|s: String| s@)
}

impl View for Launch {
    type V = LaunchView;

    open spec fn view(&self) -> LaunchView {
        LaunchView {
            urls: texts(self.urls@),
            mode: self.mode,
            restarted: self.restarted,
            uninstall: self.uninstall,
        }
    }
}

impl Default for Launch {
    fn default() -> (r: Launch)
        ensures
            r@ == (LaunchView { urls: seq![], mode: None, restarted: false, uninstall: false }),
    {
        let r = Launch { urls: Vec::new(), mode: None, restarted: false, uninstall: false };
        assert(texts(r.urls@) =~= seq![]);
        r
    }
}

/// Web pages and Spotify URIs only: at most 4096 bytes, no control or white
/// space characters, and an `https://`, `http://` or `spotify:` prefix in
/// any case.
pub open spec fn web_link(s: Seq<char>) -> bool {
    &&& encode_utf8(s).len() <= 4096
    &&& forall|i: int| 0 <= i < s.len() ==> !is_control(#[trigger] s[i]) && !is_space(s[i])
    &&& (starts_with(lower_all(s), "https://"@) || starts_with(lower_all(s), "http://"@)
        || starts_with(lower_all(s), "spotify:"@))
}

pub open spec fn mode_of(s: Seq<char>) -> Option<Mode> {
    if lower_all(s) == "audio"@ {
        Some(Mode::Audio)
    } else if lower_all(s) == "video"@ {
        Some(Mode::Video)
    } else {
        None
    }
}

/// `audio` or `video`, in any case.
pub fn mode_from(s: &str) -> (r: Option<Mode>)
    ensures
        r == mode_of(s@),
{
    let l = ascii_lowercase(s);
    if same_chars(l.as_slice(), "audio") {
        Some(Mode::Audio)
    } else if same_chars(l.as_slice(), "video") {
        Some(Mode::Video)
    } else {
        None
    }
}

/// A character takes one to four bytes in UTF-8.
pub proof fn lemma_utf8_len(s: Seq<char>)
    ensures
        s.len() <= encode_utf8(s).len() <= 4 * s.len(),
    decreases s.len(),
{
    if s.len() > 0 {
        lemma_utf8_len(s.drop_first());
    }
}

/// Only web pages and Spotify URIs; nothing that could point at local files.
pub fn is_web_link(s: &str) -> (r: bool)
    ensures
        r == web_link(s@),
{
    let v = chars_of(s);
    proof {
        lemma_utf8_len(s@);
    }
    if v.len() > 4096 {
        return false;
    }
    if s.len() > 4096 {
        return false;
    }
    let mut i: usize = 0;
    while i < v.len()
        invariant
            i <= v@.len(),
            v@ == s@,
            forall|k: int| 0 <= k < i ==> !is_control(#[trigger] v@[k]) && !is_space(v@[k]),
        decreases v@.len() - i,
    {
        if control(v[i]) || space(v[i]) {
            assert(is_control(s@[i as int]) || is_space(s@[i as int]));
            return false;
        }
        i += 1;
    }
    let l = ascii_lowercase(s);
    let https = chars_of("https://");
    let http = chars_of("http://");
    let spotify = chars_of("spotify:");
    begins_with(l.as_slice(), https.as_slice()) || begins_with(l.as_slice(), http.as_slice())
        || begins_with(l.as_slice(), spotify.as_slice())
}

/// A hex digit's value, as `urlencoding` reads `0-9`, `A-F` and `a-f`.
pub open spec fn hex_value(b: u8) -> Option<u8> {
    if 48 <= b <= 57 {
        Some((b - 48) as u8)
    } else if 65 <= b <= 70 {
        Some((b - 55) as u8)
    } else if 97 <= b <= 102 {
        Some((b - 87) as u8)
    } else {
        None
    }
}

/// `urlencoding::decode_binary`: `%` and two hex digits become that byte;
/// every other byte, a `%` without two hex digits after it included, stays
/// as it is.
pub open spec fn decoded_bytes(b: Seq<u8>) -> Seq<u8>
    decreases b.len(),
{
    if b.len() == 0 {
        seq![]
    } else if b[0] == 37 && b.len() >= 3 && hex_value(b[1]) is Some && hex_value(b[2]) is Some {
        seq![(hex_value(b[1]).unwrap() * 16 + hex_value(b[2]).unwrap()) as u8] + decoded_bytes(b.skip(3))
    } else {
        seq![b[0]] + decoded_bytes(b.skip(1))
    }
}

/// What `urlencoding::decode` gives for a percent-encoded string: the
/// decoded bytes as text, `None` when they are no UTF-8.
pub open spec fn percent_decoded(s: Seq<char>) -> Option<Seq<char>> {
    let b = decoded_bytes(encode_utf8(s));
    if valid_utf8(b) {
        Some(decode_utf8(b))
    } else {
        None
    }
}

pub open spec fn has_percent(s: Seq<char>) -> bool {
    s.contains('%')
}

/// `urlencoding::decode`: percent escapes become bytes, `+` stays as it is.
/// Stated: the result is `percent_decoded` (the crate's lenient decoding
/// followed by its UTF-8 check), and a string without `%` comes back
/// unchanged (the crate returns such input as it is).
#[verifier::external_body]
fn url_decode(s: &str) -> (r: Option<String>)
    ensures
        r matches Some(v) ==> percent_decoded(s@) == Some(v@),
        r is None <==> percent_decoded(s@) is None,
        r is Some || has_percent(s@),
        r matches Some(v) ==> v@ == s@ || has_percent(s@),
{
    urlencoding::decode(s).ok().map(|v| v.into_owned())
}

pub open spec fn pair_key(p: Seq<char>) -> Seq<char> {
    match split_once(p, seq!['=']) {
        Some((k, _)) => k,
        None => p,
    }
}

pub open spec fn pair_value(p: Seq<char>) -> Seq<char> {
    match split_once(p, seq!['=']) {
        Some((_, v)) => v,
        None => seq![],
    }
}

/// A decoded value; one that does not decode counts as empty.
pub open spec fn decoded(v: Seq<char>) -> Seq<char> {
    match percent_decoded(v) {
        Some(d) => d,
        None => seq![],
    }
}

/// The web links among the `url=` pairs of a query, in order.
pub open spec fn query_urls(ps: Seq<Seq<char>>) -> Seq<Seq<char>>
    decreases ps.len(),
{
    if ps.len() == 0 {
        seq![]
    } else {
        let prev = query_urls(ps.drop_last());
        let d = decoded(pair_value(ps.last()));
        if pair_key(ps.last()) == "url"@ && web_link(d) {
            prev.push(d)
        } else {
            prev
        }
    }
}

/// The mode named by the last `mode=` pair of a query.
pub open spec fn query_mode(ps: Seq<Seq<char>>) -> Option<Mode>
    decreases ps.len(),
{
    if ps.len() == 0 {
        None
    } else if pair_key(ps.last()) == "mode"@ {
        mode_of(decoded(pair_value(ps.last())))
    } else {
        query_mode(ps.drop_last())
    }
}

/// After `omnidl:` and the slashes, split at the first `?`.
pub open spec fn link_parts(s: Seq<char>) -> Option<(Seq<char>, Seq<char>)> {
    let t = trim_spaces(s);
    if starts_with(t, "omnidl:"@) {
        let rest = drop_front_in(t.skip(7), seq!['/']);
        match split_once(rest, seq!['?']) {
            Some((a, q)) => Some((a, q)),
            None => Some((rest, seq![])),
        }
    } else {
        None
    }
}

/// `omnidl://add?url=<encoded>&url=…&mode=audio`: the web links and the
/// mode it carries; `None` for anything that is not such a link.
pub open spec fn link_of(s: Seq<char>) -> Option<(Seq<Seq<char>>, Option<Mode>)> {
    match link_parts(s) {
        Some((action, query)) => if lower_all(drop_back_in(action, seq!['/'])) == "add"@ {
            let ps = split_on(query, '&');
            Some((query_urls(ps), query_mode(ps)))
        } else {
            None
        },
        None => None,
    }
}

/// One `key=value` pair of a link, `value` already decoded (`None` when it
/// did not decode): a web link under `url` is added, `mode` sets the mode.
pub fn link_pair(key: &[char], value: Option<String>, urls: &mut Vec<String>, mode: &mut Option<Mode>)
    ensures
        ({
            let d = match value {
                Some(v) => v@,
                None => seq![],
            };
            &&& texts(final(urls)@) == (if key@ == "url"@ && web_link(d) {
                texts(old(urls)@).push(d)
            } else {
                texts(old(urls)@)
            })
            &&& *final(mode) == (if key@ == "mode"@ {
                mode_of(d)
            } else {
                *old(mode)
            })
        }),
{
    let v = match value {
        Some(v) => v,
        None => String::new(),
    };
    proof {
        reveal_strlit("url");
        reveal_strlit("mode");
        assert("url"@ != "mode"@) by {
            assert("url"@.len() != "mode"@.len());
        }
    }
    if same_chars(key, "url") {
        if is_web_link(v.as_str()) {
            let ghost before = texts(urls@);
            urls.push(v);
            assert(texts(urls@) =~= before.push(v@));
        }
    } else if same_chars(key, "mode") {
        *mode = mode_from(v.as_str());
    }
}

/// `s` split at the first `c`, as `split_once` gives it.
fn split_at_char(s: &[char], c: char) -> (r: Option<(Vec<char>, Vec<char>)>)
    ensures
        match split_once(s@, seq![c]) {
            Some((a, b)) => r matches Some((x, y)) && x@ == a && y@ == b,
            None => r is None,
        },
{
    let p: [char; 1] = [c];
    assert(p@ == seq![c]);
    proof {
        lemma_find_bounds(s@, seq![c]);
    }
    match find_in(s, p.as_slice()) {
        Some(i) => {
            let n = s.len();
            Some((slice_vec(s, 0, i), slice_vec(s, i + 1, n)))
        },
        None => None,
    }
}

/// `omnidl://add?url=<encoded>&url=…&mode=audio`
pub fn parse_link(s: &str) -> (r: Option<(Vec<String>, Option<Mode>)>)
    ensures
        match link_of(s@) {
            Some((us, m)) => r matches Some((v, x)) && texts(v@) == us && x == m,
            None => r is None,
        },
{
    let t = trimmed(s);
    let scheme = chars_of("omnidl:");
    proof {
        reveal_strlit("omnidl:");
    }
    if !begins_with(t.as_slice(), scheme.as_slice()) {
        return None;
    }
    let after = slice_vec(t.as_slice(), 7, t.len());
    let slash: [char; 1] = ['/'];
    assert(slash@ == seq!['/']);
    let rest = crate::text::drop_front_set(after.as_slice(), slash.as_slice());
    let (action, query) = match split_at_char(rest.as_slice(), '?') {
        Some((a, q)) => (a, q),
        None => (rest, Vec::new()),
    };
    let action = crate::text::drop_back_set(action.as_slice(), slash.as_slice());
    let action_str = string_of(action.as_slice());
    let lowered = ascii_lowercase(action_str.as_str());
    if !same_chars(lowered.as_slice(), "add") {
        return None;
    }
    let ps = split_char(query.as_slice(), '&');
    let mut urls: Vec<String> = Vec::new();
    let mut mode: Option<Mode> = None;
    let mut i: usize = 0;
    assert(texts(urls@) =~= seq![]);
    while i < ps.len()
        invariant
            i <= ps@.len(),
            texts(urls@) == query_urls(views(ps@).take(i as int)),
            mode == query_mode(views(ps@).take(i as int)),
        decreases ps@.len() - i,
    {
        let pair = &ps[i];
        let (key, value) = match split_at_char(pair.as_slice(), '=') {
            Some((k, v)) => (k, v),
            None => (slice_vec(pair.as_slice(), 0, pair.len()), Vec::new()),
        };
        let vs = string_of(value.as_slice());
        let d = url_decode(vs.as_str());
        proof {
            let p = ps@[i as int]@;
            assert(views(ps@)[i as int] == p);
            assert(key@ == pair_key(p));
            assert(vs@ == pair_value(p));
            assert(match d { Some(x) => x@, None => seq![] } == decoded(pair_value(p)));
        }
        link_pair(key.as_slice(), d, &mut urls, &mut mode);
        proof {
            let w = views(ps@).take(i + 1);
            assert(w.drop_last() =~= views(ps@).take(i as int));
            assert(w.last() == ps@[i as int]@);
        }
        i += 1;
    }
    assert(views(ps@).take(ps@.len() as int) == views(ps@));
    Some((urls, mode))
}

/// What the arguments ask for, read from the first to the last.
pub open spec fn launch_of(args: Seq<Seq<char>>) -> LaunchView
    decreases args.len(),
{
    if args.len() == 0 {
        LaunchView { urls: seq![], mode: None, restarted: false, uninstall: false }
    } else {
        let l = launch_of(args.drop_last());
        let a = args.last();
        if a == "--restarted"@ {
            LaunchView { restarted: true, ..l }
        } else if a == "--uninstall"@ {
            LaunchView { uninstall: true, ..l }
        } else if link_of(a) is Some {
            let (us, m) = link_of(a).unwrap();
            LaunchView {
                urls: l.urls + us,
                mode: if m is Some {
                    m
                } else {
                    l.mode
                },
                ..l
            }
        } else if web_link(a) {
            LaunchView { urls: l.urls.push(a), ..l }
        } else {
            l
        }
    }
}

/// Reads the command line: the flags, `omnidl://` links and plain web links;
/// everything else is ignored.
pub fn parse(args: Vec<String>) -> (r: Launch)
    ensures
        r@ == launch_of(texts(args@)),
{
    let mut l = Launch::default();
    let mut i: usize = 0;
    while i < args.len()
        invariant
            i <= args@.len(),
            l@ == launch_of(texts(args@).take(i as int)),
        decreases args@.len() - i,
    {
        let arg = &args[i];
        proof {
            let w = texts(args@).take(i + 1);
            assert(w.drop_last() =~= texts(args@).take(i as int));
            assert(w.last() == args@[i as int]@);
        }
        let ghost t = texts(args@).take(i + 1);
        let ghost a = arg@;
        if crate::text::same_str(arg.as_str(), "--restarted") {
            l.restarted = true;
            assert(l@ == launch_of(t));
        } else if crate::text::same_str(arg.as_str(), "--uninstall") {
            l.uninstall = true;
            assert(l@ == launch_of(t));
        } else if let Some((urls, mode)) = parse_link(arg.as_str()) {
            let ghost before = texts(l.urls@);
            let ghost l0 = l@;
            let mut k: usize = 0;
            while k < urls.len()
                invariant
                    k <= urls@.len(),
                    texts(l.urls@) == before + texts(urls@).take(k as int),
                    l.mode == l0.mode,
                    l.restarted == l0.restarted,
                    l.uninstall == l0.uninstall,
                decreases urls@.len() - k,
            {
                let ghost prev = texts(l.urls@);
                let u = urls[k].clone();
                l.urls.push(u);
                assert(texts(l.urls@) =~= prev.push(urls@[k as int]@));
                assert(texts(urls@).take(k + 1) =~= texts(urls@).take(k as int).push(urls@[k as int]@));
                k += 1;
            }
            assert(texts(urls@).take(urls@.len() as int) == texts(urls@));
            if mode.is_some() {
                l.mode = mode;
            }
            assert(l@ == launch_of(t));
        } else if is_web_link(arg.as_str()) {
            let ghost before = texts(l.urls@);
            l.urls.push(arg.clone());
            assert(texts(l.urls@) =~= before.push(arg@));
            assert(l@ == launch_of(t));
        } else {
            assert(l@ == launch_of(t));
        }
        i += 1;
    }
    assert(texts(args@).take(args@.len() as int) == texts(args@));
    l
}

/// The flags are recognised wherever they stand, and a plain argument that
/// is a web link is kept as it is.
pub proof fn lemma_flags_and_links(args: Seq<Seq<char>>, a: Seq<char>)
    ensures
        launch_of(args.push("--restarted"@)).restarted,
        launch_of(args.push("--uninstall"@)).uninstall,
        web_link(a) && link_of(a) is None && a != "--restarted"@ && a != "--uninstall"@
            ==> launch_of(args.push(a)).urls == launch_of(args).urls.push(a),
{
    reveal_strlit("--restarted");
    reveal_strlit("--uninstall");
    assert("--restarted"@[2] != "--uninstall"@[2]);
    assert(args.push("--restarted"@).drop_last() == args);
    assert(args.push("--uninstall"@).drop_last() == args);
    assert(args.push(a).drop_last() == args);
}

/// A link's decoded web links all pass the web-link test.
pub proof fn lemma_link_urls_are_web_links(ps: Seq<Seq<char>>)
    ensures
        forall|i: int| 0 <= i < query_urls(ps).len() ==> web_link(#[trigger] query_urls(ps)[i]),
    decreases ps.len(),
{
    if ps.len() > 0 {
        lemma_link_urls_are_web_links(ps.drop_last());
        let prev = query_urls(ps.drop_last());
        assert forall|i: int| 0 <= i < query_urls(ps).len() implies web_link(
            #[trigger] query_urls(ps)[i],
        ) by {
            if i < prev.len() {
                assert(query_urls(ps)[i] == prev[i]);
            }
        }
    }
}

} // verus!
