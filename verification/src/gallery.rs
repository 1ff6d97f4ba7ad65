//! Photo posts, which yt-dlp cannot fetch, go through gallery-dl: the folder
//! they land in, what its output lines mean and how a run ends.

use crate::text::{
    chars_of, drop_back_in, drop_back_set, drop_front_in, drop_front_set, find, find_in, has,
    contains, begins_with, lemma_find_bounds, push_str, slice_vec, split_char, split_first,
    split_on, split_once, starts_with, string_of, trim_chars, trim_spaces, until, until_index,
    views,
};
use crate::deps::{join_path, path_joined};
use crate::text::string_views;
use crate::util::{sanitize_filename, sanitized};
use crate::ytdlp::{push_lit, str_view};
use vstd::prelude::*;

verus! {

/// `s` without every leading copy of `p`, as `trim_start_matches(p)` leaves it.
pub open spec fn strip_prefixes(s: Seq<char>, p: Seq<char>) -> Seq<char>
    decreases s.len(),
{
    if p.len() > 0 && starts_with(s, p) {
        strip_prefixes(s.skip(p.len() as int), p)
    } else {
        s
    }
}

/// What follows the scheme: the piece after the first `://`, up to a second
/// one; the whole path without a scheme.
pub open spec fn after_scheme(path: Seq<char>) -> Seq<char> {
    match split_once(path, "://"@) {
        Some((_, rest)) => match find(rest, "://"@) {
            Some(i) => rest.take(i),
            None => rest,
        },
        None => path,
    }
}

/// The first path segment that starts with `@`.
pub open spec fn first_at(segs: Seq<Seq<char>>) -> Option<Seq<char>>
    decreases segs.len(),
{
    if segs.len() == 0 {
        None
    } else {
        match first_at(segs.drop_last()) {
            Some(u) => Some(u),
            None => if segs.last().len() > 0 && segs.last()[0] == '@' {
                Some(segs.last())
            } else {
                None
            },
        }
    }
}

pub open spec fn nonempty_parts(s: Seq<Seq<char>>) -> Seq<Seq<char>> {
    s.filter(|p: Seq<char>| p.len() > 0)
}

/// A readable folder name derived from a link: `<site>_<user>_<id>`, or
/// `<site>_<id>` without a user.
pub open spec fn folder_of(url: Seq<char>) -> Seq<char> {
    let path = drop_back_in(until(url, seq!['?', '#']), seq!['/']);
    let a = after_scheme(path);
    let host = until(strip_prefixes(until(a, seq!['/']), "www."@), seq!['.']);
    let segs = nonempty_parts(split_on(a, '/').drop_first());
    let id = if segs.len() > 0 {
        segs.last()
    } else {
        "post"@
    };
    sanitized(
        match first_at(segs) {
            Some(u) => host + "_"@ + drop_front_in(u, seq!['@']) + "_"@ + id,
            None => host + "_"@ + id,
        },
    )
}

fn strip_www(s: Vec<char>) -> (r: Vec<char>)
    ensures
        r@ == strip_prefixes(s@, "www."@),
{
    let p = chars_of("www.");
    proof {
        reveal_strlit("www.");
    }
    let mut cur = s;
    while begins_with(cur.as_slice(), p.as_slice())
        invariant
            p@ == "www."@,
            strip_prefixes(s@, "www."@) == strip_prefixes(cur@, "www."@),
        decreases cur@.len(),
    {
        proof {
            reveal_strlit("www.");
        }
        assert(p@.len() == 4);
        let n = cur.len();
        let next = slice_vec(cur.as_slice(), 4, n);
        assert(next@ =~= cur@.skip(4));
        cur = next;
    }
    cur
}

proof fn lemma_parts_push(s: Seq<Seq<char>>, x: Seq<char>)
    ensures
        nonempty_parts(s.push(x)) == if x.len() > 0 {
            nonempty_parts(s).push(x)
        } else {
            nonempty_parts(s)
        },
{
    reveal(Seq::filter);
    assert(s.push(x).drop_last() =~= s);
}

proof fn lemma_first_at_push(s: Seq<Seq<char>>, x: Seq<char>)
    ensures
        first_at(s.push(x)) == match first_at(s) {
            Some(u) => Some(u),
            None => if x.len() > 0 && x[0] == '@' {
                Some(x)
            } else {
                None
            },
        },
{
    assert(s.push(x).drop_last() =~= s);
}

proof fn lemma_first_at_filter(s: Seq<Seq<char>>)
    ensures
        first_at(nonempty_parts(s)) == first_at(s),
    decreases s.len(),
{
    if s.len() > 0 {
        lemma_first_at_filter(s.drop_last());
        assert(s =~= s.drop_last().push(s.last()));
        lemma_parts_push(s.drop_last(), s.last());
        lemma_first_at_push(s.drop_last(), s.last());
        if s.last().len() > 0 {
            lemma_first_at_push(nonempty_parts(s.drop_last()), s.last());
        }
    }
}

/// The folder a photo post is saved in.
pub fn folder_name(url: &str) -> (r: String)
    ensures
        r@ == folder_of(url@),
{
    let v = chars_of(url);
    let stops = vec!['?', '#'];
    let k = until_index(v.as_slice(), stops.as_slice());
    let head = slice_vec(v.as_slice(), 0, k);
    assert(head@ =~= until(url@, seq!['?', '#']));
    let slash = vec!['/'];
    let path = drop_back_set(head.as_slice(), slash.as_slice());
    assert(slash@ =~= seq!['/']);
    let sep = chars_of("://");
    let a: Vec<char> = match split_first(path.as_slice(), sep.as_slice()) {
        Some((_, rest)) => {
            proof {
                lemma_find_bounds(rest@, sep@);
            }
            match find_in(rest.as_slice(), sep.as_slice()) {
                Some(i) => slice_vec(rest.as_slice(), 0, i),
                None => rest,
            }
        },
        None => path,
    };
    assert(a@ =~= after_scheme(path@));
    let hk = until_index(a.as_slice(), slash.as_slice());
    let first = slice_vec(a.as_slice(), 0, hk);
    let bare = strip_www(first);
    let dot = vec!['.'];
    let dk = until_index(bare.as_slice(), dot.as_slice());
    assert(dot@ =~= seq!['.']);
    let host = slice_vec(bare.as_slice(), 0, dk);
    assert(host@ =~= until(strip_prefixes(until(a@, seq!['/']), "www."@), seq!['.']));
    let parts = split_char(a.as_slice(), '/');
    let ghost all = views(parts@);
    let mut segs: Vec<Vec<char>> = Vec::new();
    let mut i: usize = 1;
    assert(all.subrange(1, 1) =~= seq![]);
    while i < parts.len()
        invariant
            1 <= i <= parts@.len(),
            all == views(parts@),
            views(segs@) == nonempty_parts(all.subrange(1, i as int)),
        decreases parts@.len() - i,
    {
        proof {
            assert(all.subrange(1, i + 1) =~= all.subrange(1, i as int).push(all[i as int]));
            lemma_parts_push(all.subrange(1, i as int), all[i as int]);
        }
        if parts[i].len() > 0 {
            let ghost before = views(segs@);
            segs.push(parts[i].clone());
            assert(views(segs@) =~= before.push(all[i as int]));
        }
        i += 1;
    }
    assert(all.subrange(1, parts@.len() as int) =~= split_on(a@, '/').drop_first());
    let ghost sv = views(segs@);
    let id: Vec<char> = if segs.len() > 0 {
        segs[segs.len() - 1].clone()
    } else {
        chars_of("post")
    };
    let mut user: Option<usize> = None;
    let mut j: usize = 0;
    while j < segs.len()
        invariant
            j <= segs@.len(),
            sv == views(segs@),
            match user {
                Some(u) => u < j && first_at(sv.take(j as int)) == Some(sv[u as int]),
                None => first_at(sv.take(j as int)) is None,
            },
        decreases segs@.len() - j,
    {
        proof {
            assert(sv.take(j + 1) =~= sv.take(j as int).push(sv[j as int]));
            lemma_first_at_push(sv.take(j as int), sv[j as int]);
        }
        if user.is_none() && segs[j].len() > 0 && segs[j][0] == '@' {
            user = Some(j);
        }
        j += 1;
    }
    assert(sv.take(segs@.len() as int) =~= sv);
    let mut name = string_of(host.as_slice());
    push_str(&mut name, "_");
    match user {
        Some(u) => {
            let at = vec!['@'];
            let who = drop_front_set(segs[u].as_slice(), at.as_slice());
            assert(at@ =~= seq!['@']);
            let w = string_of(who.as_slice());
            push_str(&mut name, w.as_str());
            push_str(&mut name, "_");
        },
        None => {},
    }
    let ids = string_of(id.as_slice());
    push_str(&mut name, ids.as_str());
    sanitize_filename(name.as_str())
}

/// What one of gallery-dl's output lines means.
#[derive(Debug, PartialEq)]
pub enum Line {
    /// An error; the text is the line, trimmed.
    Error(String),
    /// A warning, which mostly carries the actual reason (HTTP 429, 403 …).
    Warning(String),
    /// A saved file.
    File,
    Other,
}

pub open spec fn line_meaning(is_err: bool, l: Seq<char>, r: Line) -> bool {
    if is_err {
        if contains(l, "[error]"@) || contains(l, "Error"@) {
            r matches Line::Error(e) && e@ == trim_spaces(l)
        } else if contains(l, "[warning]"@) {
            r matches Line::Warning(w) && w@ == trim_spaces(l)
        } else {
            r is Other
        }
    } else if trim_spaces(l).len() > 0 && !(l.len() > 0 && l[0] == '#') {
        r is File
    } else {
        r is Other
    }
}

/// Reads one line of gallery-dl's standard output (`is_err` false) or error
/// output: every non-empty line on standard output that is no comment names
/// a saved file.
pub fn read_line(is_err: bool, line: &str) -> (r: Line)
    ensures
        line_meaning(is_err, line@, r),
{
    let v = chars_of(line);
    if is_err {
        let e1 = chars_of("[error]");
        let e2 = chars_of("Error");
        let w = chars_of("[warning]");
        if has(v.as_slice(), e1.as_slice()) || has(v.as_slice(), e2.as_slice()) {
            Line::Error(string_of(trim_chars(v.as_slice()).as_slice()))
        } else if has(v.as_slice(), w.as_slice()) {
            Line::Warning(string_of(trim_chars(v.as_slice()).as_slice()))
        } else {
            Line::Other
        }
    } else {
        let t = trim_chars(v.as_slice());
        if t.len() > 0 && !(v.len() > 0 && v[0] == '#') {
            Line::File
        } else {
            Line::Other
        }
    }
}

/// Why a run that saved nothing failed: the last error, else what the exit
/// status says, with the last warning in brackets.
pub open spec fn failure_of(ok: bool, last_error: Option<String>, last_warning: Option<String>) -> Seq<char> {
    let base = match last_error {
        Some(e) => e@,
        None => if ok {
            "nichts zum Herunterladen gefunden"@
        } else {
            "gallery-dl ist fehlgeschlagen"@
        },
    };
    match last_warning {
        Some(w) => base + " ("@ + w@ + ")"@,
        None => base,
    }
}

/// How a run ends: well once a file was saved, else with the reason.
pub fn run_end(files: u32, ok: bool, last_error: Option<String>, last_warning: Option<String>) -> (r: Result<(), String>)
    ensures
        files > 0 ==> r is Ok,
        files == 0 ==> (r matches Err(e) && e@ == failure_of(ok, last_error, last_warning)),
{
    if files > 0 {
        return Ok(());
    }
    let ghost le = last_error;
    let mut base = match last_error {
        Some(e) => e,
        None => if ok {
            String::from_str("nichts zum Herunterladen gefunden")
        } else {
            String::from_str("gallery-dl ist fehlgeschlagen")
        },
    };
    match last_warning {
        Some(w) => {
            push_str(&mut base, " (");
            push_str(&mut base, w.as_str());
            push_str(&mut base, ")");
            Err(base)
        },
        None => Err(base),
    }
}


/// The folder a photo post lands in: its own folder inside `dir`.
pub fn target_dir(dir: &str, url: &str, windows: bool) -> (r: String)
    ensures
        r@ == path_joined(dir@, folder_of(url@), windows),
{
    let name = folder_name(url);
    join_path(dir, name.as_str(), windows)
}

/// gallery-dl's arguments: no colors, everything straight into `target`,
/// the browser's cookies if one is set, then the link.
pub open spec fn args_of(target: Seq<char>, cookies: Option<Seq<char>>, url: Seq<char>) -> Seq<Seq<char>> {
    seq!["--no-colors"@, "-D"@, target] + (match cookies {
        Some(b) => seq!["--cookies-from-browser"@, b],
        None => seq![],
    }) + seq!["--"@, url]
}

pub fn args(target: &str, cookies: Option<&str>, url: &str) -> (r: Vec<String>)
    ensures
        string_views(r@) == args_of(target@, str_view(cookies), url@),
{
    let mut a: Vec<String> = Vec::new();
    push_lit(&mut a, "--no-colors");
    push_lit(&mut a, "-D");
    push_lit(&mut a, target);
    if let Some(b) = cookies {
        push_lit(&mut a, "--cookies-from-browser");
        push_lit(&mut a, b);
    }
    push_lit(&mut a, "--");
    push_lit(&mut a, url);
    assert(string_views(a@) =~= args_of(target@, str_view(cookies), url@));
    a
}
} // verus!
