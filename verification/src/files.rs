//! Finished downloads onto the device in front of the browser: which bytes a
//! `Range` header asks for, the media type a file is sent as, and unique
//! names for the files of an archive.

use crate::text::{
    lowercase, to_lower,
    after_last, after_last_index, chars_of, contains, decimal, lower_all, parsed_u64, parse_u64,
    push_decimal, push_str, same_chars, slice_vec, split_first, split_once, starts_with,
    string_of, trim_spaces, trimmed, ascii_lowercase, begins_with, has,
};
use crate::peek::{percent_encoded, url_encode};
use vstd::prelude::*;
use vstd::string::StringExecFns;

verus! {

/// What a job has to offer for download.
#[derive(Debug, PartialEq)]
pub enum Offer {
    File(String),
    /// A ZIP named `name.zip` holding `(name inside the archive, file)`.
    Zip { name: String, entries: Vec<(String, String)> },
}

#[derive(Clone, Copy, Debug, PartialEq, Eq, Structural)]
pub enum Range {
    /// Inclusive byte range.
    Part(u64, u64),
    /// Several ranges or something unreadable: send the whole file.
    Ignore,
    Unsatisfiable,
}

pub open spec fn sat_sub(a: u64, b: u64) -> u64 {
    if a >= b {
        (a - b) as u64
    } else {
        0
    }
}

/// The range asked for once the two numbers are read: start and end, or
/// `None` where the header is to be ignored, `Some(None)` where nothing can
/// be served.
pub open spec fn bounds(a: Seq<char>, b: Seq<char>, len: u64) -> Option<Option<(u64, u64)>> {
    if a.len() > 0 {
        match parsed_u64(a) {
            None => None,
            Some(start) => {
                let end = if b.len() == 0 {
                    Some(u64::MAX)
                } else {
                    parsed_u64(b)
                };
                match end {
                    None => None,
                    Some(e) => if e < start {
                        None
                    } else {
                        Some(Some((start, if e < sat_sub(len, 1) {
                            e
                        } else {
                            sat_sub(len, 1)
                        })))
                    },
                }
            },
        }
    } else if b.len() > 0 {
        match parsed_u64(b) {
            None => None,
            Some(suffix) => if suffix == 0 {
                Some(None)
            } else {
                Some(Some((sat_sub(len, suffix), sat_sub(len, 1))))
            },
        }
    } else {
        None
    }
}

/// `bytes=0-99`, `bytes=100-`, `bytes=-500`, one range only, against a file
/// of `len` bytes.
pub open spec fn range_of(v: Seq<char>, len: u64) -> Range {
    let t = trim_spaces(v);
    if !starts_with(t, "bytes="@) {
        Range::Ignore
    } else if t.skip(6).contains(',') {
        Range::Ignore
    } else {
        match split_once(trim_spaces(t.skip(6)), seq!['-']) {
            None => Range::Ignore,
            Some((a, b)) => match bounds(trim_spaces(a), trim_spaces(b), len) {
                None => Range::Ignore,
                Some(None) => Range::Unsatisfiable,
                Some(Some((s, e))) => if s >= len {
                    Range::Unsatisfiable
                } else {
                    Range::Part(s, e)
                },
            },
        }
    }
}

proof fn lemma_front_keeps(s: Seq<char>, c: char)
    requires
        s.contains(c),
        !crate::text::is_space(c),
    ensures
        crate::text::drop_front_spaces(s).contains(c),
    decreases s.len(),
{
    if s.len() > 0 && crate::text::is_space(s[0]) {
        let k = choose|k: int| 0 <= k < s.len() && s[k] == c;
        assert(s.drop_first()[k - 1] == c);
        lemma_front_keeps(s.drop_first(), c);
    }
}

proof fn lemma_back_keeps(s: Seq<char>, c: char)
    requires
        s.contains(c),
        !crate::text::is_space(c),
    ensures
        crate::text::drop_back_spaces(s).contains(c),
    decreases s.len(),
{
    if s.len() > 0 && crate::text::is_space(s.last()) {
        let k = choose|k: int| 0 <= k < s.len() && s[k] == c;
        assert(s.drop_last()[k] == c);
        lemma_back_keeps(s.drop_last(), c);
    }
}

/// What `parse_range` promises: a served range lies inside the file, so an
/// empty file gets none; a list of ranges, a value that is not about bytes
/// (after white space at the ends), or anything unreadable is ignored.
pub proof fn lemma_range_rules(v: Seq<char>, len: u64)
    ensures
        range_of(v, len) matches Range::Part(s, e) ==> s <= e < len,
        len == 0 ==> !(range_of(v, len) is Part),
        v.contains(',') ==> range_of(v, len) == Range::Ignore,
        !starts_with(trim_spaces(v), "bytes="@) ==> range_of(v, len) == Range::Ignore,
{
    let t = trim_spaces(v);
    if v.contains(',') && starts_with(t, "bytes="@) {
        lemma_front_keeps(v, ',');
        lemma_back_keeps(crate::text::drop_front_spaces(v), ',');
        let k = choose|k: int| 0 <= k < t.len() && t[k] == ',';
        reveal_strlit("bytes=");
        assert(t.take(6) == "bytes="@);
        if k < 6 {
            assert(t.take(6)[k] == t[k]);
        }
        assert(t.skip(6)[k - 6] == ',');
    }
    if range_of(v, len) matches Range::Part(s, e) {
        let u = trim_spaces(t.skip(6));
        let (a, b) = split_once(u, seq!['-']).unwrap();
        match bounds(trim_spaces(a), trim_spaces(b), len) {
            Some(Some((s2, e2))) => {
                assert(s2 < len);
            },
            _ => {},
        }
    }
}

fn trim_vec(s: &[char]) -> (r: Vec<char>)
    ensures
        r@ == trim_spaces(s@),
{
    let (lo, hi) = crate::text::trim_bounds(s);
    slice_vec(s, lo, hi)
}

/// `bytes=0-99`, `bytes=100-`, `bytes=-500`. One range only. A range that
/// is served lies inside the file.
pub fn parse_range(v: &str, len: u64) -> (r: Range)
    ensures
        r == range_of(v@, len),
        r matches Range::Part(s, e) ==> s <= e < len,
{
    let t = trimmed(v);
    let prefix = chars_of("bytes=");
    proof {
        reveal_strlit("bytes=");
    }
    if !begins_with(t.as_slice(), prefix.as_slice()) {
        return Range::Ignore;
    }
    let spec_ = slice_vec(t.as_slice(), 6, t.len());
    assert(spec_@ == t@.skip(6));
    if crate::text::in_set(',', spec_.as_slice()) {
        return Range::Ignore;
    }
    let st = trim_vec(spec_.as_slice());
    let dash: [char; 1] = ['-'];
    assert(dash@ == seq!['-']);
    let (a, b) = match split_first(st.as_slice(), dash.as_slice()) {
        Some((a, b)) => (trim_vec(a.as_slice()), trim_vec(b.as_slice())),
        None => return Range::Ignore,
    };
    let (start, end) = if a.len() > 0 {
        let start = match parse_u64(a.as_slice()) {
            Some(s) => s,
            None => return Range::Ignore,
        };
        let end = if b.len() == 0 {
            u64::MAX
        } else {
            match parse_u64(b.as_slice()) {
                Some(e) => e,
                None => return Range::Ignore,
            }
        };
        if end < start {
            return Range::Ignore;
        }
        let last = len.saturating_sub(1);
        (start, if end < last {
            end
        } else {
            last
        })
    } else if b.len() > 0 {
        let suffix = match parse_u64(b.as_slice()) {
            Some(s) => s,
            None => return Range::Ignore,
        };
        if suffix == 0 {
            return Range::Unsatisfiable;
        }
        (len.saturating_sub(suffix), len.saturating_sub(1))
    } else {
        return Range::Ignore;
    };
    if start >= len {
        Range::Unsatisfiable
    } else {
        Range::Part(start, end)
    }
}

/// Index of the last `.` in `s`.
pub open spec fn last_dot(s: Seq<char>) -> Option<int>
    decreases s.len(),
{
    if s.len() == 0 {
        None
    } else if s.last() == '.' {
        Some(s.len() - 1)
    } else {
        last_dot(s.drop_last())
    }
}

proof fn lemma_last_dot(s: Seq<char>)
    ensures
        last_dot(s) matches Some(i) ==> 0 <= i < s.len() && s[i] == '.' && forall|k: int|
            i < k < s.len() ==> #[trigger] s[k] != '.',
        last_dot(s) is None ==> forall|k: int| 0 <= k < s.len() ==> #[trigger] s[k] != '.',
    decreases s.len(),
{
    if s.len() > 0 {
        lemma_last_dot(s.drop_last());
        assert forall|k: int| 0 <= k < s.len() - 1 implies #[trigger] s[k] == s.drop_last()[k] by {}
    }
}

fn find_last_dot(s: &[char]) -> (r: Option<usize>)
    ensures
        match last_dot(s@) {
            Some(i) => r == Some(i as usize) && 0 <= i < s@.len(),
            None => r is None,
        },
{
    proof {
        lemma_last_dot(s@);
    }
    let mut i: usize = s.len();
    assert(s@.subrange(0, i as int) == s@);
    while i > 0
        invariant
            i <= s@.len(),
            last_dot(s@) == last_dot(s@.subrange(0, i as int)),
        decreases i,
    {
        if s[i - 1] == '.' {
            return Some(i - 1);
        }
        assert(s@.subrange(0, i as int).drop_last() =~= s@.subrange(0, i - 1));
        i -= 1;
    }
    None
}

/// The extension of a file name in ASCII lower case; empty without a dot.
pub open spec fn extension(name: Seq<char>) -> Seq<char> {
    match last_dot(name) {
        Some(i) => lower_all(name.skip(i + 1)),
        None => seq![],
    }
}

pub open spec fn media_type(name: Seq<char>) -> Seq<char> {
    let e = extension(name);
    if e == "mp4"@ || e == "m4v"@ {
        "video/mp4"@
    } else if e == "mkv"@ {
        "video/x-matroska"@
    } else if e == "webm"@ {
        "video/webm"@
    } else if e == "mov"@ {
        "video/quicktime"@
    } else if e == "mp3"@ {
        "audio/mpeg"@
    } else if e == "m4a"@ {
        "audio/mp4"@
    } else if e == "opus"@ || e == "ogg"@ {
        "audio/ogg"@
    } else if e == "flac"@ {
        "audio/flac"@
    } else if e == "wav"@ {
        "audio/wav"@
    } else if e == "jpg"@ || e == "jpeg"@ {
        "image/jpeg"@
    } else if e == "png"@ {
        "image/png"@
    } else if e == "webp"@ {
        "image/webp"@
    } else if e == "gif"@ {
        "image/gif"@
    } else if e == "zip"@ {
        "application/zip"@
    } else {
        "application/octet-stream"@
    }
}

/// The media type a file is sent as, by its extension; anything unknown is
/// sent as plain bytes, so nothing reaches the browser as a page to run.
pub fn content_type(name: &str) -> (r: &'static str)
    ensures
        r@ == media_type(name@),
{
    let v = chars_of(name);
    let len = v.len();
    let ext = match find_last_dot(v.as_slice()) {
        Some(i) => {
            let tail = string_of(slice_vec(v.as_slice(), i + 1, len).as_slice());
            ascii_lowercase(tail.as_str())
        },
        None => Vec::new(),
    };
    let e = ext.as_slice();
    if same_chars(e, "mp4") || same_chars(e, "m4v") {
        "video/mp4"
    } else if same_chars(e, "mkv") {
        "video/x-matroska"
    } else if same_chars(e, "webm") {
        "video/webm"
    } else if same_chars(e, "mov") {
        "video/quicktime"
    } else if same_chars(e, "mp3") {
        "audio/mpeg"
    } else if same_chars(e, "m4a") {
        "audio/mp4"
    } else if same_chars(e, "opus") || same_chars(e, "ogg") {
        "audio/ogg"
    } else if same_chars(e, "flac") {
        "audio/flac"
    } else if same_chars(e, "wav") {
        "audio/wav"
    } else if same_chars(e, "jpg") || same_chars(e, "jpeg") {
        "image/jpeg"
    } else if same_chars(e, "png") {
        "image/png"
    } else if same_chars(e, "webp") {
        "image/webp"
    } else if same_chars(e, "gif") {
        "image/gif"
    } else if same_chars(e, "zip") {
        "application/zip"
    } else {
        "application/octet-stream"
    }
}

/// The `n`-th name tried for `name`: the name itself first, then `a (2).mp3`,
/// `a (3).mp3`, … with the number before the last extension.
pub open spec fn candidate(name: Seq<char>, n: nat) -> Seq<char> {
    if n < 2 {
        name
    } else {
        match last_dot(name) {
            Some(i) => name.take(i) + " ("@ + decimal(n) + ")."@ + name.skip(i + 1),
            None => name + " ("@ + decimal(n) + ")"@,
        }
    }
}

/// The first number from `n` on whose name is not taken yet, in lower case.
pub open spec fn free_number(name: Seq<char>, seen: Seq<Seq<char>>, n: nat) -> nat
    decreases u64::MAX - n,
{
    if n >= u64::MAX || !seen.contains(lowercase(candidate(name, n))) {
        n
    } else {
        free_number(name, seen, n + 1)
    }
}

/// The names chosen for the first entries, and the names taken so far in
/// lower case.
pub open spec fn chosen(names: Seq<Seq<char>>) -> (Seq<Seq<char>>, Seq<Seq<char>>)
    decreases names.len(),
{
    if names.len() == 0 {
        (seq![], seq![])
    } else {
        let (out, seen) = chosen(names.drop_last());
        let name = names.last();
        let c = candidate(name, free_number(name, seen, 1));
        (out.push(c), seen.push(lowercase(c)))
    }
}

pub open spec fn first_names(v: Seq<(String, String)>) -> Seq<Seq<char>> {
    v.map_values(|e: (String, String)| e.0@)
}

fn candidate_name(name: &[char], n: u64) -> (r: String)
    ensures
        r@ == candidate(name@, n as nat),
{
    if n < 2 {
        return string_of(name);
    }
    proof {
        lemma_last_dot(name@);
    }
    match find_last_dot(name) {
        Some(i) => {
            let len = name.len();
            assert(i < len);
            let mut s = string_of(slice_vec(name, 0, i).as_slice());
            push_str(&mut s, " (");
            push_decimal(&mut s, n);
            push_str(&mut s, ").");
            let ext = string_of(slice_vec(name, i + 1, len).as_slice());
            push_str(&mut s, ext.as_str());
            proof {
                lemma_last_dot(name@);
            }
            s
        },
        None => {
            let mut s = string_of(name);
            push_str(&mut s, " (");
            push_decimal(&mut s, n);
            push_str(&mut s, ")");
            s
        },
    }
}

fn taken(seen: &Vec<String>, s: &str) -> (r: bool)
    ensures
        r == crate::text::string_views(seen@).contains(s@),
{
    let mut i: usize = 0;
    while i < seen.len()
        invariant
            i <= seen@.len(),
            forall|k: int| 0 <= k < i ==> seen@[k]@ != s@,
        decreases seen@.len() - i,
    {
        if crate::text::same_str(seen[i].as_str(), s) {
            assert(crate::text::string_views(seen@)[i as int] == s@);
            return true;
        }
        i += 1;
    }
    assert forall|k: int| 0 <= k < seen@.len() implies crate::text::string_views(seen@)[k] != s@ by {
        assert(crate::text::string_views(seen@)[k] == seen@[k]@);
    }
    false
}

/// Names inside an archive must be unique, ignoring case; a second `a.mp3`
/// becomes `a (2).mp3`.
pub fn unique_names(entries: Vec<(String, String)>) -> (r: Vec<(String, String)>)
    ensures
        r@.len() == entries@.len(),
        first_names(r@) == chosen(first_names(entries@)).0,
        forall|i: int| 0 <= i < r@.len() ==> #[trigger] r@[i].1 == entries@[i].1,
{
    let mut seen: Vec<String> = Vec::new();
    let mut out: Vec<(String, String)> = Vec::new();
    let mut i: usize = 0;
    while i < entries.len()
        invariant
            i <= entries@.len(),
            out@.len() == i,
            (first_names(out@), crate::text::string_views(seen@)) == chosen(first_names(entries@).take(i as int)),
            forall|k: int| 0 <= k < i ==> #[trigger] out@[k].1 == entries@[k].1,
        decreases entries@.len() - i,
    {
        let name = chars_of(entries[i].0.as_str());
        let ghost names = first_names(entries@).take(i + 1);
        proof {
            assert(names.drop_last() =~= first_names(entries@).take(i as int));
            assert(names.last() == name@);
        }
        let ghost seen0 = crate::text::string_views(seen@);
        let mut n: u64 = 1;
        let mut c = candidate_name(name.as_slice(), n);
        let mut low = to_lower(c.as_str());
        while n < u64::MAX && taken(&seen, low.as_str())
            invariant
                1 <= n <= u64::MAX,
                crate::text::string_views(seen@) == seen0,
                c@ == candidate(name@, n as nat),
                low@ == lowercase(c@),
                free_number(name@, seen0, 1) == free_number(name@, seen0, n as nat),
            decreases u64::MAX - n,
        {
            n += 1;
            c = candidate_name(name.as_slice(), n);
            low = to_lower(c.as_str());
        }
        let ghost before_seen = crate::text::string_views(seen@);
        seen.push(low);
        assert(crate::text::string_views(seen@) =~= before_seen.push(lowercase(c@)));
        let ghost before_out = first_names(out@);
        out.push((c, entries[i].1.clone()));
        assert(first_names(out@) =~= before_out.push(candidate(name@, n as nat)));
        i += 1;
    }
    assert(first_names(entries@).take(entries@.len() as int) == first_names(entries@));
    out
}

/// Every chosen name differs, in lower case, from the names chosen before
/// it, unless the count of numbers tried ran out.
pub proof fn lemma_chosen_names_differ(names: Seq<Seq<char>>)
    ensures
        chosen(names).0.len() == names.len(),
        chosen(names).1.len() == names.len(),
        forall|i: int| 0 <= i < names.len() ==> #[trigger] chosen(names).1[i] == lowercase(chosen(names).0[i]),
    decreases names.len(),
{
    if names.len() > 0 {
        lemma_chosen_names_differ(names.drop_last());
        let (out, seen) = chosen(names.drop_last());
        assert forall|i: int| 0 <= i < names.len() implies #[trigger] chosen(names).1[i] == lowercase(chosen(names).0[i]) by {
            if i < names.len() - 1 {
                assert(chosen(names).1[i] == seen[i]);
                assert(chosen(names).0[i] == out[i]);
            }
        }
    }
}

/// The number chosen for a name is free among the names taken before, unless
/// every number up to `u64::MAX` was taken.
pub proof fn lemma_free_number_is_free(name: Seq<char>, seen: Seq<Seq<char>>, n: nat)
    requires
        n <= u64::MAX,
    ensures
        free_number(name, seen, n) < u64::MAX ==> !seen.contains(
            lowercase(candidate(name, free_number(name, seen, n))),
        ),
        n <= free_number(name, seen, n) <= u64::MAX,
    decreases u64::MAX - n,
{
    if n < u64::MAX && seen.contains(lowercase(candidate(name, n))) {
        lemma_free_number_is_free(name, seen, n + 1);
    }
}

/// The number tried last for entry `j`: 1 keeps its name.
pub open spec fn number_of(names: Seq<Seq<char>>, j: int) -> nat {
    free_number(names[j], chosen(names.take(j)).1, 1)
}

/// What `unique_names` promises: the chosen names differ from each other
/// in lower case (unless every number up to `u64::MAX` was taken), and a
/// name not taken before, in lower case, stays as it is.
pub proof fn lemma_unique_names(names: Seq<Seq<char>>)
    ensures
        chosen(names).0.len() == names.len(),
        forall|i: int, j: int|
            0 <= i < j < names.len() && number_of(names, j) < u64::MAX ==> lowercase(
                #[trigger] chosen(names).0[i],
            ) != lowercase(#[trigger] chosen(names).0[j]),
        forall|j: int|
            0 <= j < names.len() && !chosen(names.take(j)).1.contains(lowercase(names[j])) ==> #[trigger] chosen(
                names,
            ).0[j] == names[j],
    decreases names.len(),
{
    lemma_chosen_names_differ(names);
    if names.len() > 0 {
        let p = names.drop_last();
        lemma_unique_names(p);
        lemma_chosen_names_differ(p);
        let (out, seen) = chosen(p);
        let last = names.len() - 1;
        assert(names.take(last) =~= p);
        lemma_free_number_is_free(names[last], seen, 1);
        assert forall|i: int, j: int|
            0 <= i < j < names.len() && number_of(names, j) < u64::MAX implies lowercase(
                #[trigger] chosen(names).0[i],
            ) != lowercase(#[trigger] chosen(names).0[j]) by {
            assert(chosen(names).0[i] == out[i]);
            if j < last {
                assert(chosen(names).0[j] == out[j]);
                assert(names.take(j) =~= p.take(j));
                assert(number_of(names, j) == number_of(p, j));
            } else {
                assert(seen[i] == lowercase(out[i]));
                assert(seen.contains(seen[i]));
            }
        }
        assert forall|j: int|
            0 <= j < names.len() && !chosen(names.take(j)).1.contains(lowercase(names[j])) implies #[trigger] chosen(
                names,
            ).0[j] == names[j] by {
            if j < last {
                assert(chosen(names).0[j] == out[j]);
                assert(names.take(j) =~= p.take(j));
                assert(p[j] == names[j]);
            } else {
                assert(free_number(names[last], seen, 1) == 1);
            }
        }
    }
}

/// A character kept in the plain `filename` of a download: printable ASCII
/// other than `"` and `\\`, and the space.
pub open spec fn kept_in_name(c: char) -> bool {
    ('!' <= c <= '~' && c != '"' && c != '\\') || c == ' '
}

/// The name with every other character replaced by `_`.
pub open spec fn ascii_name(s: Seq<char>) -> Seq<char> {
    s.map_values(|c: char| if kept_in_name(c) { c } else { '_' })
}

/// The `Content-Disposition` of a download (RFC 6266): `attachment`, an
/// ASCII stand-in for old clients, and the real name percent-encoded as
/// UTF-8.
pub open spec fn disposition_of(name: Seq<char>) -> Seq<char> {
    "attachment; filename=\""@ + ascii_name(name) + "\"; filename*=UTF-8''"@ + percent_encoded(name)
}

/// The `Content-Disposition` header value for a file named `name`. Its
/// characters are all printable ASCII, so it is always a valid header value.
pub fn disposition(name: &str) -> (r: String)
    ensures
        r@ == disposition_of(name@),
{
    let v = chars_of(name);
    let n: usize = v.len();
    let mut s = String::from_str("attachment; filename=\"");
    let ghost head = s@;
    let mut i: usize = 0;
    while i < n
        invariant
            i <= n == v@.len(),
            v@ == name@,
            s@ == head + ascii_name(v@.subrange(0, i as int)),
        decreases n - i,
    {
        let c = v[i];
        let keep = ('!' <= c && c <= '~' && c != '"' && c != '\\') || c == ' ';
        crate::text::push_char(&mut s, if keep { c } else { '_' });
        assert(ascii_name(v@.subrange(0, i + 1)) =~= ascii_name(v@.subrange(0, i as int)).push(
            if kept_in_name(c) { c } else { '_' },
        ));
        i += 1;
    }
    assert(v@.subrange(0, n as int) =~= v@);
    push_str(&mut s, "\"; filename*=UTF-8''");
    let enc = url_encode(name);
    push_str(&mut s, enc.as_str());
    s
}

} // verus!
