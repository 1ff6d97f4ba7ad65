//! Small helpers: safe file names, templates, durations, sizes, dates.

use vstd::prelude::*;
use crate::text::{
    chars_of, control, decimal, digit, digit_char, is_control, is_space, push_char, push_decimal,
    push_str, push_two_digits, space,
    string_of_range, two_digits,
};
use vstd::string::StringExecFns;

verus! {

/// Characters Windows refuses in file names.
pub open spec fn is_forbidden(c: char) -> bool {
    c == '<' || c == '>' || c == ':' || c == '"' || c == '/' || c == '\\' || c == '|' || c == '?'
        || c == '*'
}

/// First step of `sanitize_filename`: forbidden characters become `_`,
/// control characters spaces.
pub open spec fn safe_char(c: char) -> char {
    if is_forbidden(c) {
        '_'
    } else if is_control(c) {
        ' '
    } else {
        c
    }
}

/// Runs of white space squeezed to one space, none at either end, as
/// `split_whitespace` followed by `join(" ")` gives it. `started`: a word
/// was written already; `gap`: white space followed it.
pub open spec fn squash(s: Seq<char>, started: bool, gap: bool) -> Seq<char>
    decreases s.len(),
{
    if s.len() == 0 {
        seq![]
    } else if is_space(s[0]) {
        squash(s.drop_first(), started, started)
    } else {
        (if gap {
            seq![' ', s[0]]
        } else {
            seq![s[0]]
        }) + squash(s.drop_first(), true, false)
    }
}

pub open spec fn collapse_spaces(s: Seq<char>) -> Seq<char> {
    squash(s, false, false)
}

pub open spec fn is_dot_or_space(c: char) -> bool {
    c == '.' || c == ' '
}

pub open spec fn strip_front(s: Seq<char>) -> Seq<char>
    decreases s.len(),
{
    if s.len() > 0 && is_dot_or_space(s[0]) {
        strip_front(s.drop_first())
    } else {
        s
    }
}

pub open spec fn strip_back(s: Seq<char>) -> Seq<char>
    decreases s.len(),
{
    if s.len() > 0 && is_dot_or_space(s.last()) {
        strip_back(s.drop_last())
    } else {
        s
    }
}

/// Dots and spaces removed from both ends.
pub open spec fn trim_dots(s: Seq<char>) -> Seq<char> {
    strip_back(strip_front(s))
}

pub open spec fn at_most_150(s: Seq<char>) -> Seq<char> {
    if s.len() > 150 {
        s.take(150)
    } else {
        s
    }
}

/// What `sanitize_filename` makes of `s`.
pub open spec fn sanitized(s: Seq<char>) -> Seq<char> {
    let t = trim_dots(at_most_150(collapse_spaces(s.map_values(|c: char| safe_char(c)))));
    if t.len() == 0 {
        seq!['d', 'o', 'w', 'n', 'l', 'o', 'a', 'd']
    } else {
        t
    }
}

proof fn lemma_squash_step(s: Seq<char>, i: int, started: bool, gap: bool)
    requires
        0 <= i < s.len(),
    ensures
        squash(s.skip(i), started, gap) == if is_space(s[i]) {
            squash(s.skip(i + 1), started, started)
        } else {
            (if gap {
                seq![' ', s[i]]
            } else {
                seq![s[i]]
            }) + squash(s.skip(i + 1), true, false)
        },
{
    assert(s.skip(i).drop_first() == s.skip(i + 1));
}

/// A safe file name: one to 150 characters, none reserved by Windows and
/// no control characters, and no dot or space at either end.
pub open spec fn safe_name(n: Seq<char>) -> bool {
    &&& 0 < n.len() <= 150
    &&& forall|i: int|
        0 <= i < n.len() ==> !is_forbidden(#[trigger] n[i]) && !is_control(n[i]) && (n[i] == ' ' || !is_space(
            n[i],
        ))
    &&& !is_dot_or_space(n[0])
    &&& !is_dot_or_space(n.last())
    &&& forall|i: int| 0 <= i < n.len() - 1 ==> !(#[trigger] n[i] == ' ' && n[i + 1] == ' ')
}

/// The only white space a squashed text holds is the plain space.
proof fn lemma_squash_plain(s: Seq<char>, started: bool, gap: bool)
    ensures
        forall|i: int|
            0 <= i < squash(s, started, gap).len() ==> #[trigger] squash(s, started, gap)[i] == ' ' || !is_space(
                squash(s, started, gap)[i],
            ),
    decreases s.len(),
{
    if s.len() > 0 {
        let rest = s.drop_first();
        if is_space(s[0]) {
            lemma_squash_plain(rest, started, started);
            assert(squash(s, started, gap) == squash(rest, started, started));
        } else {
            lemma_squash_plain(rest, true, false);
            let head = if gap {
                seq![' ', s[0]]
            } else {
                seq![s[0]]
            };
            let tail = squash(rest, true, false);
            let q = squash(s, started, gap);
            assert(q == head + tail);
            assert forall|i: int| 0 <= i < q.len() implies #[trigger] q[i] == ' ' || !is_space(q[i]) by {
                if i >= head.len() {
                    assert(q[i] == tail[i - head.len()]);
                }
            }
        }
    }
}

/// In a squashed text every space is followed by a character that is none.
proof fn lemma_squash_single_spaces(s: Seq<char>, started: bool, gap: bool)
    ensures
        forall|i: int|
            0 <= i < squash(s, started, gap).len() && #[trigger] squash(s, started, gap)[i] == ' ' ==> i + 1
                < squash(s, started, gap).len() && squash(s, started, gap)[i + 1] != ' ',
    decreases s.len(),
{
    if s.len() > 0 {
        let rest = s.drop_first();
        if is_space(s[0]) {
            lemma_squash_single_spaces(rest, started, started);
            assert(squash(s, started, gap) == squash(rest, started, started));
        } else {
            lemma_squash_single_spaces(rest, true, false);
            let head = if gap {
                seq![' ', s[0]]
            } else {
                seq![s[0]]
            };
            let tail = squash(rest, true, false);
            let q = squash(s, started, gap);
            assert(q == head + tail);
            assert forall|i: int| 0 <= i < q.len() && #[trigger] q[i] == ' ' implies i + 1 < q.len() && q[i + 1] != ' ' by {
                assert(!is_space(s[0]) && s[0] != ' ');
                if i >= head.len() {
                    assert(q[i] == tail[i - head.len()]);
                    assert(q[i + 1] == tail[i + 1 - head.len()]);
                } else if i == head.len() - 1 {
                    assert(q[i] == s[0]);
                } else {
                    assert(q[i + 1] == s[0]);
                }
            }
        }
    }
}

/// Every character of a squashed text is a space or one of the text's.
proof fn lemma_squash_chars(s: Seq<char>, started: bool, gap: bool)
    ensures
        forall|i: int| 0 <= i < squash(s, started, gap).len() ==> #[trigger] squash(s, started, gap)[i] == ' '
            || s.contains(squash(s, started, gap)[i]),
    decreases s.len(),
{
    if s.len() > 0 {
        let rest = s.drop_first();
        if is_space(s[0]) {
            lemma_squash_chars(rest, started, started);
            assert forall|i: int| 0 <= i < squash(s, started, gap).len() implies #[trigger] squash(s, started, gap)[i]
                == ' ' || s.contains(squash(s, started, gap)[i]) by {
                let c = squash(rest, started, started)[i];
                if c != ' ' {
                    let k = choose|k: int| 0 <= k < rest.len() && rest[k] == c;
                    assert(s[k + 1] == c);
                }
            }
        } else {
            lemma_squash_chars(rest, true, false);
            let head = if gap {
                seq![' ', s[0]]
            } else {
                seq![s[0]]
            };
            let tail = squash(rest, true, false);
            assert forall|i: int| 0 <= i < squash(s, started, gap).len() implies #[trigger] squash(s, started, gap)[i]
                == ' ' || s.contains(squash(s, started, gap)[i]) by {
                assert(squash(s, started, gap) == head + tail);
                if i >= head.len() {
                    let c = tail[i - head.len()];
                    if c != ' ' {
                        let k = choose|k: int| 0 <= k < rest.len() && rest[k] == c;
                        assert(s[k + 1] == c);
                    }
                }
            }
        }
    }
}

/// Dropping dots and spaces at the front leaves an end of the text that
/// starts with neither.
proof fn lemma_strip_front(s: Seq<char>)
    ensures
        exists|k: int| 0 <= k <= s.len() && strip_front(s) == s.skip(k),
        strip_front(s).len() > 0 ==> !is_dot_or_space(strip_front(s)[0]),
    decreases s.len(),
{
    if s.len() > 0 && is_dot_or_space(s[0]) {
        lemma_strip_front(s.drop_first());
        let k = choose|k: int| 0 <= k <= s.drop_first().len() && strip_front(s.drop_first()) == s.drop_first().skip(k);
        assert(s.drop_first().skip(k) =~= s.skip(k + 1));
    } else {
        assert(s.skip(0) =~= s);
    }
}

/// Dropping dots and spaces at the back leaves a beginning of the text that
/// ends with neither.
proof fn lemma_strip_back(s: Seq<char>)
    ensures
        exists|k: int| 0 <= k <= s.len() && strip_back(s) == s.take(k),
        strip_back(s).len() > 0 ==> !is_dot_or_space(strip_back(s).last()),
    decreases s.len(),
{
    if s.len() > 0 && is_dot_or_space(s.last()) {
        lemma_strip_back(s.drop_last());
        let k = choose|k: int| 0 <= k <= s.drop_last().len() && strip_back(s.drop_last()) == s.drop_last().take(k);
        assert(s.drop_last().take(k) =~= s.take(k));
    } else {
        assert(s.take(s.len() as int) =~= s);
    }
}

/// A sanitized name holds none of the characters Windows refuses in file
/// names: `<`, `>`, `:`, `"`, `/`, `\`, `|`, `?` and `*`.
pub proof fn lemma_sanitized_windows_safe(s: Seq<char>)
    ensures
        forall|i: int|
            0 <= i < sanitized(s).len() ==> {
                let c = #[trigger] sanitized(s)[i];
                c != '<' && c != '>' && c != ':' && c != '"' && c != '/' && c != '\\' && c != '|' && c
                    != '?' && c != '*'
            },
{
    lemma_sanitized_is_safe(s);
}

/// Single plain spaces between other characters, none at the end: a text
/// that squashing leaves alone once a word was written.
pub open spec fn spaced(t: Seq<char>) -> bool {
    &&& forall|i: int| 0 <= i < t.len() ==> (#[trigger] t[i] == ' ' || !is_space(t[i]))
    &&& forall|i: int| 0 <= i < t.len() - 1 ==> !(#[trigger] t[i] == ' ' && t[i + 1] == ' ')
    &&& t.len() > 0 ==> t.last() != ' '
}

proof fn lemma_squash_spaced(t: Seq<char>)
    requires
        spaced(t),
    ensures
        squash(t, true, false) == t,
    decreases t.len(),
{
    if t.len() > 0 {
        let r = t.drop_first();
        assert(spaced(r)) by {
            assert forall|i: int| 0 <= i < r.len() implies (#[trigger] r[i] == ' ' || !is_space(r[i])) by {
                assert(r[i] == t[i + 1]);
            }
            assert forall|i: int| 0 <= i < r.len() - 1 implies !(#[trigger] r[i] == ' ' && r[i + 1] == ' ') by {
                assert(r[i] == t[i + 1] && r[i + 1] == t[i + 2]);
            }
        }
        if is_space(t[0]) {
            assert(t[0] == ' ');
            assert(t.len() >= 2);
            assert(t[1] != ' ');
            assert(!is_space(t[1]));
            let u = r.drop_first();
            assert(spaced(u)) by {
                assert forall|i: int| 0 <= i < u.len() implies (#[trigger] u[i] == ' ' || !is_space(u[i])) by {
                    assert(u[i] == r[i + 1]);
                }
                assert forall|i: int| 0 <= i < u.len() - 1 implies !(#[trigger] u[i] == ' ' && u[i + 1] == ' ') by {
                    assert(u[i] == r[i + 1] && u[i + 1] == r[i + 2]);
                }
            }
            lemma_squash_spaced(u);
            assert(squash(r, true, true) == seq![' ', r[0]] + squash(u, true, false));
            assert(seq![' ', r[0]] + u =~= t);
        } else {
            lemma_squash_spaced(r);
            assert(seq![t[0]] + r =~= t);
        }
    }
}

/// A tidy title (at most 150 characters, no control characters, single
/// plain spaces, no dot or space at either end) only has the characters
/// Windows refuses replaced: each of `<`, `>`, `:`, `"`, `/`, `\`, `|`, `?`
/// and `*` becomes `_`, everything else stays where it is.
pub proof fn lemma_tidy_title_only_loses_refused_characters(s: Seq<char>)
    requires
        0 < s.len() <= 150,
        forall|i: int| 0 <= i < s.len() ==> !is_control(#[trigger] s[i]),
        spaced(s),
        s[0] != ' ' && s[0] != '.',
        s.last() != '.',
    ensures
        sanitized(s).len() == s.len(),
        forall|i: int|
            0 <= i < s.len() ==> #[trigger] sanitized(s)[i] == {
                let c = s[i];
                if c == '<' || c == '>' || c == ':' || c == '"' || c == '/' || c == '\\' || c == '|' || c
                    == '?' || c == '*' {
                    '_'
                } else {
                    c
                }
            },
{
    let mapped = s.map_values(|c: char| safe_char(c));
    assert forall|i: int| 0 <= i < s.len() implies #[trigger] mapped[i] == (if is_forbidden(s[i]) {
        '_'
    } else {
        s[i]
    }) by {}
    assert(spaced(mapped)) by {
        assert forall|i: int| 0 <= i < mapped.len() implies (#[trigger] mapped[i] == ' ' || !is_space(mapped[i])) by {
            assert(mapped[i] == safe_char(s[i]));
            assert(s[i] == ' ' || !is_space(s[i]));
        }
        assert forall|i: int| 0 <= i < mapped.len() - 1 implies !(#[trigger] mapped[i] == ' ' && mapped[i + 1] == ' ') by {
            assert(mapped[i] == safe_char(s[i]) && mapped[i + 1] == safe_char(s[i + 1]));
            assert(!(s[i] == ' ' && s[i + 1] == ' '));
        }
        assert(mapped.last() == safe_char(s.last()));
    }
    assert(!is_space(mapped[0])) by {
        assert(mapped[0] == safe_char(s[0]));
        assert(s[0] == ' ' || !is_space(s[0]));
    }
    lemma_squash_spaced(mapped.drop_first());
    assert(seq![mapped[0]] + mapped.drop_first() =~= mapped);
    assert(collapse_spaces(mapped) == mapped);
    assert(at_most_150(mapped) == mapped);
    assert(strip_front(mapped) == mapped);
    assert(mapped.last() == safe_char(s.last()));
    assert(strip_back(mapped) == mapped);
}

/// What `sanitize_filename` makes is always a safe file name, as its
/// description promises.
pub proof fn lemma_sanitized_is_safe(s: Seq<char>)
    ensures
        safe_name(sanitized(s)),
{
    let mapped = s.map_values(|c: char| safe_char(c));
    let sq = collapse_spaces(mapped);
    let cut = at_most_150(sq);
    let front = strip_front(cut);
    let t = strip_back(front);
    lemma_squash_chars(mapped, false, false);
    lemma_squash_single_spaces(mapped, false, false);
    lemma_squash_plain(mapped, false, false);
    lemma_strip_front(cut);
    lemma_strip_back(front);
    let k1 = choose|k: int| 0 <= k <= cut.len() && front == cut.skip(k);
    let k2 = choose|k: int| 0 <= k <= front.len() && t == front.take(k);
    assert forall|i: int| 0 <= i < t.len() implies !is_forbidden(#[trigger] t[i]) && !is_control(t[i]) && (t[i] == ' '
        || !is_space(t[i])) by {
        assert(t[i] == front[i]);
        assert(front[i] == cut[i + k1]);
        assert(cut[i + k1] == sq[i + k1]);
        let c = sq[i + k1];
        if c != ' ' {
            let j = choose|j: int| 0 <= j < mapped.len() && mapped[j] == c;
            assert(mapped[j] == safe_char(s[j]));
        }
    }
    if t.len() > 0 {
        assert(t[0] == front[0]);
    }
    assert forall|i: int| 0 <= i < t.len() - 1 implies !(#[trigger] t[i] == ' ' && t[i + 1] == ' ') by {
        assert(t[i] == sq[i + k1]);
        assert(t[i + 1] == sq[i + 1 + k1]);
    }
    if t.len() == 0 {
        let d = seq!['d', 'o', 'w', 'n', 'l', 'o', 'a', 'd'];
        assert(sanitized(s) == d);
        assert forall|i: int| 0 <= i < d.len() implies !is_forbidden(#[trigger] d[i]) && !is_control(d[i]) && (d[i]
            == ' ' || !is_space(d[i])) by {}
    }
}

/// A safe name squashes to itself.
proof fn lemma_squash_safe(x: Seq<char>, started: bool)
    requires
        forall|i: int| 0 <= i < x.len() ==> #[trigger] x[i] == ' ' || !is_space(x[i]),
        forall|i: int| 0 <= i < x.len() - 1 ==> !(#[trigger] x[i] == ' ' && x[i + 1] == ' '),
        x.len() > 0 ==> x.last() != ' ',
        !started && x.len() > 0 ==> x[0] != ' ',
    ensures
        squash(x, started, false) == x,
    decreases x.len(),
{
    if x.len() > 0 {
        let rest = x.drop_first();
        assert forall|i: int| 0 <= i < rest.len() implies #[trigger] rest[i] == ' ' || !is_space(rest[i]) by {
            assert(rest[i] == x[i + 1]);
        }
        assert forall|i: int| 0 <= i < rest.len() - 1 implies !(#[trigger] rest[i] == ' ' && rest[i + 1] == ' ') by {
            assert(rest[i] == x[i + 1]);
            assert(rest[i + 1] == x[i + 2]);
        }
        if x[0] != ' ' {
            assert(!is_space(x[0]));
            if rest.len() > 0 {
                assert(rest.last() == x.last());
            }
            lemma_squash_safe(rest, true);
            assert(seq![x[0]] + rest =~= x);
        } else {
            // a space inside: the next character is a word's
            assert(x.len() >= 2);
            assert(x[1] != ' ');
            assert(!is_space(x[1]));
            let rest2 = rest.drop_first();
            assert forall|i: int| 0 <= i < rest2.len() implies #[trigger] rest2[i] == ' ' || !is_space(rest2[i]) by {
                assert(rest2[i] == x[i + 2]);
            }
            assert forall|i: int| 0 <= i < rest2.len() - 1 implies !(#[trigger] rest2[i] == ' ' && rest2[i + 1] == ' ') by {
                assert(rest2[i] == x[i + 2]);
                assert(rest2[i + 1] == x[i + 3]);
            }
            if rest2.len() > 0 {
                assert(rest2.last() == x.last());
            }
            lemma_squash_safe(rest2, true);
            assert(squash(x, started, false) == squash(rest, started, started));
            assert(squash(rest, true, true) == seq![' ', x[1]] + squash(rest2, true, false));
            assert(seq![' ', x[1]] + rest2 =~= x);
        }
    }
}

/// Sanitizing twice changes nothing: a sanitized name is its own result.
pub proof fn lemma_sanitize_idempotent(s: Seq<char>)
    ensures
        sanitized(sanitized(s)) == sanitized(s),
{
    let t = sanitized(s);
    lemma_sanitized_is_safe(s);
    let mapped = t.map_values(|c: char| safe_char(c));
    assert(mapped =~= t);
    assert(t[0] != ' ');
    lemma_squash_safe(t, false);
    assert(at_most_150(t) == t);
    assert(strip_front(t) == t);
    assert(strip_back(t) == t);
}

/// Makes a string safe as a Windows file name: no reserved characters, white
/// space squeezed, at most 150 characters, no dots or spaces at the ends, and
/// never empty.
pub fn sanitize_filename(s: &str) -> (r: String)
    ensures
        r@ == sanitized(s@),
{
    let v = chars_of(s);
    let ghost mapped = s@.map_values(|c: char| safe_char(c));
    // Map and squash in one pass.
    let mut out: Vec<char> = Vec::new();
    let mut started = false;
    let mut gap = false;
    let mut i: usize = 0;
    assert(mapped.skip(0) == mapped);
    while i < v.len()
        invariant
            i <= v@.len(),
            v@ == s@,
            mapped.len() == v@.len(),
            forall|k: int| 0 <= k < v@.len() ==> #[trigger] mapped[k] == safe_char(v@[k]),
            out@ + squash(mapped.skip(i as int), started, gap) == collapse_spaces(mapped),
            !started ==> !gap,
        decreases v@.len() - i,
    {
        proof {
            lemma_squash_step(mapped, i as int, started, gap);
        }
        let c0 = v[i];
        let c = if c0 == '<' || c0 == '>' || c0 == ':' || c0 == '"' || c0 == '/' || c0 == '\\'
            || c0 == '|' || c0 == '?' || c0 == '*' {
            '_'
        } else if control(c0) {
            ' '
        } else {
            c0
        };
        assert(c == mapped[i as int]);
        if space(c) {
            gap = started;
        } else {
            let ghost old_out = out@;
            let ghost old_gap = gap;
            if gap {
                out.push(' ');
            }
            out.push(c);
            started = true;
            gap = false;
            assert(out@ + squash(mapped.skip(i + 1), true, false) == collapse_spaces(mapped)) by {
                let tail = squash(mapped.skip(i + 1), true, false);
                if old_gap {
                    assert(out@ == old_out.push(' ').push(c));
                    assert(old_out + (seq![' ', c] + tail) == out@ + tail);
                } else {
                    assert(out@ == old_out.push(c));
                    assert(old_out + (seq![c] + tail) == out@ + tail);
                }
            }
        }
        i += 1;
    }
    assert(mapped.skip(v@.len() as int).len() == 0);
    let n = if out.len() > 150 {
        150
    } else {
        out.len()
    };
    let ghost cut = at_most_150(out@);
    assert(cut == out@.take(n as int));
    assert(out@ == collapse_spaces(mapped));
    assert(cut.subrange(0, n as int) == cut);
    let mut lo: usize = 0;
    while lo < n && (out[lo] == '.' || out[lo] == ' ')
        invariant
            lo <= n <= out@.len(),
            cut == out@.take(n as int),
            strip_front(cut) == strip_front(cut.subrange(lo as int, n as int)),
        decreases n - lo,
    {
        assert(cut.subrange(lo as int, n as int).drop_first() =~= cut.subrange(lo + 1, n as int));
        lo += 1;
    }
    let ghost front = cut.subrange(lo as int, n as int);
    assert(cut.subrange(0, n as int) == cut);
    assert(strip_front(cut) == front);
    let mut hi: usize = n;
    while hi > lo && (out[hi - 1] == '.' || out[hi - 1] == ' ')
        invariant
            lo <= hi <= n <= out@.len(),
            cut == out@.take(n as int),
            strip_back(front) == strip_back(cut.subrange(lo as int, hi as int)),
        decreases hi - lo,
    {
        assert(cut.subrange(lo as int, hi as int).drop_last() =~= cut.subrange(
            lo as int,
            hi - 1,
        ));
        hi -= 1;
    }
    assert(strip_back(front) == cut.subrange(lo as int, hi as int));
    assert(out@.subrange(lo as int, hi as int) == cut.subrange(lo as int, hi as int));
    if hi == lo {
        proof {
            reveal_strlit("download");
        }
        String::from_str("download")
    } else {
        string_of_range(out.as_slice(), lo, hi)
    }
}


/// Every `%` doubled.
pub open spec fn escaped(s: Seq<char>) -> Seq<char>
    decreases s.len(),
{
    if s.len() == 0 {
        seq![]
    } else {
        escaped(s.drop_last()) + if s.last() == '%' {
            seq!['%', '%']
        } else {
            seq![s.last()]
        }
    }
}

/// How many `%` a text holds.
pub open spec fn percents(s: Seq<char>) -> nat
    decreases s.len(),
{
    if s.len() == 0 {
        0
    } else {
        percents(s.drop_last()) + if s.last() == '%' {
            1nat
        } else {
            0nat
        }
    }
}

/// Reading a template literal back, front to back: `%%` stands for `%`.
pub open spec fn unescaped(t: Seq<char>) -> Seq<char>
    decreases t.len(),
{
    if t.len() == 0 {
        seq![]
    } else if t.len() >= 2 && t[0] == '%' && t[1] == '%' {
        seq!['%'] + unescaped(t.skip(2))
    } else {
        seq![t[0]] + unescaped(t.skip(1))
    }
}

proof fn lemma_escaped_front(c: char, r: Seq<char>)
    ensures
        escaped(seq![c] + r) == (if c == '%' {
            seq!['%', '%']
        } else {
            seq![c]
        }) + escaped(r),
    decreases r.len(),
{
    let head = if c == '%' {
        seq!['%', '%']
    } else {
        seq![c]
    };
    if r.len() == 0 {
        let whole = seq![c] + r;
        assert(whole =~= seq![c]);
        assert(whole.drop_last() =~= Seq::<char>::empty());
        assert(escaped(whole) == escaped(whole.drop_last()) + head);
        assert(head + escaped(r) =~= head);
        assert(Seq::<char>::empty() + head =~= head);
    } else {
        lemma_escaped_front(c, r.drop_last());
        let whole = seq![c] + r;
        assert(whole.drop_last() =~= seq![c] + r.drop_last());
        assert(whole.last() == r.last());
        let tail = if r.last() == '%' {
            seq!['%', '%']
        } else {
            seq![r.last()]
        };
        assert(escaped(whole) == escaped(whole.drop_last()) + tail);
        assert(escaped(r) == escaped(r.drop_last()) + tail);
        assert(head + escaped(r.drop_last()) + tail =~= head + (escaped(r.drop_last()) + tail));
    }
}

/// What `escape_template` promises: every `%` is doubled, so the result is
/// longer by the number of `%`, and reading it back gives the text.
pub proof fn lemma_escape_round_trip(s: Seq<char>)
    ensures
        escaped(s).len() == s.len() + percents(s),
        unescaped(escaped(s)) == s,
    decreases s.len(),
{
    lemma_escape_round_trip_front(s);
    if s.len() > 0 {
        lemma_escape_round_trip(s.drop_last());
    }
}

proof fn lemma_escape_round_trip_front(s: Seq<char>)
    ensures
        unescaped(escaped(s)) == s,
    decreases s.len(),
{
    if s.len() > 0 {
        let c = s[0];
        let r = s.skip(1);
        assert(s =~= seq![c] + r);
        lemma_escaped_front(c, r);
        lemma_escape_round_trip_front(r);
        let e = escaped(s);
        if c == '%' {
            assert(e.skip(2) =~= escaped(r));
            assert(seq!['%'] + r =~= s);
        } else {
            assert(e.skip(1) =~= escaped(r));
            assert(seq![c] + r =~= s);
        }
    }
}

/// Escapes a literal for use inside a yt-dlp output template.
pub fn escape_template(s: &str) -> (r: String)
    ensures
        r@ == escaped(s@),
{
    let v = chars_of(s);
    let mut out = String::new();
    let mut i: usize = 0;
    while i < v.len()
        invariant
            i <= v@.len(),
            v@ == s@,
            out@ == escaped(v@.take(i as int)),
        decreases v@.len() - i,
    {
        let ghost before = v@.take(i as int);
        assert(v@.take(i + 1).drop_last() == before);
        if v[i] == '%' {
            push_char(&mut out, '%');
        }
        push_char(&mut out, v[i]);
        i += 1;
    }
    assert(v@.take(v@.len() as int) == v@);
    out
}

/// `m:ss`, or `h:mm:ss` from an hour on.
pub open spec fn eta_text(secs: nat) -> Seq<char> {
    if secs >= 3600 {
        decimal(secs / 3600) + seq![':'] + two_digits(secs / 60 % 60) + seq![':'] + two_digits(
            secs % 60,
        )
    } else {
        decimal(secs / 60) + seq![':'] + two_digits(secs % 60)
    }
}

/// Time left as the status line shows it: `1:05`, `1:02:05`.
pub fn fmt_eta(secs: u64) -> (r: String)
    ensures
        r@ == eta_text(secs as nat),
{
    let mut s = String::new();
    if secs >= 3600 {
        push_decimal(&mut s, secs / 3600);
        push_char(&mut s, ':');
        push_two_digits(&mut s, secs / 60 % 60);
        push_char(&mut s, ':');
        push_two_digits(&mut s, secs % 60);
    } else {
        push_decimal(&mut s, secs / 60);
        push_char(&mut s, ':');
        push_two_digits(&mut s, secs % 60);
    }
    s
}

/// Truncating division, as Rust's `/` on signed integers.
pub open spec fn tdiv(a: int, b: int) -> int
    recommends
        b > 0,
{
    if a >= 0 {
        a / b
    } else {
        -((-a) / b)
    }
}

/// Remainder of truncating division, as Rust's `%` on signed integers.
pub open spec fn tmod(a: int, b: int) -> int
    recommends
        b > 0,
{
    a - b * tdiv(a, b)
}

/// Days since 1970-01-01 of the proleptic Gregorian date `y-m-d`, by Howard
/// Hinnant's `days_from_civil`, in Rust's integer arithmetic.
pub open spec fn civil_days(y: int, m: int, d: int) -> int {
    let y = if m <= 2 {
        y - 1
    } else {
        y
    };
    let era = tdiv(if y >= 0 {
        y
    } else {
        y - 399
    }, 400);
    let yoe = y - era * 400;
    let mp = tmod(m + 9, 12);
    let doy = tdiv(153 * mp + 2, 5) + d - 1;
    let doe = yoe * 365 + tdiv(yoe, 4) - tdiv(yoe, 100) + doy;
    era * 146097 + doe - 719468
}

/// Largest year, month and day magnitude `days_from_civil` takes without overflow.
pub open spec fn civil_in_range(y: i64, m: i64, d: i64) -> bool {
    -1_000_000_000_000 <= y <= 1_000_000_000_000 && -1_000_000_000_000 <= m
        <= 1_000_000_000_000 && -1_000_000_000_000 <= d <= 1_000_000_000_000
}

/// Days since 1970-01-01 for a civil date (Howard Hinnant's algorithm).
pub fn days_from_civil(y: i64, m: i64, d: i64) -> (r: i64)
    requires
        civil_in_range(y, m, d),
    ensures
        r == civil_days(y as int, m as int, d as int),
        -400_000_000_000_000 <= r <= 400_000_000_000_000,
{
    let y = if m <= 2 {
        y - 1
    } else {
        y
    };
    let era = if y >= 0 {
        y
    } else {
        y - 399
    } / 400;
    assert(-2_600_000_000 <= era <= 2_600_000_000) by (nonlinear_arith)
        requires
            era == tdiv(if y >= 0 { y as int } else { y - 399 }, 400),
            -1_000_000_000_001 <= y <= 1_000_000_000_000,
    ;
    let yoe = y - era * 400;
    assert(-400 < yoe < 400) by (nonlinear_arith)
        requires
            era == tdiv(if y >= 0 { y as int } else { y - 399 }, 400),
            yoe == y - era * 400,
            -1_000_000_000_001 <= y <= 1_000_000_000_000,
    ;
    let mp = (m + 9) % 12;
    let doy = (153 * mp + 2) / 5 + d - 1;
    let doe = yoe * 365 + yoe / 4 - yoe / 100 + doy;
    assert(-379_852_200_000_000 <= era * 146_097 <= 379_852_200_000_000) by (nonlinear_arith)
        requires
            -2_600_000_000 <= era <= 2_600_000_000,
    ;
    era * 146_097 + doe - 719_468
}


/// `n / d` rounded to the nearest integer, ties to even, as `{:.N}` rounds an
/// exact value.
pub open spec fn round_half_even(n: nat, d: nat) -> nat
    recommends
        d > 0,
{
    let q = n / d;
    let r = n % d;
    if 2 * r > d || (2 * r == d && q % 2 == 1) {
        q + 1
    } else {
        q
    }
}

pub open spec fn unit_of(b: nat) -> nat {
    if b < 1024 {
        0
    } else if b < 1048576 {
        1
    } else if b < 1073741824 {
        2
    } else {
        3
    }
}

pub open spec fn unit_divisor(i: nat) -> nat {
    if i == 0 {
        1
    } else if i == 1 {
        1024
    } else if i == 2 {
        1048576
    } else {
        1073741824
    }
}

pub open spec fn unit_name(i: nat) -> Seq<char> {
    if i == 0 {
        seq!['B']
    } else if i == 1 {
        seq!['K', 'B']
    } else if i == 2 {
        seq!['M', 'B']
    } else {
        seq!['G', 'B']
    }
}

/// `b` bytes in the largest unit up to GB that keeps the number at least 1:
/// whole bytes, otherwise one decimal place (`1.5 KB`).
pub open spec fn bytes_text(b: nat) -> Seq<char> {
    let i = unit_of(b);
    if i == 0 {
        decimal(b) + seq![' ', 'B']
    } else {
        let t = round_half_even(10 * b, unit_divisor(i));
        decimal(t / 10) + seq!['.', digit(t % 10), ' '] + unit_name(i)
    }
}

/// A byte count or rate for people: `512 B`, `1.5 KB`, `3.8 MB`.
pub fn fmt_bytes(b: u64) -> (r: String)
    ensures
        r@ == bytes_text(b as nat),
{
    let mut s = String::new();
    if b < 1024 {
        push_decimal(&mut s, b);
        push_char(&mut s, ' ');
        push_char(&mut s, 'B');
        return s;
    }
    let (d, unit): (u128, &str) = if b < 1048576 {
        (1024, "KB")
    } else if b < 1073741824 {
        (1048576, "MB")
    } else {
        (1073741824, "GB")
    };
    let n = (b as u128) * 10;
    let q = n / d;
    let r = n % d;
    let t = if 2 * r > d || (2 * r == d && q % 2 == 1) {
        q + 1
    } else {
        q
    };
    assert(t / 10 <= u64::MAX) by (nonlinear_arith)
        requires
            t <= n / d + 1,
            n == b * 10,
            d >= 1024,
    ;
    push_decimal(&mut s, (t / 10) as u64);
    push_char(&mut s, '.');
    push_char(&mut s, digit_char((t % 10) as u64));
    push_char(&mut s, ' ');
    proof {
        reveal_strlit("KB");
        reveal_strlit("MB");
        reveal_strlit("GB");
    }
    push_str(&mut s, unit);
    s
}

/// `SystemTime::now`, as whole seconds since `UNIX_EPOCH`; `None` for a
/// clock set before 1970. Nothing is stated of the value: it is the time.
#[verifier::external_body]
pub(crate) fn unix_now() -> Option<u64> {
    std::time::SystemTime::now().duration_since(std::time::UNIX_EPOCH).ok().map(|d| d.as_secs())
}

/// Days since 1970-01-01 today (UTC); 0 if the clock is set before 1970.
pub fn today_days() -> (r: i64)
    ensures
        0 <= r <= 213_503_982_334_601,
{
    match unix_now() {
        Some(secs) => (secs / 86_400) as i64,
        None => 0,
    }
}

} // verus!
