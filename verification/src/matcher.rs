//! Titles made comparable: lower case, without bracketed notes, punctuation
//! and trailing decoration, and without a leading artist name.

use crate::text::{
    alnum, chars_of, drop_front_spaces, is_alphanumeric, is_space, join, join_strings,
    lower, ascii_lower, space, split_words, starts_with, string_of, string_views, views, words, words_from,
    begins_with, slice_vec,
};
use vstd::prelude::*;

verus! {

/// The characters kept outside brackets: letters, digits and white space in
/// ASCII lower case, anything else as a space; `depth` counts open brackets.
pub open spec fn unbracketed(s: Seq<char>) -> (Seq<char>, nat)
    decreases s.len(),
{
    if s.len() == 0 {
        (seq![], 0)
    } else {
        let (out, depth) = unbracketed(s.drop_last());
        let c = s.last();
        if c == '(' || c == '[' {
            (out, depth + 1)
        } else if c == ')' || c == ']' {
            (out, if depth > 0 {
                (depth - 1) as nat
            } else {
                0
            })
        } else if depth > 0 {
            (out, depth)
        } else if alnum(c) || is_space(c) {
            (out.push(lower(c)), depth)
        } else {
            (out.push(' '), depth)
        }
    }
}

/// Trailing words that only decorate a title.
pub open spec fn decoration(w: Seq<char>) -> bool {
    w == "official"@ || w == "video"@ || w == "audio"@ || w == "lyrics"@ || w == "lyric"@ || w
        == "visualizer"@ || w == "hd"@ || w == "hq"@ || w == "mv"@
}

/// The words without trailing decoration, keeping at least one.
pub open spec fn undecorated(ws: Seq<Seq<char>>) -> Seq<Seq<char>>
    decreases ws.len(),
{
    if ws.len() > 1 && decoration(ws.last()) {
        undecorated(ws.drop_last())
    } else {
        ws
    }
}

pub open spec fn normalized(s: Seq<char>) -> Seq<char> {
    join(undecorated(words(unbracketed(s).0)), " "@)
}

pub open spec fn bracket(c: char) -> bool {
    c == '(' || c == ')' || c == '[' || c == ']'
}

/// A word of a normalized title: not empty, without white space or brackets.
pub open spec fn clean_word(w: Seq<char>) -> bool {
    w.len() > 0 && forall|j: int| 0 <= j < w.len() ==> !is_space(#[trigger] w[j]) && !bracket(w[j])
}

proof fn lemma_unbracketed_clean(s: Seq<char>)
    ensures
        forall|i: int| 0 <= i < unbracketed(s).0.len() ==> !bracket(#[trigger] unbracketed(s).0[i]),
    decreases s.len(),
{
    if s.len() > 0 {
        lemma_unbracketed_clean(s.drop_last());
        let (out, depth) = unbracketed(s.drop_last());
        let r = unbracketed(s).0;
        assert forall|i: int| 0 <= i < r.len() implies !bracket(#[trigger] r[i]) by {
            if i < out.len() {
                assert(r[i] == out[i]);
            }
        }
    }
}

proof fn lemma_words_clean(s: Seq<char>, cur: Seq<char>)
    requires
        forall|i: int| 0 <= i < s.len() ==> !bracket(#[trigger] s[i]),
        forall|i: int| 0 <= i < cur.len() ==> !bracket(#[trigger] cur[i]) && !is_space(cur[i]),
    ensures
        forall|k: int| 0 <= k < words_from(s, cur).len() ==> clean_word(#[trigger] words_from(s, cur)[k]),
    decreases s.len(),
{
    if s.len() > 0 {
        let rest = s.drop_first();
        assert forall|i: int| 0 <= i < rest.len() implies !bracket(#[trigger] rest[i]) by {
            assert(rest[i] == s[i + 1]);
        }
        if is_space(s[0]) {
            lemma_words_clean(rest, seq![]);
            let head = if cur.len() > 0 {
                seq![cur]
            } else {
                seq![]
            };
            let w = words_from(s, cur);
            assert(w == head + words_from(rest, seq![]));
            assert forall|k: int| 0 <= k < w.len() implies clean_word(#[trigger] w[k]) by {
                if k >= head.len() {
                    assert(w[k] == words_from(rest, seq![])[k - head.len()]);
                }
            }
        } else {
            let c2 = cur.push(s[0]);
            assert(!bracket(s[0]));
            assert forall|i: int| 0 <= i < c2.len() implies !bracket(#[trigger] c2[i]) && !is_space(c2[i]) by {
                if i < cur.len() {
                    assert(c2[i] == cur[i]);
                }
            }
            lemma_words_clean(rest, c2);
            assert(words_from(s, cur) == words_from(rest, c2));
        }
    } else {
        let w = words_from(s, cur);
        assert forall|k: int| 0 <= k < w.len() implies clean_word(#[trigger] w[k]) by {
            assert(w[k] == cur);
            assert forall|j: int| 0 <= j < cur.len() implies !is_space(#[trigger] cur[j]) && !bracket(cur[j]) by {}
        }
    }
}

proof fn lemma_undecorated_prefix(ws: Seq<Seq<char>>)
    ensures
        undecorated(ws).len() <= ws.len(),
        forall|k: int| 0 <= k < undecorated(ws).len() ==> #[trigger] undecorated(ws)[k] == ws[k],
    decreases ws.len(),
{
    if ws.len() > 1 && decoration(ws.last()) {
        lemma_undecorated_prefix(ws.drop_last());
    }
}

proof fn lemma_join_clean(ws: Seq<Seq<char>>)
    requires
        forall|k: int| 0 <= k < ws.len() ==> clean_word(#[trigger] ws[k]),
    ensures
        ({
            let n = join(ws, " "@);
            &&& forall|i: int| 0 <= i < n.len() ==> !bracket(#[trigger] n[i])
            &&& n.len() > 0 ==> n[0] != ' ' && n.last() != ' '
            &&& forall|i: int| 0 <= i < n.len() - 1 ==> !(#[trigger] n[i] == ' ' && n[i + 1] == ' ')
        }),
    decreases ws.len(),
{
    reveal_strlit(" ");
    if ws.len() == 1 {
        assert(clean_word(ws[0]));
        assert(!is_space(ws[0][0]) && !is_space(ws[0].last()));
    } else if ws.len() > 1 {
        let p = ws.drop_last();
        assert forall|k: int| 0 <= k < p.len() implies clean_word(#[trigger] p[k]) by {
            assert(p[k] == ws[k]);
        }
        lemma_join_clean(p);
        let a = join(p, " "@);
        let l = ws.last();
        assert(clean_word(ws[ws.len() - 1]));
        let n = join(ws, " "@);
        assert(n == a + " "@ + l);
        assert(a.len() > 0) by {
            assert(clean_word(p[0]));
            lemma_join_len(p);
        }
        assert(!is_space(l[0]) && !is_space(l.last()));
        assert forall|i: int| 0 <= i < n.len() implies !bracket(#[trigger] n[i]) by {
            if i < a.len() {
                assert(n[i] == a[i]);
            } else if i == a.len() {
                assert(n[i] == ' ');
            } else {
                assert(n[i] == l[i - a.len() - 1]);
            }
        }
        assert(n[0] == a[0]);
        assert(n.last() == l.last());
        assert forall|i: int| 0 <= i < n.len() - 1 implies !(#[trigger] n[i] == ' ' && n[i + 1] == ' ') by {
            if i + 1 < a.len() {
                assert(n[i] == a[i] && n[i + 1] == a[i + 1]);
            } else if i + 1 == a.len() {
                assert(n[i] == a.last());
            } else if i == a.len() {
                assert(n[i + 1] == l[0]);
            } else {
                assert(n[i] == l[i - a.len() - 1]);
            }
        }
    }
}

proof fn lemma_join_len(ws: Seq<Seq<char>>)
    requires
        ws.len() > 0,
        ws[0].len() > 0,
    ensures
        join(ws, " "@).len() > 0,
    decreases ws.len(),
{
    if ws.len() > 1 {
        lemma_join_len(ws.drop_last());
    }
}

/// What `normalize` promises: no brackets are left, and words are single
/// spaces apart with none at either end.
pub proof fn lemma_normalized_shape(s: Seq<char>)
    ensures
        ({
            let n = normalized(s);
            &&& forall|i: int| 0 <= i < n.len() ==> !bracket(#[trigger] n[i])
            &&& n.len() > 0 ==> n[0] != ' ' && n.last() != ' '
            &&& forall|i: int| 0 <= i < n.len() - 1 ==> !(#[trigger] n[i] == ' ' && n[i + 1] == ' ')
        }),
{
    let u = unbracketed(s).0;
    lemma_unbracketed_clean(s);
    lemma_words_clean(u, seq![]);
    let ws = words(u);
    let d = undecorated(ws);
    lemma_undecorated_prefix(ws);
    assert forall|k: int| 0 <= k < d.len() implies clean_word(#[trigger] d[k]) by {
        assert(d[k] == ws[k]);
    }
    lemma_join_clean(d);
}

/// A character that normalizing keeps as it is: white space or alphanumeric,
/// and already in ASCII lower case.
pub open spec fn kept(c: char) -> bool {
    (is_space(c) || alnum(c)) && lower(c) == c
}

proof fn lemma_lower_kept(c: char)
    requires
        is_space(c) || alnum(c),
    ensures
        kept(lower(c)),
{
    if 'A' <= c <= 'Z' {
        let l = lower(c);
        assert('a' <= l <= 'z');
        assert(alnum(l));
    }
}

proof fn lemma_unbracketed_kept(s: Seq<char>)
    ensures
        forall|i: int| 0 <= i < unbracketed(s).0.len() ==> kept(#[trigger] unbracketed(s).0[i]),
    decreases s.len(),
{
    if s.len() > 0 {
        lemma_unbracketed_kept(s.drop_last());
        let out = unbracketed(s.drop_last()).0;
        let c = s.last();
        let r = unbracketed(s).0;
        if alnum(c) || is_space(c) {
            lemma_lower_kept(c);
        }
        assert(kept(' '));
        assert forall|i: int| 0 <= i < r.len() implies kept(#[trigger] r[i]) by {
            if i < out.len() {
                assert(r[i] == out[i]);
            }
        }
    }
}

proof fn lemma_words_kept(s: Seq<char>, cur: Seq<char>)
    requires
        forall|i: int| 0 <= i < s.len() ==> kept(#[trigger] s[i]),
        forall|i: int| 0 <= i < cur.len() ==> kept(#[trigger] cur[i]),
    ensures
        forall|k: int, j: int|
            0 <= k < words_from(s, cur).len() && 0 <= j < words_from(s, cur)[k].len() ==> kept(
                #[trigger] words_from(s, cur)[k][j],
            ),
    decreases s.len(),
{
    let w = words_from(s, cur);
    if s.len() > 0 {
        let rest = s.drop_first();
        assert forall|i: int| 0 <= i < rest.len() implies kept(#[trigger] rest[i]) by {
            assert(rest[i] == s[i + 1]);
        }
        if is_space(s[0]) {
            lemma_words_kept(rest, seq![]);
            let head = if cur.len() > 0 {
                seq![cur]
            } else {
                seq![]
            };
            assert(w == head + words_from(rest, seq![]));
            assert forall|k: int, j: int| 0 <= k < w.len() && 0 <= j < w[k].len() implies kept(
                #[trigger] w[k][j],
            ) by {
                if k >= head.len() {
                    assert(w[k] == words_from(rest, seq![])[k - head.len()]);
                } else {
                    assert(w[k] == cur);
                }
            }
        } else {
            let c2 = cur.push(s[0]);
            assert(kept(s[0]));
            assert forall|i: int| 0 <= i < c2.len() implies kept(#[trigger] c2[i]) by {
                if i < cur.len() {
                    assert(c2[i] == cur[i]);
                }
            }
            lemma_words_kept(rest, c2);
            assert(w == words_from(rest, c2));
        }
    } else {
        assert forall|k: int, j: int| 0 <= k < w.len() && 0 <= j < w[k].len() implies kept(
            #[trigger] w[k][j],
        ) by {
            assert(w[k] == cur);
        }
    }
}

proof fn lemma_join_kept(ws: Seq<Seq<char>>)
    requires
        forall|k: int, j: int| 0 <= k < ws.len() && 0 <= j < ws[k].len() ==> kept(#[trigger] ws[k][j]),
    ensures
        forall|i: int| 0 <= i < join(ws, " "@).len() ==> kept(#[trigger] join(ws, " "@)[i]),
    decreases ws.len(),
{
    reveal_strlit(" ");
    let n = join(ws, " "@);
    if ws.len() == 1 {
        assert forall|i: int| 0 <= i < n.len() implies kept(#[trigger] n[i]) by {
            assert(n[i] == ws[0][i]);
        }
    } else if ws.len() > 1 {
        let p = ws.drop_last();
        assert forall|k: int, j: int| 0 <= k < p.len() && 0 <= j < p[k].len() implies kept(
            #[trigger] p[k][j],
        ) by {
            assert(p[k] == ws[k]);
        }
        lemma_join_kept(p);
        let a = join(p, " "@);
        let l = ws.last();
        assert(n == a + " "@ + l);
        assert(kept(' '));
        assert forall|i: int| 0 <= i < n.len() implies kept(#[trigger] n[i]) by {
            if i < a.len() {
                assert(n[i] == a[i]);
            } else if i == a.len() {
                assert(n[i] == ' ');
            } else {
                assert(n[i] == l[i - a.len() - 1]);
                assert(ws[ws.len() - 1][i - a.len() - 1] == l[i - a.len() - 1]);
            }
        }
    }
}

proof fn lemma_unbracketed_unchanged(t: Seq<char>)
    requires
        forall|i: int| 0 <= i < t.len() ==> !bracket(#[trigger] t[i]) && kept(t[i]),
    ensures
        unbracketed(t) == (t, 0nat),
    decreases t.len(),
{
    if t.len() > 0 {
        let p = t.drop_last();
        assert forall|i: int| 0 <= i < p.len() implies !bracket(#[trigger] p[i]) && kept(p[i]) by {
            assert(p[i] == t[i]);
        }
        lemma_unbracketed_unchanged(p);
        assert(!bracket(t[t.len() - 1]) && kept(t[t.len() - 1]));
        assert(p.push(t.last()) =~= t);
    }
}

proof fn lemma_join_front(d: Seq<Seq<char>>, sep: Seq<char>)
    requires
        d.len() >= 2,
    ensures
        join(d, sep) == d[0] + (sep + join(d.drop_first(), sep)),
    decreases d.len(),
{
    if d.len() == 2 {
        assert(d.drop_last().len() == 1);
        assert(d.drop_first().len() == 1);
        assert(join(d.drop_last(), sep) == d.drop_last()[0]);
        assert(d.drop_last()[0] == d[0]);
        assert(join(d, sep) == d[0] + sep + d[1]);
        assert(join(d.drop_first(), sep) == d[1]);
        assert(d[0] + sep + d[1] =~= d[0] + (sep + d[1]));
    } else {
        let p = d.drop_last();
        lemma_join_front(p, sep);
        let q = d.drop_first();
        assert(p.drop_first() =~= q.drop_last());
        assert(q.last() == d.last());
        let jq = join(q.drop_last(), sep);
        assert(join(q, sep) == jq + sep + q.last());
        assert(join(d, sep) == d[0] + (sep + jq) + sep + d.last());
        assert(d[0] + (sep + jq) + sep + d.last() =~= d[0] + (sep + (jq + sep + d.last())));
    }
}

proof fn lemma_words_glue(a: Seq<char>, b: Seq<char>, cur: Seq<char>)
    requires
        forall|i: int| 0 <= i < a.len() ==> !is_space(#[trigger] a[i]),
    ensures
        words_from(a + b, cur) == words_from(b, cur + a),
    decreases a.len(),
{
    if a.len() == 0 {
        assert(a + b =~= b);
        assert(cur + a =~= cur);
    } else {
        let r = a.drop_first();
        assert forall|i: int| 0 <= i < r.len() implies !is_space(#[trigger] r[i]) by {
            assert(r[i] == a[i + 1]);
        }
        lemma_words_glue(r, b, cur.push(a[0]));
        assert((a + b)[0] == a[0]);
        assert((a + b).drop_first() =~= r + b);
        assert(cur.push(a[0]) + r =~= cur + a);
    }
}

proof fn lemma_words_of_join(d: Seq<Seq<char>>)
    requires
        forall|k: int| 0 <= k < d.len() ==> clean_word(#[trigger] d[k]),
    ensures
        words(join(d, " "@)) == d,
    decreases d.len(),
{
    reveal_strlit(" ");
    if d.len() == 0 {
        assert(words_from(seq![], seq![]) == Seq::<Seq<char>>::empty());
        assert(d =~= Seq::<Seq<char>>::empty());
    } else {
        let w = d[0];
        assert(clean_word(w));
        assert forall|i: int| 0 <= i < w.len() implies !is_space(#[trigger] w[i]) by {}
        if d.len() == 1 {
            lemma_words_glue(w, seq![], seq![]);
            assert(w + Seq::<char>::empty() =~= w);
            assert(Seq::<char>::empty() + w =~= w);
            assert(words_from(seq![], w) == seq![w]);
            assert(d =~= seq![w]);
        } else {
            let q = d.drop_first();
            assert forall|k: int| 0 <= k < q.len() implies clean_word(#[trigger] q[k]) by {
                assert(q[k] == d[k + 1]);
            }
            lemma_words_of_join(q);
            lemma_join_front(d, " "@);
            let x = " "@ + join(q, " "@);
            lemma_words_glue(w, x, seq![]);
            assert(Seq::<char>::empty() + w =~= w);
            assert(x[0] == ' ');
            assert(x.drop_first() =~= join(q, " "@));
            assert(words_from(x, w) == seq![w] + words_from(join(q, " "@), seq![]));
            assert(d =~= seq![w] + q);
        }
    }
}

proof fn lemma_undecorated_settles(ws: Seq<Seq<char>>)
    ensures
        undecorated(undecorated(ws)) == undecorated(ws),
    decreases ws.len(),
{
    if ws.len() > 1 && decoration(ws.last()) {
        lemma_undecorated_settles(ws.drop_last());
    }
}

/// Normalizing a normalized title changes nothing.
pub proof fn lemma_normalize_idempotent(s: Seq<char>)
    ensures
        normalized(normalized(s)) == normalized(s),
{
    let u = unbracketed(s).0;
    lemma_unbracketed_clean(s);
    lemma_unbracketed_kept(s);
    lemma_words_clean(u, seq![]);
    lemma_words_kept(u, seq![]);
    let ws = words(u);
    let d = undecorated(ws);
    lemma_undecorated_prefix(ws);
    assert forall|k: int| 0 <= k < d.len() implies clean_word(#[trigger] d[k]) by {
        assert(d[k] == ws[k]);
    }
    assert forall|k: int, j: int| 0 <= k < d.len() && 0 <= j < d[k].len() implies kept(#[trigger] d[k][j]) by {
        assert(d[k] == ws[k]);
    }
    let n = join(d, " "@);
    lemma_join_clean(d);
    lemma_join_kept(d);
    lemma_unbracketed_unchanged(n);
    lemma_words_of_join(d);
    lemma_undecorated_settles(ws);
}

fn is_decoration(w: &[char]) -> (b: bool)
    ensures
        b == decoration(w@),
{
    crate::text::same_chars(w, "official") || crate::text::same_chars(w, "video")
        || crate::text::same_chars(w, "audio") || crate::text::same_chars(w, "lyrics")
        || crate::text::same_chars(w, "lyric") || crate::text::same_chars(w, "visualizer")
        || crate::text::same_chars(w, "hd") || crate::text::same_chars(w, "hq")
        || crate::text::same_chars(w, "mv")
}

/// Lowercases, drops bracketed noise and punctuation.
pub fn normalize(s: &str) -> (r: String)
    ensures
        r@ == normalized(s@),
{
    let v = chars_of(s);
    let mut out: Vec<char> = Vec::new();
    let mut depth: usize = 0;
    let mut i: usize = 0;
    while i < v.len()
        invariant
            i <= v@.len(),
            v@ == s@,
            depth <= i,
            (out@, depth as nat) == unbracketed(v@.take(i as int)),
        decreases v@.len() - i,
    {
        let c = v[i];
        proof {
            assert(v@.take(i + 1).drop_last() =~= v@.take(i as int));
            assert(v@.take(i + 1).last() == c);
        }
        if c == '(' || c == '[' {
            depth += 1;
        } else if c == ')' || c == ']' {
            depth = if depth > 0 {
                depth - 1
            } else {
                0
            };
        } else if depth > 0 {
        } else if is_alphanumeric(c) || space(c) {
            out.push(ascii_lower(c));
        } else {
            out.push(' ');
        }
        i += 1;
    }
    assert(v@.take(v@.len() as int) == v@);
    let text = string_of(out.as_slice());
    let ws = split_words(text.as_str());
    let mut n = ws.len();
    assert(views(ws@).take(n as int) == views(ws@));
    while n > 1 && is_decoration(ws[n - 1].as_slice())
        invariant
            n <= ws@.len(),
            undecorated(views(ws@)) == undecorated(views(ws@).take(n as int)),
        decreases n,
    {
        proof {
            assert(views(ws@).take(n as int).drop_last() =~= views(ws@).take(n - 1));
            assert(views(ws@).take(n as int).last() == ws@[n - 1]@);
        }
        n -= 1;
    }
    assert(undecorated(views(ws@).take(n as int)) == views(ws@).take(n as int)) by {
        if n > 1 {
            assert(views(ws@).take(n as int).last() == ws@[n - 1]@);
        }
    }
    let mut parts: Vec<String> = Vec::new();
    let mut k: usize = 0;
    while k < n
        invariant
            k <= n <= ws@.len(),
            string_views(parts@) == views(ws@).take(k as int),
        decreases n - k,
    {
        let ghost before = string_views(parts@);
        parts.push(string_of(ws[k].as_slice()));
        assert(string_views(parts@) =~= before.push(ws@[k as int]@));
        assert(views(ws@).take(k + 1) =~= views(ws@).take(k as int).push(ws@[k as int]@));
        k += 1;
    }
    proof {
        assert(views(ws@).take(ws@.len() as int) == views(ws@));
    }
    join_strings(parts.as_slice(), " ")
}

/// A title without a leading artist name: the first artist whose
/// normalized, non-empty name starts the title is cut off, with the white
/// space after it.
pub open spec fn without_artist(title: Seq<char>, artists: Seq<Seq<char>>) -> Seq<char>
    decreases artists.len(),
{
    if artists.len() == 0 {
        title
    } else {
        let a = normalized(artists[0]);
        if a.len() > 0 && starts_with(title, a) {
            drop_front_spaces(title.skip(a.len() as int))
        } else {
            without_artist(title, artists.drop_first())
        }
    }
}

/// Title without a leading "artist - " prefix.
pub fn strip_artist(title: &str, artists: &[String]) -> (r: String)
    ensures
        r@ == without_artist(title@, string_views(artists@)),
{
    let t = chars_of(title);
    let mut i: usize = 0;
    assert(string_views(artists@).skip(0) == string_views(artists@));
    while i < artists.len()
        invariant
            i <= artists@.len(),
            t@ == title@,
            without_artist(title@, string_views(artists@)) == without_artist(
                title@,
                string_views(artists@).skip(i as int),
            ),
        decreases artists@.len() - i,
    {
        assert(string_views(artists@).skip(i as int)[0] == artists@[i as int]@);
        assert(string_views(artists@).skip(i as int).drop_first() =~= string_views(artists@).skip(i + 1));
        let a = normalize(artists[i].as_str());
        let av = chars_of(a.as_str());
        if av.len() > 0 && begins_with(t.as_slice(), av.as_slice()) {
            let rest = slice_vec(t.as_slice(), av.len(), t.len());
            let (lo, _) = crate::text::trim_front(rest.as_slice());
            return crate::text::string_of_range(rest.as_slice(), lo, rest.len());
        }
        i += 1;
    }
    string_of(t.as_slice())
}

} // verus!
