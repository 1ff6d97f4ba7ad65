//! Character-level building blocks shared by the other modules: the Unicode
//! classes the library relies on (white space, control characters), ASCII
//! case, decimal numbers, and trimming.

use vstd::prelude::*;

verus! {

/// `String::push`: appends one character. Stated: the text grows by exactly
/// that character.
#[verifier::external_body]
pub(crate) fn push_char(s: &mut String, c: char)
    ensures
        final(s)@ == old(s)@.push(c),
{
    s.push(c);
}

/// `String::push_str`: appends a string slice. Stated: the text grows by
/// exactly those characters.
#[verifier::external_body]
pub(crate) fn push_str(s: &mut String, t: &str)
    ensures
        final(s)@ == old(s)@ + t@,
{
    s.push_str(t);
}

/// The characters of `s`, in order.
pub fn chars_of(s: &str) -> (v: Vec<char>)
    ensures
        v@ == s@,
{
    let mut v: Vec<char> = Vec::new();
    for c in it: s.chars()
        invariant
            v@ == it.seq().take(it.index() as int),
    {
        v.push(c);
    }
    v
}

/// A string holding exactly the characters of `v`.
pub fn string_of(v: &[char]) -> (s: String)
    ensures
        s@ == v@,
{
    let mut s = String::new();
    let mut i: usize = 0;
    while i < v.len()
        invariant
            i <= v@.len(),
            s@ == v@.take(i as int),
        decreases v@.len() - i,
    {
        push_char(&mut s, v[i]);
        i += 1;
        assert(v@.take(i as int) == v@.take(i - 1).push(v@[i - 1]));
    }
    assert(v@.take(v@.len() as int) == v@);
    s
}

/// A string holding `s[lo..hi]`, counted in characters.
pub fn string_of_range(v: &[char], lo: usize, hi: usize) -> (s: String)
    requires
        lo <= hi <= v@.len(),
    ensures
        s@ == v@.subrange(lo as int, hi as int),
{
    let mut s = String::new();
    let mut i: usize = lo;
    while i < hi
        invariant
            lo <= i <= hi <= v@.len(),
            s@ == v@.subrange(lo as int, i as int),
        decreases hi - i,
    {
        push_char(&mut s, v[i]);
        i += 1;
        assert(v@.subrange(lo as int, i as int) == v@.subrange(lo as int, i - 1).push(v@[i - 1]));
    }
    s
}

/// Unicode `White_Space`, the class `char::is_whitespace` tests.
pub open spec fn is_space(c: char) -> bool {
    let u = c as u32;
    (0x09 <= u <= 0x0d) || u == 0x20 || u == 0x85 || u == 0xa0 || u == 0x1680 || (0x2000 <= u
        <= 0x200a) || u == 0x2028 || u == 0x2029 || u == 0x202f || u == 0x205f || u == 0x3000
}

/// Unicode general category `Cc`, the class `char::is_control` tests.
pub open spec fn is_control(c: char) -> bool {
    let u = c as u32;
    u <= 0x1f || (0x7f <= u <= 0x9f)
}

pub fn space(c: char) -> (b: bool)
    ensures
        b == is_space(c),
{
    let u = c as u32;
    (0x09 <= u && u <= 0x0d) || u == 0x20 || u == 0x85 || u == 0xa0 || u == 0x1680 || (0x2000
        <= u && u <= 0x200a) || u == 0x2028 || u == 0x2029 || u == 0x202f || u == 0x205f || u
        == 0x3000
}

pub fn control(c: char) -> (b: bool)
    ensures
        b == is_control(c),
{
    let u = c as u32;
    u <= 0x1f || (0x7f <= u && u <= 0x9f)
}

/// `char::to_ascii_lowercase`: `A`–`Z` become `a`–`z`, everything else stays.
pub open spec fn lower(c: char) -> char {
    if 'A' <= c <= 'Z' {
        ((c as u32) + 32) as char
    } else {
        c
    }
}

pub open spec fn lower_all(s: Seq<char>) -> Seq<char> {
    s.map_values(|c: char| lower(c))
}

pub fn ascii_lower(c: char) -> (r: char)
    ensures
        r == lower(c),
{
    if 'A' <= c && c <= 'Z' {
        let u = (c as u32) + 32;
        assert(0x61 <= u <= 0x7a);
        char_from(u)
    } else {
        c
    }
}

/// `char::from_u32` for a code point below the surrogates, where it always
/// gives the character. Stated: the character has that code point.
#[verifier::external_body]
fn char_from(u: u32) -> (c: char)
    requires
        u < 0xd800,
    ensures
        c == u as char,
        c as u32 == u,
{
    char::from_u32(u).unwrap()
}

/// `s` in ASCII lower case, as `str::to_ascii_lowercase` gives it.
pub fn ascii_lowercase(s: &str) -> (r: Vec<char>)
    ensures
        r@ == lower_all(s@),
{
    let v = chars_of(s);
    let mut out: Vec<char> = Vec::new();
    let mut i: usize = 0;
    while i < v.len()
        invariant
            i <= v@.len(),
            v@ == s@,
            out@ == lower_all(v@.take(i as int)),
        decreases v@.len() - i,
    {
        out.push(ascii_lower(v[i]));
        i += 1;
        assert(lower_all(v@.take(i as int)) == lower_all(v@.take(i - 1)).push(lower(v@[i - 1])));
    }
    assert(v@.take(v@.len() as int) == v@);
    out
}

pub open spec fn digit(n: nat) -> char
    recommends
        n < 10,
{
    ((n + 48) as u32) as char
}

/// `n` in decimal, as `{}` prints an unsigned integer.
pub open spec fn decimal(n: nat) -> Seq<char>
    decreases n,
{
    if n < 10 {
        seq![digit(n)]
    } else {
        decimal(n / 10).push(digit(n % 10))
    }
}

/// `n` in decimal with at least two digits, as `{:02}` prints it.
pub open spec fn two_digits(n: nat) -> Seq<char> {
    if n < 10 {
        seq!['0', digit(n)]
    } else {
        decimal(n)
    }
}

pub fn digit_char(n: u64) -> (c: char)
    requires
        n < 10,
    ensures
        c == digit(n as nat),
{
    char_from((n + 48) as u32)
}

/// Appends `n` in decimal.
pub fn push_decimal(s: &mut String, n: u64)
    ensures
        final(s)@ == old(s)@ + decimal(n as nat),
    decreases n,
{
    if n >= 10 {
        push_decimal(s, n / 10);
    }
    push_char(s, digit_char(n % 10));
}

/// `n` in decimal.
pub fn decimal_string(n: u64) -> (s: String)
    ensures
        s@ == decimal(n as nat),
{
    let mut s = String::new();
    push_decimal(&mut s, n);
    s
}

/// Appends `n` with at least two digits.
pub fn push_two_digits(s: &mut String, n: u64)
    ensures
        final(s)@ == old(s)@ + two_digits(n as nat),
{
    if n < 10 {
        push_char(s, '0');
        push_char(s, digit_char(n));
    } else {
        push_decimal(s, n);
    }
}


/// `p` occurs in `s` at index `i`.
pub open spec fn occurs_at(s: Seq<char>, p: Seq<char>, i: int) -> bool {
    0 <= i && i + p.len() <= s.len() && s.subrange(i, i + p.len()) == p
}

/// First index at or after `i` where `p` occurs in `s`.
pub open spec fn find_from(s: Seq<char>, p: Seq<char>, i: int) -> Option<int>
    decreases s.len() + 1 - i,
{
    if i < 0 || i + p.len() > s.len() {
        None
    } else if occurs_at(s, p, i) {
        Some(i)
    } else {
        find_from(s, p, i + 1)
    }
}

/// First index where `p` occurs in `s`, as `str::find` gives it.
pub open spec fn find(s: Seq<char>, p: Seq<char>) -> Option<int> {
    find_from(s, p, 0)
}

pub open spec fn contains(s: Seq<char>, p: Seq<char>) -> bool {
    find(s, p) is Some
}

pub open spec fn starts_with(s: Seq<char>, p: Seq<char>) -> bool {
    p.len() <= s.len() && s.take(p.len() as int) == p
}

pub open spec fn ends_with(s: Seq<char>, p: Seq<char>) -> bool {
    p.len() <= s.len() && s.skip(s.len() - p.len()) == p
}

/// `str::split_once`: the parts before and after the first `p`.
pub open spec fn split_once(s: Seq<char>, p: Seq<char>) -> Option<(Seq<char>, Seq<char>)> {
    match find(s, p) {
        Some(i) => Some((s.take(i), s.skip(i + p.len()))),
        None => None,
    }
}

/// Whatever follows the first `p`, or all of `s` without one.
pub open spec fn after_first(s: Seq<char>, p: Seq<char>) -> Seq<char> {
    match split_once(s, p) {
        Some((_, r)) => r,
        None => s,
    }
}

proof fn lemma_find_from_bounds(s: Seq<char>, p: Seq<char>, i: int)
    ensures
        find_from(s, p, i) matches Some(k) ==> i <= k && occurs_at(s, p, k),
    decreases s.len() + 1 - i,
{
    if !(i < 0 || i + p.len() > s.len()) && !occurs_at(s, p, i) {
        lemma_find_from_bounds(s, p, i + 1);
    }
}

pub proof fn lemma_find_bounds(s: Seq<char>, p: Seq<char>)
    ensures
        find(s, p) matches Some(k) ==> 0 <= k && k + p.len() <= s.len() && s.subrange(
            k,
            k + p.len(),
        ) == p,
{
    lemma_find_from_bounds(s, p, 0);
}

/// Whether `p` occurs in `s` at `i`.
pub fn matches_at(s: &[char], p: &[char], i: usize) -> (b: bool)
    ensures
        b == occurs_at(s@, p@, i as int),
{
    if i > s.len() || p.len() > s.len() - i {
        return false;
    }
    let mut k: usize = 0;
    while k < p.len()
        invariant
            i + p@.len() <= s@.len(),
            s@.len() <= usize::MAX,
            k <= p@.len(),
            forall|j: int| 0 <= j < k ==> s@[i + j] == p@[j],
        decreases p@.len() - k,
    {
        if s[i + k] != p[k] {
            assert(s@.subrange(i as int, i + p@.len())[k as int] != p@[k as int]);
            return false;
        }
        k += 1;
    }
    assert(s@.subrange(i as int, i + p@.len()) =~= p@);
    true
}

/// First index of `p` in `s`.
pub fn find_in(s: &[char], p: &[char]) -> (r: Option<usize>)
    ensures
        r matches Some(k) ==> find(s@, p@) == Some(k as int),
        r is None ==> find(s@, p@) is None,
{
    if p.len() > s.len() {
        return None;
    }
    let last = s.len() - p.len();
    let mut i: usize = 0;
    loop
        invariant
            p@.len() <= s@.len(),
            last == s@.len() - p@.len(),
            i <= last,
            find(s@, p@) == find_from(s@, p@, i as int),
        decreases last - i,
    {
        if matches_at(s, p, i) {
            return Some(i);
        }
        if i == last {
            assert(find_from(s@, p@, i + 1) is None);
            return None;
        }
        i += 1;
    }
}

pub fn has(s: &[char], p: &[char]) -> (b: bool)
    ensures
        b == contains(s@, p@),
{
    find_in(s, p).is_some()
}

pub fn begins_with(s: &[char], p: &[char]) -> (b: bool)
    ensures
        b == starts_with(s@, p@),
{
    let b = matches_at(s, p, 0);
    assert(b ==> s@.take(p@.len() as int) == s@.subrange(0, p@.len() as int));
    assert(starts_with(s@, p@) ==> s@.subrange(0, p@.len() as int) == s@.take(p@.len() as int));
    b
}

pub fn finishes_with(s: &[char], p: &[char]) -> (b: bool)
    ensures
        b == ends_with(s@, p@),
{
    if p.len() > s.len() {
        return false;
    }
    let b = matches_at(s, p, s.len() - p.len());
    assert(s@.subrange(s@.len() - p@.len(), s@.len() as int) == s@.skip(s@.len() - p@.len()));
    b
}

/// `s[lo..hi]` as a vector.
pub fn slice_vec(s: &[char], lo: usize, hi: usize) -> (r: Vec<char>)
    requires
        lo <= hi <= s@.len(),
    ensures
        r@ == s@.subrange(lo as int, hi as int),
{
    let mut r: Vec<char> = Vec::new();
    let mut i = lo;
    while i < hi
        invariant
            lo <= i <= hi <= s@.len(),
            r@ == s@.subrange(lo as int, i as int),
        decreases hi - i,
    {
        r.push(s[i]);
        i += 1;
        assert(r@ =~= s@.subrange(lo as int, i as int));
    }
    r
}

/// What follows the first `p` in `s`, or all of `s`.
pub fn after(s: &[char], p: &[char]) -> (r: Vec<char>)
    ensures
        r@ == after_first(s@, p@),
{
    proof {
        lemma_find_bounds(s@, p@);
    }
    match find_in(s, p) {
        Some(i) => {
            assert(find(s@, p@) == Some(i as int));
            let n = s.len();
            assert(i + p@.len() <= n);
            slice_vec(s, i + p.len(), n)
        },
        None => slice_vec(s, 0, s.len()),
    }
}

/// White space removed from both ends, as `str::trim` does.
pub open spec fn trim_spaces(s: Seq<char>) -> Seq<char> {
    drop_back_spaces(drop_front_spaces(s))
}

pub open spec fn drop_front_spaces(s: Seq<char>) -> Seq<char>
    decreases s.len(),
{
    if s.len() > 0 && is_space(s[0]) {
        drop_front_spaces(s.drop_first())
    } else {
        s
    }
}

pub open spec fn drop_back_spaces(s: Seq<char>) -> Seq<char>
    decreases s.len(),
{
    if s.len() > 0 && is_space(s.last()) {
        drop_back_spaces(s.drop_last())
    } else {
        s
    }
}

/// Bounds of `trim_spaces(s)` inside `s`.
pub fn trim_bounds(s: &[char]) -> (r: (usize, usize))
    ensures
        r.0 <= r.1 <= s@.len(),
        trim_spaces(s@) == s@.subrange(r.0 as int, r.1 as int),
{
    let n = s.len();
    let mut lo: usize = 0;
    assert(s@.subrange(0, n as int) == s@);
    while lo < n && space(s[lo])
        invariant
            lo <= n == s@.len(),
            drop_front_spaces(s@) == drop_front_spaces(s@.subrange(lo as int, n as int)),
        decreases n - lo,
    {
        assert(s@.subrange(lo as int, n as int).drop_first() =~= s@.subrange(lo + 1, n as int));
        lo += 1;
    }
    let ghost front = s@.subrange(lo as int, n as int);
    let mut hi: usize = n;
    while hi > lo && space(s[hi - 1])
        invariant
            lo <= hi <= n == s@.len(),
            drop_back_spaces(front) == drop_back_spaces(s@.subrange(lo as int, hi as int)),
        decreases hi - lo,
    {
        assert(s@.subrange(lo as int, hi as int).drop_last() =~= s@.subrange(lo as int, hi - 1));
        hi -= 1;
    }
    (lo, hi)
}

/// `str::trim`, as characters.
pub fn trimmed(s: &str) -> (r: Vec<char>)
    ensures
        r@ == trim_spaces(s@),
{
    let v = chars_of(s);
    let (lo, hi) = trim_bounds(v.as_slice());
    slice_vec(v.as_slice(), lo, hi)
}

/// The words of `s`: maximal runs without white space, as `split_whitespace`
/// yields them. `cur` is the word begun so far.
pub open spec fn words_from(s: Seq<char>, cur: Seq<char>) -> Seq<Seq<char>>
    decreases s.len(),
{
    if s.len() == 0 {
        if cur.len() > 0 {
            seq![cur]
        } else {
            seq![]
        }
    } else if is_space(s[0]) {
        (if cur.len() > 0 {
            seq![cur]
        } else {
            seq![]
        }) + words_from(s.drop_first(), seq![])
    } else {
        words_from(s.drop_first(), cur.push(s[0]))
    }
}

pub open spec fn words(s: Seq<char>) -> Seq<Seq<char>> {
    words_from(s, seq![])
}

/// The characters of each vector.
pub open spec fn views(v: Seq<Vec<char>>) -> Seq<Seq<char>> {
    v.map_values(|w: Vec<char>| w@)
}

/// `str::split_whitespace`.
pub fn split_words(s: &str) -> (r: Vec<Vec<char>>)
    ensures
        views(r@) == words(s@),
{
    let v = chars_of(s);
    let mut out: Vec<Vec<char>> = Vec::new();
    let mut cur: Vec<char> = Vec::new();
    let mut i: usize = 0;
    assert(v@.skip(0) == v@);
    while i < v.len()
        invariant
            i <= v@.len(),
            v@ == s@,
            views(out@) + words_from(v@.skip(i as int), cur@) == words(s@),
        decreases v@.len() - i,
    {
        assert(v@.skip(i as int).drop_first() == v@.skip(i + 1));
        let c = v[i];
        if space(c) {
            if cur.len() > 0 {
                let ghost before = views(out@);
                let w = cur;
                out.push(w);
                assert(views(out@) =~= before.push(w@));
                cur = Vec::new();
            } else {
                cur = Vec::new();
            }
        } else {
            cur.push(c);
        }
        i += 1;
    }
    if cur.len() > 0 {
        let ghost before = views(out@);
        let w = cur;
        out.push(w);
        assert(views(out@) =~= before.push(w@));
    }
    out
}


/// Length of the longest prefix of `s` none of whose characters is in `stop`.
pub open spec fn until_len(s: Seq<char>, stop: Seq<char>) -> nat
    decreases s.len(),
{
    if s.len() == 0 || stop.contains(s[0]) {
        0
    } else {
        1 + until_len(s.drop_first(), stop)
    }
}

/// `s` up to the first character in `stop`, as `split(stop).next()` gives it.
pub open spec fn until(s: Seq<char>, stop: Seq<char>) -> Seq<char> {
    s.take(until_len(s, stop) as int)
}

proof fn lemma_until_len(s: Seq<char>, stop: Seq<char>, i: int)
    requires
        0 <= i <= s.len(),
        forall|k: int| 0 <= k < i ==> !stop.contains(#[trigger] s[k]),
    ensures
        until_len(s, stop) == i + until_len(s.skip(i), stop),
    decreases i,
{
    if i > 0 {
        lemma_until_len(s.drop_first(), stop, i - 1);
        assert(s.drop_first().skip(i - 1) == s.skip(i));
    } else {
        assert(s.skip(0) == s);
    }
}

/// Index of the first character of `s` that is in `stop`, or `s.len()`.
pub fn until_index(s: &[char], stop: &[char]) -> (r: usize)
    ensures
        r == until_len(s@, stop@),
        r <= s@.len(),
{
    let mut i: usize = 0;
    while i < s.len()
        invariant
            i <= s@.len(),
            forall|k: int| 0 <= k < i ==> !stop@.contains(#[trigger] s@[k]),
        decreases s@.len() - i,
    {
        let mut j: usize = 0;
        let mut hit = false;
        while j < stop.len()
            invariant
                i < s@.len(),
                j <= stop@.len(),
                hit == exists|k: int| 0 <= k < j && stop@[k] == s@[i as int],
            decreases stop@.len() - j,
        {
            if stop[j] == s[i] {
                hit = true;
            }
            j += 1;
        }
        if hit {
            proof {
                lemma_until_len(s@, stop@, i as int);
                assert(stop@.contains(s@.skip(i as int)[0]));
            }
            return i;
        }
        i += 1;
    }
    proof {
        lemma_until_len(s@, stop@, i as int);
    }
    i
}

/// What follows the last `c` in `s`, or all of `s`, as `rsplit(c).next()`
/// gives it.
pub open spec fn after_last(s: Seq<char>, c: char) -> Seq<char>
    decreases s.len(),
{
    if s.len() == 0 {
        s
    } else if s.last() == c {
        seq![]
    } else {
        after_last(s.drop_last(), c).push(s.last())
    }
}

pub fn after_last_index(s: &[char], c: char) -> (r: usize)
    ensures
        r <= s@.len(),
        after_last(s@, c) == s@.skip(r as int),
{
    let mut i: usize = s.len();
    assert(s@.subrange(0, i as int) == s@);
    while i > 0 && s[i - 1] != c
        invariant
            i <= s@.len(),
            after_last(s@, c) == after_last(s@.subrange(0, i as int), c) + s@.skip(i as int),
        decreases i,
    {
        assert(s@.subrange(0, i as int).drop_last() == s@.subrange(0, i - 1));
        assert(s@.skip(i - 1) == seq![s@[i - 1]] + s@.skip(i as int));
        i -= 1;
    }
    assert(s@.subrange(0, i as int).len() == 0 || s@.subrange(0, i as int).last() == c);
    i
}


pub open spec fn drop_front_in(s: Seq<char>, set: Seq<char>) -> Seq<char>
    decreases s.len(),
{
    if s.len() > 0 && set.contains(s[0]) {
        drop_front_in(s.drop_first(), set)
    } else {
        s
    }
}

pub open spec fn drop_back_in(s: Seq<char>, set: Seq<char>) -> Seq<char>
    decreases s.len(),
{
    if s.len() > 0 && set.contains(s.last()) {
        drop_back_in(s.drop_last(), set)
    } else {
        s
    }
}

/// Characters of `set` removed from both ends, as `trim_matches` does.
pub open spec fn trim_in(s: Seq<char>, set: Seq<char>) -> Seq<char> {
    drop_back_in(drop_front_in(s, set), set)
}

pub fn in_set(c: char, set: &[char]) -> (b: bool)
    ensures
        b == set@.contains(c),
{
    let mut j: usize = 0;
    while j < set.len()
        invariant
            j <= set@.len(),
            forall|k: int| 0 <= k < j ==> set@[k] != c,
        decreases set@.len() - j,
    {
        if set[j] == c {
            assert(set@[j as int] == c);
            return true;
        }
        j += 1;
    }
    false
}

/// `trim_in(s, set)`, as a vector.
pub fn trim_set(s: &[char], set: &[char]) -> (r: Vec<char>)
    ensures
        r@ == trim_in(s@, set@),
{
    let n = s.len();
    let mut lo: usize = 0;
    assert(s@.subrange(0, n as int) == s@);
    while lo < n && in_set(s[lo], set)
        invariant
            lo <= n == s@.len(),
            drop_front_in(s@, set@) == drop_front_in(s@.subrange(lo as int, n as int), set@),
        decreases n - lo,
    {
        assert(s@.subrange(lo as int, n as int).drop_first() =~= s@.subrange(lo + 1, n as int));
        lo += 1;
    }
    let ghost front = s@.subrange(lo as int, n as int);
    let mut hi: usize = n;
    while hi > lo && in_set(s[hi - 1], set)
        invariant
            lo <= hi <= n == s@.len(),
            drop_back_in(front, set@) == drop_back_in(s@.subrange(lo as int, hi as int), set@),
        decreases hi - lo,
    {
        assert(s@.subrange(lo as int, hi as int).drop_last() =~= s@.subrange(lo as int, hi - 1));
        hi -= 1;
    }
    slice_vec(s, lo, hi)
}


pub open spec fn is_digit(c: char) -> bool {
    '0' <= c <= '9'
}

pub open spec fn all_digits(s: Seq<char>) -> bool {
    forall|i: int| 0 <= i < s.len() ==> is_digit(#[trigger] s[i])
}

/// Value of a string of decimal digits.
pub open spec fn digits_value(s: Seq<char>) -> nat
    decreases s.len(),
{
    if s.len() == 0 {
        0
    } else {
        digits_value(s.drop_last()) * 10 + ((s.last() as u32) - 48) as nat
    }
}

/// The number `str::parse` reads from `s` for an unsigned integer type: an
/// optional `+`, then at least one decimal digit. The caller compares the
/// value against the type's maximum.
pub open spec fn parsed_nat(s: Seq<char>) -> Option<nat> {
    let d = if s.len() > 0 && s[0] == '+' {
        s.drop_first()
    } else {
        s
    };
    if d.len() > 0 && all_digits(d) {
        Some(digits_value(d))
    } else {
        None
    }
}

/// `str::parse::<u64>()`.
pub open spec fn parsed_u64(s: Seq<char>) -> Option<u64> {
    match parsed_nat(s) {
        Some(n) => if n <= u64::MAX {
            Some(n as u64)
        } else {
            None
        },
        None => None,
    }
}

proof fn lemma_digits_value_step(s: Seq<char>, i: int)
    requires
        0 <= i < s.len(),
    ensures
        digits_value(s.take(i + 1)) == digits_value(s.take(i)) * 10 + ((s[i] as u32) - 48) as nat,
{
    assert(s.take(i + 1).drop_last() == s.take(i));
}

proof fn lemma_digits_value_grows(s: Seq<char>, i: int, j: int)
    requires
        0 <= i <= j <= s.len(),
        all_digits(s),
    ensures
        digits_value(s.take(i)) <= digits_value(s.take(j)),
    decreases j - i,
{
    if i < j {
        lemma_digits_value_grows(s, i, j - 1);
        lemma_digits_value_step(s, j - 1);
    }
}

/// `str::parse::<u64>()` on characters.
pub fn parse_u64(s: &[char]) -> (r: Option<u64>)
    ensures
        r == parsed_u64(s@),
{
    let start: usize = if s.len() > 0 && s[0] == '+' {
        1
    } else {
        0
    };
    let ghost d = if s@.len() > 0 && s@[0] == '+' {
        s@.drop_first()
    } else {
        s@
    };
    assert(d == s@.skip(start as int));
    if start >= s.len() {
        return None;
    }
    let mut v: u64 = 0;
    let mut i: usize = start;
    while i < s.len()
        invariant
            start <= i <= s@.len(),
            start < s@.len(),
            d == s@.skip(start as int),
            d.len() > 0,
            parsed_nat(s@) == (if all_digits(d) { Some(digits_value(d)) } else { None::<nat> }),
            all_digits(d.take(i - start)),
            v as nat == digits_value(d.take(i - start)),
        decreases s@.len() - i,
    {
        let c = s[i];
        if !('0' <= c && c <= '9') {
            assert(d[i - start] == c);
            assert(!is_digit(d[i - start]));
            assert(!all_digits(d));
            return None;
        }
        proof {
            lemma_digits_value_step(d, i - start);
            assert(d.take(i - start + 1).drop_last() == d.take(i - start));
        }
        let dv = (c as u32 - 48) as u64;
        if v > (u64::MAX - dv) / 10 {
            proof {
                let k = i - start;
                assert(dv == ((d[k] as u32) - 48) as nat);
                assert(v * 10 + dv > u64::MAX) by (nonlinear_arith)
                    requires
                        v > (u64::MAX - dv) / 10,
                        dv <= 9,
                ;
                assert(digits_value(d.take(k + 1)) > u64::MAX);
                if all_digits(d) {
                    lemma_digits_value_grows(d, k + 1, d.len() as int);
                    assert(d.take(d.len() as int) == d);
                }
            }
            return None;
        }
        v = v * 10 + dv;
        i += 1;
    }
    assert(d.take(d.len() as int) == d);
    Some(v)
}

} // verus!

verus! {

/// Whether the characters `a` spell `b`.
pub fn same_chars(a: &[char], b: &str) -> (r: bool)
    ensures
        r == (a@ == b@),
{
    let bv = chars_of(b);
    if a.len() != bv.len() {
        return false;
    }
    let r = matches_at(a, bv.as_slice(), 0);
    assert(r ==> a@ =~= a@.subrange(0, bv@.len() as int));
    assert(a@ == b@ ==> a@.subrange(0, bv@.len() as int) =~= a@);
    r
}

/// String equality.
pub fn same_str(a: &str, b: &str) -> (r: bool)
    ensures
        r == (a@ == b@),
{
    let av = chars_of(a);
    same_chars(av.as_slice(), b)
}

/// `drop_front_in(s, set)`, as a vector: `trim_start_matches` with a set.
pub fn drop_front_set(s: &[char], set: &[char]) -> (r: Vec<char>)
    ensures
        r@ == drop_front_in(s@, set@),
{
    let n = s.len();
    let mut lo: usize = 0;
    assert(s@.subrange(0, n as int) == s@);
    while lo < n && in_set(s[lo], set)
        invariant
            lo <= n == s@.len(),
            drop_front_in(s@, set@) == drop_front_in(s@.subrange(lo as int, n as int), set@),
        decreases n - lo,
    {
        assert(s@.subrange(lo as int, n as int).drop_first() =~= s@.subrange(lo + 1, n as int));
        lo += 1;
    }
    slice_vec(s, lo, n)
}

/// The pieces of `s` between the characters `c`, as `str::split(c)` yields
/// them; `cur` is the piece begun so far.
pub open spec fn split_from(s: Seq<char>, c: char, cur: Seq<char>) -> Seq<Seq<char>>
    decreases s.len(),
{
    if s.len() == 0 {
        seq![cur]
    } else if s[0] == c {
        seq![cur] + split_from(s.drop_first(), c, seq![])
    } else {
        split_from(s.drop_first(), c, cur.push(s[0]))
    }
}

pub open spec fn split_on(s: Seq<char>, c: char) -> Seq<Seq<char>> {
    split_from(s, c, seq![])
}

/// Splitting always yields at least one piece.
pub proof fn lemma_split_nonempty(s: Seq<char>, c: char, cur: Seq<char>)
    ensures
        split_from(s, c, cur).len() >= 1,
    decreases s.len(),
{
    if s.len() > 0 {
        if s[0] == c {
            lemma_split_nonempty(s.drop_first(), c, seq![]);
        } else {
            lemma_split_nonempty(s.drop_first(), c, cur.push(s[0]));
        }
    }
}

/// `str::split(c)`, as vectors of characters.
pub fn split_char(s: &[char], c: char) -> (r: Vec<Vec<char>>)
    ensures
        views(r@) == split_on(s@, c),
        r@.len() >= 1,
{
    let mut out: Vec<Vec<char>> = Vec::new();
    let mut cur: Vec<char> = Vec::new();
    let mut i: usize = 0;
    assert(s@.skip(0) == s@);
    while i < s.len()
        invariant
            i <= s@.len(),
            views(out@) + split_from(s@.skip(i as int), c, cur@) == split_on(s@, c),
        decreases s@.len() - i,
    {
        assert(s@.skip(i as int).drop_first() == s@.skip(i + 1));
        let x = s[i];
        if x == c {
            let ghost before = views(out@);
            let w = cur;
            out.push(w);
            assert(views(out@) =~= before.push(w@));
            cur = Vec::new();
            assert(before + (seq![w@] + split_from(s@.skip(i + 1), c, seq![])) =~= before.push(w@)
                + split_from(s@.skip(i + 1), c, seq![]));
        } else {
            cur.push(x);
        }
        i += 1;
    }
    let ghost before = views(out@);
    let w = cur;
    out.push(w);
    assert(views(out@) =~= before.push(w@));
    proof {
        lemma_split_nonempty(s@, c, seq![]);
    }
    out
}

/// `drop_back_in(s, set)`, as a vector: `trim_end_matches` with a set.
pub fn drop_back_set(s: &[char], set: &[char]) -> (r: Vec<char>)
    ensures
        r@ == drop_back_in(s@, set@),
{
    let n = s.len();
    let mut hi: usize = n;
    assert(s@.subrange(0, n as int) == s@);
    while hi > 0 && in_set(s[hi - 1], set)
        invariant
            hi <= n == s@.len(),
            drop_back_in(s@, set@) == drop_back_in(s@.subrange(0, hi as int), set@),
        decreases hi,
    {
        assert(s@.subrange(0, hi as int).drop_last() =~= s@.subrange(0, hi - 1));
        hi -= 1;
    }
    slice_vec(s, 0, hi)
}

/// Number of decimal digits of small and large numbers.
pub proof fn lemma_decimal_len(n: nat)
    ensures
        n < 10 ==> decimal(n).len() == 1,
        10 <= n < 100 ==> decimal(n).len() == 2,
        100 <= n < 1000 ==> decimal(n).len() == 3,
        n >= 1000 ==> decimal(n).len() >= 4,
    decreases n,
{
    if n >= 10 {
        lemma_decimal_len(n / 10);
    }
}

/// The pieces with `sep` between them, as `[String]::join` gives them.
pub open spec fn join(ps: Seq<Seq<char>>, sep: Seq<char>) -> Seq<char>
    decreases ps.len(),
{
    if ps.len() == 0 {
        seq![]
    } else if ps.len() == 1 {
        ps[0]
    } else {
        join(ps.drop_last(), sep) + sep + ps.last()
    }
}

pub open spec fn string_views(v: Seq<String>) -> Seq<Seq<char>> {
    v.map_values(|s: String| s@)
}

/// `parts.join(sep)`.
pub fn join_strings(parts: &[String], sep: &str) -> (r: String)
    ensures
        r@ == join(string_views(parts@), sep@),
{
    let mut s = String::new();
    let mut i: usize = 0;
    while i < parts.len()
        invariant
            i <= parts@.len(),
            s@ == join(string_views(parts@).take(i as int), sep@),
        decreases parts@.len() - i,
    {
        if i > 0 {
            push_str(&mut s, sep);
        }
        push_str(&mut s, parts[i].as_str());
        proof {
            let w = string_views(parts@).take(i + 1);
            assert(w.drop_last() =~= string_views(parts@).take(i as int));
            assert(w.last() == parts@[i as int]@);
            if i == 0 {
                assert(string_views(parts@).take(0) =~= seq![]);
            }
        }
        i += 1;
    }
    assert(string_views(parts@).take(parts@.len() as int) == string_views(parts@));
    s
}

/// `s` split at the first `p`, as `split_once` gives it.
pub fn split_first(s: &[char], p: &[char]) -> (r: Option<(Vec<char>, Vec<char>)>)
    ensures
        match split_once(s@, p@) {
            Some((a, b)) => r matches Some((x, y)) && x@ == a && y@ == b,
            None => r is None,
        },
{
    proof {
        lemma_find_bounds(s@, p@);
    }
    match find_in(s, p) {
        Some(i) => {
            let n = s.len();
            Some((slice_vec(s, 0, i), slice_vec(s, i + p.len(), n)))
        },
        None => None,
    }
}

/// `str::parse::<i64>()`: an optional sign, then at least one decimal
/// digit, within the range of `i64`.
pub open spec fn parsed_i64(s: Seq<char>) -> Option<i64> {
    if s.len() > 0 && s[0] == '-' {
        let d = s.drop_first();
        if d.len() > 0 && all_digits(d) && digits_value(d) <= 0x8000_0000_0000_0000 {
            Some((-digits_value(d)) as i64)
        } else {
            None
        }
    } else {
        match parsed_nat(s) {
            Some(n) => if n <= i64::MAX {
                Some(n as i64)
            } else {
                None
            },
            None => None,
        }
    }
}

/// `str::parse::<i64>()` on characters.
pub fn parse_i64(s: &[char]) -> (r: Option<i64>)
    ensures
        r == parsed_i64(s@),
{
    if s.len() > 0 && s[0] == '-' {
        let d = slice_vec(s, 1, s.len());
        assert(d@ == s@.drop_first());
        if d.len() == 0 || !('0' <= d[0] && d[0] <= '9') {
            proof {
                if d@.len() > 0 {
                    assert(!is_digit(d@[0]));
                }
            }
            return None;
        }
        match parse_u64(d.as_slice()) {
            Some(v) => {
                if v <= 0x8000_0000_0000_0000 {
                    if v == 0x8000_0000_0000_0000 {
                        Some(i64::MIN)
                    } else {
                        Some(-(v as i64))
                    }
                } else {
                    None
                }
            },
            None => {
                proof {
                    if all_digits(d@) {
                        assert(digits_value(d@) > u64::MAX);
                    }
                }
                None
            },
        }
    } else {
        match parse_u64(s) {
            Some(v) => if v <= i64::MAX as u64 {
                Some(v as i64)
            } else {
                None
            },
            None => None,
        }
    }
}

/// `str::trim` of characters, as a vector.
pub fn trim_chars(s: &[char]) -> (r: Vec<char>)
    ensures
        r@ == trim_spaces(s@),
{
    let (lo, hi) = trim_bounds(s);
    slice_vec(s, lo, hi)
}

/// What `str::to_lowercase` gives for a text beyond ASCII: full Unicode
/// lower case.
pub uninterp spec fn unicode_lowercase(s: Seq<char>) -> Seq<char>;

/// All characters are ASCII.
pub open spec fn ascii_only(s: Seq<char>) -> bool {
    forall|i: int| 0 <= i < s.len() ==> (#[trigger] s[i] as u32) < 0x80
}

/// `str::to_lowercase`: an ASCII text with `A`–`Z` lowered and everything
/// else kept, any other text in full Unicode lower case.
pub open spec fn lowercase(s: Seq<char>) -> Seq<char> {
    if ascii_only(s) {
        lower_all(s)
    } else {
        unicode_lowercase(s)
    }
}

/// `str::to_lowercase`. Stated: on ASCII text the Unicode lower case is
/// ASCII's (`A`–`Z` become `a`–`z`, nothing else changes); beyond ASCII the
/// named result.
#[verifier::external_body]
pub(crate) fn to_lower(s: &str) -> (r: String)
    ensures
        r@ == lowercase(s@),
        !ascii_only(s@) ==> r@ == unicode_lowercase(s@),
{
    s.to_lowercase()
}

/// What `char::is_alphanumeric` says: Unicode `Alphabetic` or `Numeric`.
pub uninterp spec fn alphanumeric(c: char) -> bool;

/// Letters and digits by `char::is_alphanumeric`: within ASCII exactly
/// `a`–`z`, `A`–`Z` and `0`–`9`, beyond it the named Unicode class.
pub open spec fn alnum(c: char) -> bool {
    if (c as u32) < 0x80 {
        'a' <= c <= 'z' || 'A' <= c <= 'Z' || '0' <= c <= '9'
    } else {
        alphanumeric(c)
    }
}

/// `char::is_alphanumeric`. Stated: within ASCII exactly the letters and
/// digits (as its documentation says: Alphabetic or Numeric), beyond ASCII
/// the named result.
#[verifier::external_body]
pub(crate) fn is_alphanumeric(c: char) -> (b: bool)
    ensures
        b == alnum(c),
        (c as u32) >= 0x80 ==> b == alphanumeric(c),
{
    c.is_alphanumeric()
}

/// Where `str::trim_start` would cut: the white space at the front ends
/// at the returned index.
pub fn trim_front(s: &[char]) -> (r: (usize, usize))
    ensures
        r.0 <= s@.len(),
        r.1 == s@.len(),
        drop_front_spaces(s@) == s@.subrange(r.0 as int, s@.len() as int),
{
    let n = s.len();
    let mut lo: usize = 0;
    assert(s@.subrange(0, n as int) == s@);
    while lo < n && space(s[lo])
        invariant
            lo <= n == s@.len(),
            drop_front_spaces(s@) == drop_front_spaces(s@.subrange(lo as int, n as int)),
        decreases n - lo,
    {
        assert(s@.subrange(lo as int, n as int).drop_first() =~= s@.subrange(lo + 1, n as int));
        lo += 1;
    }
    (lo, n)
}

} // verus!
