//! Platform texts: the desktop entry that registers `omnidl://` links, and
//! the parent process read from `/proc/<pid>/stat`.

use crate::launch::SCHEME;
use crate::text::{
    after_last, after_last_index, chars_of, parse_i64, parsed_i64, push_char, push_str,
    slice_vec, split_words, string_of, views, words,
};
use vstd::prelude::*;

verus! {

/// How one character of a path is written inside the quotes of `Exec=`.
pub open spec fn exec_char(c: char) -> Seq<char> {
    if c == '"' || c == '`' || c == '$' {
        seq!['\\', '\\', c]
    } else if c == '\\' {
        seq!['\\', '\\', '\\', '\\']
    } else if c == '%' {
        seq!['%', '%']
    } else {
        seq![c]
    }
}

pub open spec fn exec_escaped(s: Seq<char>) -> Seq<char>
    decreases s.len(),
{
    if s.len() == 0 {
        seq![]
    } else {
        exec_escaped(s.drop_last()) + exec_char(s.last())
    }
}

/// Quotes a path for `Exec=`: inside double quotes `"`, `` ` ``, `$` and `\`
/// take a backslash, which in the file is written doubled; `%` becomes `%%`.
pub fn exec_arg(path: &str) -> (r: String)
    ensures
        r@ == seq!['"'] + exec_escaped(path@) + seq!['"'],
{
    let v = chars_of(path);
    let mut out = String::new();
    push_char(&mut out, '"');
    let mut i: usize = 0;
    while i < v.len()
        invariant
            i <= v@.len(),
            v@ == path@,
            out@ == seq!['"'] + exec_escaped(v@.take(i as int)),
        decreases v@.len() - i,
    {
        let c = v[i];
        assert(v@.take(i + 1).drop_last() =~= v@.take(i as int));
        let ghost before = out@;
        if c == '"' || c == '`' || c == '$' {
            push_char(&mut out, '\\');
            push_char(&mut out, '\\');
            push_char(&mut out, c);
        } else if c == '\\' {
            push_char(&mut out, '\\');
            push_char(&mut out, '\\');
            push_char(&mut out, '\\');
            push_char(&mut out, '\\');
        } else if c == '%' {
            push_char(&mut out, '%');
            push_char(&mut out, '%');
        } else {
            push_char(&mut out, c);
        }
        assert(out@ =~= before + exec_char(c));
        i += 1;
    }
    assert(v@.take(v@.len() as int) =~= v@);
    push_char(&mut out, '"');
    out
}

/// The desktop entry that starts `exe` for `omnidl://` links, with `comment`
/// describing the app.
pub open spec fn entry_text(exe: Seq<char>, icon: Seq<char>, comment: Seq<char>) -> Seq<char> {
    "[Desktop Entry]\nType=Application\nName=omnidl\nComment="@ + comment + "\nExec="@ + seq!['"']
        + exec_escaped(exe) + seq!['"'] + " %u\nIcon="@ + icon
        + "\nTerminal=false\nCategories=AudioVideo;Network;\nMimeType=x-scheme-handler/"@
        + SCHEME@ + ";\nStartupWMClass=omnidl\n"@
}

pub fn desktop_entry(exe: &str, icon: &str, comment: &str) -> (r: String)
    ensures
        r@ == entry_text(exe@, icon@, comment@),
{
    let mut s = String::from_str("[Desktop Entry]\nType=Application\nName=omnidl\nComment=");
    push_str(&mut s, comment);
    push_str(&mut s, "\nExec=");
    let q = exec_arg(exe);
    push_str(&mut s, q.as_str());
    push_str(&mut s, " %u\nIcon=");
    push_str(&mut s, icon);
    push_str(&mut s, "\nTerminal=false\nCategories=AudioVideo;Network;\nMimeType=x-scheme-handler/");
    push_str(&mut s, SCHEME);
    push_str(&mut s, ";\nStartupWMClass=omnidl\n");
    s
}

/// `str::parse::<i32>()`.
pub open spec fn parsed_i32(s: Seq<char>) -> Option<i32> {
    match parsed_i64(s) {
        Some(v) => if i32::MIN <= v <= i32::MAX {
            Some(v as i32)
        } else {
            None
        },
        None => None,
    }
}

/// The parent pid in `/proc/<pid>/stat`: `pid (name) state ppid …`, where
/// the name may itself hold spaces and parentheses, so the fields are read
/// after the last `)`.
pub open spec fn parent_in(stat: Seq<char>) -> Option<i32> {
    if !stat.contains(')') {
        None
    } else {
        let ws = words(after_last(stat, ')'));
        if ws.len() < 2 {
            None
        } else {
            parsed_i32(ws[1])
        }
    }
}

pub fn parent_of(stat: &str) -> (r: Option<i32>)
    ensures
        r == parent_in(stat@),
{
    let v = chars_of(stat);
    let k = after_last_index(v.as_slice(), ')');
    if k == 0 {
        assert(!stat@.contains(')')) by {
            if stat@.contains(')') {
                let j = choose|j: int| 0 <= j < stat@.len() && stat@[j] == ')';
                lemma_after_last_shorter(stat@, ')', j);
            }
        }
        return None;
    }
    let n = v.len();
    assert(v@[k - 1] == ')') by {
        lemma_after_last_cut(v@, ')', k as int);
    }
    assert(stat@.contains(')'));
    let rest = string_of(slice_vec(v.as_slice(), k, n).as_slice());
    assert(rest@ =~= after_last(stat@, ')'));
    let ws = split_words(rest.as_str());
    if ws.len() < 2 {
        return None;
    }
    match parse_i64(ws[1].as_slice()) {
        Some(p) => if p >= i32::MIN as i64 && p <= i32::MAX as i64 {
            Some(p as i32)
        } else {
            None
        },
        None => None,
    }
}

/// What follows the last `c` is shorter than a text that holds `c`.
proof fn lemma_after_last_shorter(s: Seq<char>, c: char, j: int)
    requires
        0 <= j < s.len(),
        s[j] == c,
    ensures
        after_last(s, c).len() < s.len(),
    decreases s.len(),
{
    if s.last() != c {
        if j < s.len() - 1 {
            lemma_after_last_shorter(s.drop_last(), c, j);
        }
    }
}

/// Cutting after the last `c` leaves `c` just before the cut.
proof fn lemma_after_last_cut(s: Seq<char>, c: char, k: int)
    requires
        0 < k <= s.len(),
        after_last(s, c) == s.skip(k),
    ensures
        s[k - 1] == c,
    decreases s.len(),
{
    if s.last() == c {
        assert(s.skip(k).len() == 0);
    } else {
        let t = s.drop_last();
        assert(after_last(s, c) == after_last(t, c).push(s.last()));
        assert(s.skip(k) =~= t.skip(k).push(s.last())) by {
            assert(k <= s.len() - 1 || s.skip(k).len() == 0);
        }
        if k <= t.len() {
            assert(after_last(t, c) =~= after_last(s, c).drop_last());
            assert(t.skip(k) =~= s.skip(k).drop_last());
            lemma_after_last_cut(t, c, k);
        }
    }
}

} // verus!
