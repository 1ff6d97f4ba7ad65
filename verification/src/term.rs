//! Terminal output: line formatting shared by the live display and plain
//! output for pipes and logs, and the text that redraws the live region in
//! place.

use crate::job::JobState;
use crate::jobs::{status_of, Job, JobView, Tone};
use crate::text::{
    chars_of, is_control, join, push_char, push_decimal, push_str, string_of, string_views,
    decimal, control, until, until_index,
};
use unicode_width::UnicodeWidthChar;
use vstd::prelude::*;
use vstd::string::StringExecFns;

verus! {

/// Display columns of a character that is not a control character, by the
/// Unicode width tables of `unicode-width`.
pub uninterp spec fn char_columns(c: char) -> usize;

/// `UnicodeWidthChar::width` (unicode-width 0.2): `None` for the control
/// characters U+0000–U+001F and U+007F–U+009F, one column for the rest of
/// ASCII and for the ellipsis "…" (East Asian Width Ambiguous, punctuation,
/// which the crate counts as one column outside CJK contexts), otherwise the
/// named table value, which is at most 3.
#[verifier::external_body]
fn columns(c: char) -> (r: Option<usize>)
    ensures
        is_control(c) ==> r is None,
        !is_control(c) ==> r == Some(col(c) as usize),
        !is_control(c) && !known_narrow(c) ==> r == Some(char_columns(c)),
        r matches Some(w) ==> w <= 3,
{
    c.width()
}

/// Characters whose width the library knows to be one column: printable
/// ASCII and the ellipsis "…".
pub open spec fn known_narrow(c: char) -> bool {
    (c as u32) < 0x7f || c == '…'
}

/// Columns a character takes; control characters count as none.
pub open spec fn col(c: char) -> nat {
    if is_control(c) {
        0
    } else if known_narrow(c) {
        1
    } else {
        char_columns(c) as nat
    }
}

pub open spec fn col_sum(s: Seq<char>) -> nat
    decreases s.len(),
{
    if s.len() == 0 {
        0
    } else {
        col_sum(s.drop_last()) + col(s.last())
    }
}

/// The width of a text in columns, as far as `usize` counts.
pub open spec fn width_of(s: Seq<char>) -> nat {
    if col_sum(s) <= usize::MAX {
        col_sum(s)
    } else {
        usize::MAX as nat
    }
}

#[derive(Clone, Copy, Debug, PartialEq, Eq, Structural)]
pub enum Paint {
    Plain,
    Dim,
    Blue,
    Green,
    Yellow,
    Red,
}

impl Paint {
    pub open spec fn code_text(self) -> Seq<char> {
        match self {
            Paint::Plain => ""@,
            Paint::Dim => "\x1b[2m"@,
            Paint::Blue => "\x1b[34m"@,
            Paint::Green => "\x1b[32m"@,
            Paint::Yellow => "\x1b[33m"@,
            Paint::Red => "\x1b[31m"@,
        }
    }

    fn code(self) -> (r: &'static str)
        ensures
            r@ == self.code_text(),
    {
        match self {
            Paint::Plain => "",
            Paint::Dim => "\x1b[2m",
            Paint::Blue => "\x1b[34m",
            Paint::Green => "\x1b[32m",
            Paint::Yellow => "\x1b[33m",
            Paint::Red => "\x1b[31m",
        }
    }

    pub open spec fn of_tone(tone: Tone) -> Paint {
        match tone {
            Tone::Normal => Paint::Dim,
            Tone::Warning => Paint::Yellow,
            Tone::Error => Paint::Red,
        }
    }

    /// The color a status line of this tone is shown in.
    pub fn of(tone: Tone) -> (r: Paint)
        ensures
            r == Paint::of_tone(tone),
    {
        match tone {
            Tone::Normal => Paint::Dim,
            Tone::Warning => Paint::Yellow,
            Tone::Error => Paint::Red,
        }
    }
}

pub open spec fn painted(s: Seq<char>, p: Paint, color: bool) -> Seq<char> {
    if !color || p == Paint::Plain || s.len() == 0 {
        s
    } else {
        p.code_text() + s + "\x1b[0m"@
    }
}

/// `s` in color `p` when colors are on.
pub fn paint(s: &str, p: Paint, color: bool) -> (r: String)
    ensures
        r@ == painted(s@, p, color),
{
    if !color || matches!(p, Paint::Plain) || s.is_empty() {
        String::from_str(s)
    } else {
        let mut r = String::from_str(p.code());
        push_str(&mut r, s);
        push_str(&mut r, "\x1b[0m");
        r
    }
}

fn char_width(c: char) -> (r: usize)
    ensures
        r == col(c),
        r <= 3,
{
    match columns(c) {
        Some(w) => w,
        None => 0,
    }
}

/// Width of `s` in columns, as far as `usize` counts.
fn width_chars(s: &[char]) -> (r: usize)
    ensures
        r == width_of(s@),
{
    let mut total: usize = 0;
    let mut i: usize = 0;
    while i < s.len()
        invariant
            i <= s@.len(),
            total == width_of(s@.take(i as int)),
        decreases s@.len() - i,
    {
        let w = char_width(s[i]);
        proof {
            assert(s@.take(i + 1).drop_last() =~= s@.take(i as int));
            assert(s@.take(i + 1).last() == s@[i as int]);
        }
        total = if total > usize::MAX - w {
            usize::MAX
        } else {
            total + w
        };
        i += 1;
    }
    assert(s@.take(s@.len() as int) == s@);
    total
}

pub fn width(s: &str) -> (r: usize)
    ensures
        r == width_of(s@),
{
    let v = chars_of(s);
    width_chars(v.as_slice())
}

pub open spec fn cleaned(s: Seq<char>) -> Seq<char> {
    s.map_values(|c: char| if is_control(c) {
        ' '
    } else {
        c
    })
}

/// Control characters (tabs, line breaks in titles) become spaces.
fn clean_chars(s: &str) -> (r: Vec<char>)
    ensures
        r@ == cleaned(s@),
{
    let v = chars_of(s);
    let mut out: Vec<char> = Vec::new();
    let mut i: usize = 0;
    while i < v.len()
        invariant
            i <= v@.len(),
            v@ == s@,
            out@ == cleaned(v@.take(i as int)),
        decreases v@.len() - i,
    {
        let c = v[i];
        out.push(if control(c) {
            ' '
        } else {
            c
        });
        i += 1;
        assert(out@ =~= cleaned(v@.take(i as int)));
    }
    assert(v@.take(v@.len() as int) == v@);
    out
}

pub fn clean(s: &str) -> (r: String)
    ensures
        r@ == cleaned(s@),
{
    let v = clean_chars(s);
    string_of(v.as_slice())
}

/// The characters from the start that fit in `room` columns with one
/// column left for a mark.
pub open spec fn greedy(s: Seq<char>, room: int) -> Seq<char>
    decreases s.len(),
{
    if s.len() == 0 || col(s[0]) + 1 > room {
        seq![]
    } else {
        seq![s[0]] + greedy(s.drop_first(), room - col(s[0]))
    }
}

/// `s` cut to at most `max` columns, ending in "…" when shortened.
pub open spec fn truncated(s: Seq<char>, max: nat) -> Seq<char> {
    let c = cleaned(s);
    if width_of(c) <= max {
        c
    } else if max > 0 {
        greedy(c, max as int).push('…')
    } else {
        greedy(c, max as int)
    }
}

proof fn lemma_col_sum_prepend(c: char, g: Seq<char>)
    ensures
        col_sum(seq![c] + g) == col(c) + col_sum(g),
    decreases g.len(),
{
    if g.len() > 0 {
        lemma_col_sum_prepend(c, g.drop_last());
        let whole = seq![c] + g;
        assert(whole.drop_last() =~= seq![c] + g.drop_last());
        assert(whole.last() == g.last());
        assert(col_sum(whole) == col_sum(whole.drop_last()) + col(whole.last()));
    } else {
        let whole = seq![c] + g;
        assert(whole =~= seq![c]);
        assert(whole.drop_last() =~= Seq::<char>::empty());
        assert(col_sum(whole) == col_sum(whole.drop_last()) + col(whole.last()));
    }
}

/// The characters `greedy` keeps leave one of `room` columns free.
proof fn lemma_greedy_room(s: Seq<char>, room: int)
    requires
        room >= 1,
    ensures
        col_sum(greedy(s, room)) + 1 <= room,
    decreases s.len(),
{
    if !(s.len() == 0 || col(s[0]) + 1 > room) {
        lemma_greedy_room(s.drop_first(), room - col(s[0]));
        lemma_col_sum_prepend(s[0], greedy(s.drop_first(), room - col(s[0])));
    }
}

/// `greedy` keeps a beginning of the text.
proof fn lemma_greedy_prefix(s: Seq<char>, room: int)
    ensures
        greedy(s, room).len() <= s.len(),
        greedy(s, room) == s.take(greedy(s, room).len() as int),
    decreases s.len(),
{
    if !(s.len() == 0 || col(s[0]) + 1 > room) {
        let g = greedy(s.drop_first(), room - col(s[0]));
        lemma_greedy_prefix(s.drop_first(), room - col(s[0]));
        assert(seq![s[0]] + g =~= s.take(g.len() as int + 1));
    } else {
        assert(s.take(0) =~= Seq::<char>::empty());
    }
}

/// What `truncate` promises: a text that fits in `max` columns stays whole
/// (control characters shown as spaces); a longer one keeps a beginning of
/// it worth at most `max - 1` columns and gets the mark "…" in the last
/// one; with no room at all nothing is left.
pub proof fn lemma_truncated_fits(s: Seq<char>, max: nat)
    ensures
        width_of(cleaned(s)) <= max ==> truncated(s, max) == cleaned(s),
        width_of(cleaned(s)) > max && max > 0 ==> ({
            let kept = greedy(cleaned(s), max as int);
            &&& truncated(s, max) == kept.push('…')
            &&& kept == cleaned(s).take(kept.len() as int)
            &&& col_sum(kept) + 1 <= max
        }),
        width_of(cleaned(s)) > max && max == 0 ==> truncated(s, max) == Seq::<char>::empty(),
{
    lemma_greedy_prefix(cleaned(s), max as int);
    if width_of(cleaned(s)) > max && max > 0 {
        lemma_greedy_room(cleaned(s), max as int);
    }
}

/// Cuts `s` to at most `max` columns, ending in "…" when shortened.
pub fn truncate(s: &str, max: usize) -> (r: String)
    ensures
        r@ == truncated(s@, max as nat),
{
    let c = clean_chars(s);
    if width_chars(c.as_slice()) <= max {
        return string_of(c.as_slice());
    }
    let mut out = String::new();
    let mut used: usize = 0;
    let mut i: usize = 0;
    assert(c@.skip(0) == c@);
    while i < c.len()
        invariant
            i <= c@.len(),
            used <= max,
            out@ + greedy(c@.skip(i as int), max - used) == greedy(c@, max as int),
        ensures
            out@ == greedy(c@, max as int),
        decreases c@.len() - i,
    {
        let w = char_width(c[i]);
        assert(c@.skip(i as int)[0] == c@[i as int]);
        if w + 1 > max - used {
            assert(greedy(c@.skip(i as int), max - used) == Seq::<char>::empty());
            assert(out@ + Seq::<char>::empty() =~= out@);
            break;
        }
        assert(c@.skip(i as int).drop_first() == c@.skip(i + 1));
        let ghost before = out@;
        used += w;
        push_char(&mut out, c[i]);
        assert(before + greedy(c@.skip(i as int), max - (used - w)) == before + (seq![c@[i as int]]
            + greedy(c@.skip(i + 1), max - used)));
        assert(before + (seq![c@[i as int]] + greedy(c@.skip(i + 1), max - used)) =~= out@ + greedy(
            c@.skip(i + 1),
            max - used,
        ));
        i += 1;
    }
    if max > 0 {
        push_char(&mut out, '…');
    }
    out
}

/// Columns the title keeps at least before the status is cut.
pub const MIN_TITLE: usize = 16;

/// Title and status for one line of `room` columns, two spaces apart.
pub open spec fn fitted(title: Seq<char>, status: Seq<char>, room: nat) -> (Seq<char>, Seq<char>) {
    let tw = width_of(title);
    let sw = width_of(status);
    let keep: nat = if tw < 16 {
        tw
    } else {
        16
    };
    if sw == 0 {
        (truncated(title, room), seq![])
    } else if tw + 2 + sw <= room {
        (title, status)
    } else if keep + 2 + sw <= room {
        (truncated(title, (room - 2 - sw) as nat), status)
    } else if room < keep + 3 {
        (truncated(title, room), seq![])
    } else {
        (truncated(title, keep), truncated(status, (room - keep - 2) as nat))
    }
}

/// A cut text fits in `max` columns.
pub proof fn lemma_truncated_width(s: Seq<char>, max: nat)
    ensures
        width_of(truncated(s, max)) <= max,
{
    lemma_truncated_fits(s, max);
    let c = cleaned(s);
    if width_of(c) > max {
        if max > 0 {
            let kept = greedy(c, max as int);
            assert(kept.push('…').drop_last() =~= kept);
            assert(col_sum(kept.push('…')) == col_sum(kept) + col('…'));
        } else {
            assert(col_sum(Seq::<char>::empty()) == 0);
        }
    }
}

/// What `fit` promises: title and status, two spaces apart, fit in `room`
/// columns; a status that fits beside
/// the whole title leaves both as they are, and there is no status without
/// one.
pub proof fn lemma_fitted_fits(title: Seq<char>, status: Seq<char>, room: nat)
    ensures
        ({
            let (t2, s2) = fitted(title, status, room);
            &&& width_of(t2) + (if s2.len() == 0 {
                0
            } else {
                2 + width_of(s2)
            }) <= room
            &&& width_of(status) > 0 && width_of(title) + 2 + width_of(status) <= room ==> t2 == title
                && s2 == status
            &&& width_of(status) == 0 ==> s2.len() == 0
        }),
{
    let tw = width_of(title);
    let sw = width_of(status);
    let keep: nat = if tw < 16 {
        tw
    } else {
        16
    };
    if sw == 0 {
        lemma_truncated_width(title, room);
    } else if tw + 2 + sw <= room {
    } else if keep + 2 + sw <= room {
        lemma_truncated_width(title, (room - 2 - sw) as nat);
    } else if room < keep + 3 {
        lemma_truncated_width(title, room);
    } else {
        lemma_truncated_width(title, keep);
        lemma_truncated_width(status, (room - keep - 2) as nat);
    }
}

/// Title and status for one line of `room` columns, two spaces apart. The
/// status stays whole as long as the title keeps a readable start.
pub fn fit(title: &str, status: &str, room: usize) -> (r: (String, String))
    ensures
        (r.0@, r.1@) == fitted(title@, status@, room as nat),
{
    let tw = width(title);
    let sw = width(status);
    if sw == 0 {
        return (truncate(title, room), String::new());
    }
    if tw as u128 + 2 + sw as u128 <= room as u128 {
        return (String::from_str(title), String::from_str(status));
    }
    let keep = if tw < MIN_TITLE {
        tw
    } else {
        MIN_TITLE
    };
    if keep as u128 + 2 + sw as u128 <= room as u128 {
        return (truncate(title, room - 2 - sw), String::from_str(status));
    }
    if (room as u128) < keep as u128 + 3 {
        return (truncate(title, room), String::new());
    }
    (truncate(title, keep), truncate(status, room - keep - 2))
}

pub open spec fn spinner_text(frame: nat) -> Seq<char> {
    let i = frame % 10;
    if i == 0 {
        "⠋"@
    } else if i == 1 {
        "⠙"@
    } else if i == 2 {
        "⠹"@
    } else if i == 3 {
        "⠸"@
    } else if i == 4 {
        "⠼"@
    } else if i == 5 {
        "⠴"@
    } else if i == 6 {
        "⠦"@
    } else if i == 7 {
        "⠧"@
    } else if i == 8 {
        "⠇"@
    } else {
        "⠏"@
    }
}

/// The spinner's picture for `frame`: ten pictures in turn.
pub fn spinner(frame: usize) -> (r: &'static str)
    ensures
        r@ == spinner_text(frame as nat),
{
    let i = frame % 10;
    if i == 0 {
        "⠋"
    } else if i == 1 {
        "⠙"
    } else if i == 2 {
        "⠹"
    } else if i == 3 {
        "⠸"
    } else if i == 4 {
        "⠼"
    } else if i == 5 {
        "⠴"
    } else if i == 6 {
        "⠦"
    } else if i == 7 {
        "⠧"
    } else if i == 8 {
        "⠇"
    } else {
        "⠏"
    }
}

pub open spec fn symbol_of(state: JobState, frame: nat) -> (Seq<char>, Paint) {
    match state {
        JobState::Done => ("✓"@, Paint::Green),
        JobState::Failed(_) => ("✗"@, Paint::Red),
        JobState::NoMatch => ("!"@, Paint::Yellow),
        JobState::Cancelled => ("–"@, Paint::Dim),
        JobState::Queued | JobState::Scheduled(_) => ("·"@, Paint::Dim),
        _ => (spinner_text(frame), Paint::Blue),
    }
}

/// Symbol in front of a job: a spinner while it works.
pub fn symbol(state: &JobState, frame: usize) -> (r: (&'static str, Paint))
    ensures
        (r.0@, r.1) == symbol_of(*state, frame as nat),
{
    match state {
        JobState::Done => ("✓", Paint::Green),
        JobState::Failed(_) => ("✗", Paint::Red),
        JobState::NoMatch => ("!", Paint::Yellow),
        JobState::Cancelled => ("–", Paint::Dim),
        JobState::Queued | JobState::Scheduled(_) => ("·", Paint::Dim),
        JobState::Resolving | JobState::Downloading | JobState::Processing | JobState::Group => {
            (spinner(frame), Paint::Blue)
        },
    }
}

pub open spec fn spaces(n: nat) -> Seq<char> {
    Seq::new(n, |i: int| ' ')
}

/// "⠹ Title  status" in at most `width` columns (one spare against wrapping).
pub open spec fn row_text(
    indent: nat,
    sym: (Seq<char>, Paint),
    title: Seq<char>,
    status: (Seq<char>, Paint),
    width: nat,
    color: bool,
) -> Seq<char> {
    let room: nat = if width > indent + 3 {
        (width - indent - 3) as nat
    } else {
        0
    };
    let (t, text) = fitted(title, status.0, room);
    let line = spaces(indent) + painted(sym.0, sym.1, color) + seq![' '] + t;
    if text.len() > 0 {
        line + "  "@ + painted(text, status.1, color)
    } else {
        line
    }
}

proof fn lemma_col_sum_concat(a: Seq<char>, b: Seq<char>)
    ensures
        col_sum(a + b) == col_sum(a) + col_sum(b),
    decreases b.len(),
{
    if b.len() == 0 {
        assert(a + b =~= a);
    } else {
        lemma_col_sum_concat(a, b.drop_last());
        assert((a + b).drop_last() =~= a + b.drop_last());
        assert((a + b).last() == b.last());
    }
}

proof fn lemma_spaces_width(n: nat)
    ensures
        col_sum(spaces(n)) == n,
    decreases n,
{
    if n > 0 {
        lemma_spaces_width((n - 1) as nat);
        assert(spaces(n).drop_last() =~= spaces((n - 1) as nat));
    }
}

/// What the live display promises: without colors a row whose symbol takes
/// one column stays narrower than the terminal and starts with the indent
/// and the symbol.
pub proof fn lemma_row_fits(indent: nat, sym: (Seq<char>, Paint), title: Seq<char>, status: (Seq<char>, Paint), width: nat)
    requires
        col_sum(sym.0) == 1,
        indent + 3 <= width <= usize::MAX,
    ensures
        col_sum(row_text(indent, sym, title, status, width, false)) < width,
        row_text(indent, sym, title, status, width, false).take((indent + sym.0.len() + 1) as int) == spaces(
            indent,
        ) + sym.0 + seq![' '],
{
    let room: nat = (width - indent - 3) as nat;
    let (t, text) = fitted(title, status.0, room);
    lemma_fitted_fits(title, status.0, room);
    let head = spaces(indent) + sym.0 + seq![' '];
    let line = head + t;
    lemma_spaces_width(indent);
    lemma_col_sum_concat(spaces(indent), sym.0);
    lemma_col_sum_concat(spaces(indent) + sym.0, seq![' ']);
    assert(seq![' '].drop_last() =~= Seq::<char>::empty());
    assert(col_sum(Seq::<char>::empty()) == 0);
    assert(seq![' '].last() == ' ');
    assert(col_sum(seq![' ']) == col_sum(seq![' '].drop_last()) + col(' '));
    lemma_col_sum_concat(head, t);
    assert(width_of(t) <= room);
    assert(col_sum(t) <= room);
    if text.len() > 0 {
        lemma_col_sum_concat(line, "  "@);
        lemma_col_sum_concat(line + "  "@, text);
        reveal_strlit("  ");
        assert("  "@ =~= seq![' ', ' ']);
        assert(seq![' ', ' '].drop_last() =~= seq![' ']);
        assert(col_sum(seq![' ', ' ']) == col_sum(seq![' ']) + col(' '));
        assert(col_sum(text) <= room);
        assert(row_text(indent, sym, title, status, width, false) == line + "  "@ + text);
        assert((line + "  "@ + text).take(head.len() as int) =~= head);
    } else {
        assert(row_text(indent, sym, title, status, width, false) == line);
        assert(line.take(head.len() as int) =~= head);
    }
}

/// One row of the live display.
pub fn row(indent: usize, sym: (&str, Paint), title: &str, status: (&str, Paint), width: usize, color: bool) -> (r: String)
    requires
        indent + 3 <= usize::MAX,
    ensures
        r@ == row_text(indent as nat, (sym.0@, sym.1), title@, (status.0@, status.1), width as nat, color),
{
    let room = width.saturating_sub(indent + 3);
    let (t, text) = fit(title, status.0, room);
    let mut line = String::new();
    let mut k: usize = 0;
    while k < indent
        invariant
            k <= indent,
            line@ == spaces(k as nat),
        decreases indent - k,
    {
        push_char(&mut line, ' ');
        k += 1;
        assert(line@ =~= spaces(k as nat));
    }
    let p = paint(sym.0, sym.1, color);
    push_str(&mut line, p.as_str());
    push_char(&mut line, ' ');
    push_str(&mut line, t.as_str());
    if !text.as_str().is_empty() {
        push_str(&mut line, "  ");
        let q = paint(text.as_str(), status.1, color);
        push_str(&mut line, q.as_str());
    }
    line
}

/// One job for the live display; children sit under their group's title.
pub fn job_row(job: &Job, child: bool, frame: usize, width: usize, color: bool) -> (r: String)
    ensures
        exists|start: Seq<char>|
            crate::jobs::start_fits(job@.state, start) && r@ == row_text(
                if child {
                    2nat
                } else {
                    0nat
                },
                symbol_of(job@.state, frame as nat),
                job@.title,
                (#[trigger] status_of(job@, child, start).0, Paint::of_tone(status_of(job@, child, start).1)),
                width as nat,
                color,
            ),
{
    let (status, tone) = job.status(child);
    let ghost start = choose|start: Seq<char>|
        crate::jobs::start_fits(job@.state, start) && (status@, tone) == #[trigger] status_of(job@, child, start);
    let indent: usize = if child {
        2
    } else {
        0
    };
    let r = row(indent, symbol(&job.state, frame), job.title.as_str(), (status.as_str(), Paint::of(tone)), width, color);
    assert(r@ == row_text(
        if child {
            2nat
        } else {
            0nat
        },
        symbol_of(job@.state, frame as nat),
        job@.title,
        (status_of(job@, child, start).0, Paint::of_tone(status_of(job@, child, start).1)),
        width as nat,
        color,
    ));
    r
}

pub open spec fn line_text(title: Seq<char>, child: bool, status: (Seq<char>, Tone)) -> Seq<char> {
    (if child {
        "  "@
    } else {
        ""@
    }) + (if status.1 == Tone::Error {
        "Fehler: "@
    } else {
        ""@
    }) + cleaned(title) + " · "@ + status.0
}

/// One job as a plain line: "Title · YouTube · 45 %", failures marked for grep.
pub fn job_line(job: &Job, child: bool) -> (r: String)
    ensures
        exists|start: Seq<char>|
            crate::jobs::start_fits(job@.state, start) && r@ == line_text(
                job@.title,
                child,
                #[trigger] status_of(job@, child, start),
            ),
{
    let (status, tone) = job.status(child);
    let ghost start = choose|start: Seq<char>|
        crate::jobs::start_fits(job@.state, start) && (status@, tone) == #[trigger] status_of(job@, child, start);
    let mut s = String::new();
    if child {
        push_str(&mut s, "  ");
    }
    if matches!(tone, Tone::Error) {
        push_str(&mut s, "Fehler: ");
    }
    let t = clean(job.title.as_str());
    push_str(&mut s, t.as_str());
    push_str(&mut s, " · ");
    push_str(&mut s, status.as_str());
    proof {
        reveal_strlit("");
        assert(s@ =~= line_text(job@.title, child, status_of(job@, child, start)));
    }
    s
}

/// Tool setup messages as plain lines: each step once, its progress every
/// few seconds. Times are milliseconds on a monotonic clock.
pub struct Steps {
    last: Option<(String, u64)>,
}

impl View for Steps {
    type V = Option<(Seq<char>, u64)>;

    closed spec fn view(&self) -> Option<(Seq<char>, u64)> {
        match self.last {
            Some((s, t)) => Some((s@, t)),
            None => None,
        }
    }
}

/// The step a message belongs to: its text before the first "…".
pub open spec fn step_of(msg: Seq<char>) -> Seq<char> {
    until(msg, seq!['…'])
}

pub open spec fn step_due(last: Option<(Seq<char>, u64)>, msg: Seq<char>, now: u64) -> bool {
    match last {
        Some((l, at)) => l != step_of(msg) || (now >= at && now - at >= 5000),
        None => true,
    }
}

impl Steps {
    pub fn new() -> (r: Steps)
        ensures
            r@ is None,
    {
        Steps { last: None }
    }

    /// Whether `msg` should be told now: a new step at once, more of the
    /// same step after five seconds.
    pub fn due(&mut self, msg: &str, now: u64) -> (r: bool)
        ensures
            r == step_due(old(self)@, msg@, now),
            final(self)@ == if r {
                Some((step_of(msg@), now))
            } else {
                old(self)@
            },
    {
        let v = chars_of(msg);
        let stop: [char; 1] = ['…'];
        assert(stop@ == seq!['…']);
        let end = until_index(v.as_slice(), stop.as_slice());
        let step = crate::text::string_of_range(v.as_slice(), 0, end);
        let due = match &self.last {
            Some((last, at)) => !crate::text::same_str(last.as_str(), step.as_str()) || (now >= *at
                && now - *at >= 5000),
            None => true,
        };
        if due {
            self.last = Some((step, now));
        }
        due
    }
}

/// The text that moves up over `drawn` lines, writes `log` and `region`
/// line by line (clearing each rest) and wipes whatever was left below.
pub open spec fn frame_text(drawn: nat, log: Seq<Seq<char>>, region: Seq<Seq<char>>) -> Seq<char> {
    (if drawn > 0 {
        "\x1b["@ + decimal(drawn) + seq!['A']
    } else {
        seq![]
    }) + seq!['\r'] + lines_text(log + region) + "\x1b[J"@
}

pub open spec fn lines_text(ls: Seq<Seq<char>>) -> Seq<char>
    decreases ls.len(),
{
    if ls.len() == 0 {
        seq![]
    } else {
        lines_text(ls.drop_last()) + ls.last() + "\x1b[K\n"@
    }
}

fn push_lines(s: &mut String, lines: &[String])
    ensures
        final(s)@ == old(s)@ + lines_text(string_views(lines@)),
{
    let mut i: usize = 0;
    while i < lines.len()
        invariant
            i <= lines@.len(),
            s@ == old(s)@ + lines_text(string_views(lines@).take(i as int)),
        decreases lines@.len() - i,
    {
        push_str(s, lines[i].as_str());
        push_str(s, "\x1b[K\n");
        proof {
            let w = string_views(lines@).take(i + 1);
            assert(w.drop_last() =~= string_views(lines@).take(i as int));
            assert(w.last() == lines@[i as int]@);
        }
        i += 1;
    }
    assert(string_views(lines@).take(lines@.len() as int) == string_views(lines@));
}

proof fn lemma_lines_concat(a: Seq<Seq<char>>, b: Seq<Seq<char>>)
    ensures
        lines_text(a + b) == lines_text(a) + lines_text(b),
    decreases b.len(),
{
    if b.len() == 0 {
        assert(a + b =~= a);
    } else {
        lemma_lines_concat(a, b.drop_last());
        assert((a + b).drop_last() =~= a + b.drop_last());
        assert((a + b).last() == b.last());
    }
}

/// Moves up over the `drawn` lines, writes `log` and `region` line by line
/// (clearing each rest) and wipes whatever the old region left below.
pub fn frame(drawn: usize, log: &[String], region: &[String]) -> (r: String)
    ensures
        r@ == frame_text(drawn as nat, string_views(log@), string_views(region@)),
{
    let mut s = String::new();
    if drawn > 0 {
        // `ESC[0A` would still move one line in some terminals.
        push_str(&mut s, "\x1b[");
        push_decimal(&mut s, drawn as u64);
        push_char(&mut s, 'A');
    }
    push_char(&mut s, '\r');
    push_lines(&mut s, log);
    push_lines(&mut s, region);
    push_str(&mut s, "\x1b[J");
    proof {
        lemma_lines_concat(string_views(log@), string_views(region@));
    }
    s
}

pub const HIDE_CURSOR: &'static str = "\x1b[?25l";

pub const SHOW_CURSOR: &'static str = "\x1b[?25h";

/// Region redrawn in place below everything printed for good. Each call
/// returns the text to write to the terminal.
pub struct Live {
    drawn: usize,
    pub color: bool,
}

impl Live {
    pub closed spec fn lines(self) -> nat {
        self.drawn as nat
    }

    pub closed spec fn colored(self) -> bool {
        self.color
    }

    /// A live region with nothing drawn yet, and the text that hides the
    /// cursor.
    pub fn new(color: bool) -> (r: (Live, String))
        ensures
            r.0.lines() == 0,
            r.0.colored() == color,
            r.1@ == HIDE_CURSOR@,
    {
        (Live { drawn: 0, color }, String::from_str(HIDE_CURSOR))
    }

    /// Prints `log` for good, then replaces the live lines with `region`.
    pub fn draw(&mut self, log: &[String], region: &[String]) -> (r: String)
        ensures
            r@ == frame_text(old(self).lines(), string_views(log@), string_views(region@)),
            final(self).lines() == region@.len(),
            final(self).colored() == old(self).colored(),
    {
        let r = frame(self.drawn, log, region);
        self.drawn = region.len();
        r
    }

    /// Clears the live lines and gives the cursor back.
    pub fn close(&mut self, log: &[String]) -> (r: String)
        ensures
            r@ == frame_text(old(self).lines(), string_views(log@), seq![]) + SHOW_CURSOR@,
            final(self).lines() == 0,
            final(self).colored() == old(self).colored(),
    {
        let empty: Vec<String> = Vec::new();
        let mut r = self.draw(log, empty.as_slice());
        assert(string_views(empty@) =~= seq![]);
        push_str(&mut r, SHOW_CURSOR);
        r
    }
}

} // verus!
