//! The download list as the user sees it: jobs in the order they arrived,
//! children linked to their group, and a one-line status in plain German.
//! Shared by the window, the terminal and the web interface.

use crate::job::{JobId, JobState, JobUpdate};
use crate::text::{
    chars_of, decimal, find, find_in, join, join_strings, push_decimal, push_str, slice_vec,
    split_first, split_once, string_of, string_views, trim_bounds, trim_spaces, until,
    until_index, lemma_find_bounds,
};
use crate::util::{bytes_text, eta_text, fmt_bytes, fmt_eta, round_half_even};
use std::collections::HashMap;
use vstd::prelude::*;
use vstd::string::StringExecFns;

verus! {

broadcast use vstd::std_specs::hash::group_hash_axioms;

#[derive(Debug)]
pub struct Job {
    pub id: JobId,
    pub parent: Option<JobId>,
    /// Indices of the children in [`Jobs::list`].
    pub children: Vec<usize>,
    /// The link the job was created from; used to try again.
    pub url: String,
    pub title: String,
    pub source: &'static str,
    pub state: JobState,
    /// Progress in ten-thousandths of the whole.
    pub frac: Option<u32>,
    /// Bytes per second.
    pub speed: Option<u64>,
    /// Seconds left.
    pub eta: Option<u64>,
    /// Item progress inside a list: (done, total).
    pub item: Option<(u32, u32)>,
    pub note: Option<String>,
    pub output: Option<String>,
    /// Group shows its children (window only).
    pub expanded: bool,
}

/// A job with its texts as characters.
pub struct JobView {
    pub id: JobId,
    pub parent: Option<JobId>,
    pub children: Seq<usize>,
    pub url: Seq<char>,
    pub title: Seq<char>,
    pub source: Seq<char>,
    pub state: JobState,
    pub frac: Option<u32>,
    pub speed: Option<u64>,
    pub eta: Option<u64>,
    pub item: Option<(u32, u32)>,
    pub note: Option<Seq<char>>,
    pub output: Option<Seq<char>>,
    pub expanded: bool,
}

pub open spec fn opt_text(o: Option<String>) -> Option<Seq<char>> {
    match o {
        Some(s) => Some(s@),
        None => None,
    }
}

impl View for Job {
    type V = JobView;

    open spec fn view(&self) -> JobView {
        JobView {
            id: self.id,
            parent: self.parent,
            children: self.children@,
            url: self.url@,
            title: self.title@,
            source: self.source@,
            state: self.state,
            frac: self.frac,
            speed: self.speed,
            eta: self.eta,
            item: self.item,
            note: opt_text(self.note),
            output: opt_text(self.output),
            expanded: self.expanded,
        }
    }
}

/// How a status line should be shown.
#[derive(Clone, Copy, Debug, PartialEq, Eq, Structural)]
pub enum Tone {
    Normal,
    Warning,
    Error,
}

fn copy_text(o: &Option<String>) -> (r: Option<String>)
    ensures
        opt_text(r) == opt_text(*o),
{
    match o {
        Some(s) => Some(s.clone()),
        None => None,
    }
}

fn copy_state(s: &JobState) -> (r: JobState)
    ensures
        r == *s,
{
    match s {
        JobState::Scheduled(t) => JobState::Scheduled(*t),
        JobState::Queued => JobState::Queued,
        JobState::Resolving => JobState::Resolving,
        JobState::Downloading => JobState::Downloading,
        JobState::Processing => JobState::Processing,
        JobState::Group => JobState::Group,
        JobState::Done => JobState::Done,
        JobState::NoMatch => JobState::NoMatch,
        JobState::Failed(e) => JobState::Failed(e.clone()),
        JobState::Cancelled => JobState::Cancelled,
    }
}

/// First line of `e`: up to the first line feed, without the carriage
/// return of a `\r\n`, as `str::lines` yields it.
pub open spec fn first_line(e: Seq<char>) -> Seq<char> {
    let l = until(e, seq!['\n']);
    if l.len() < e.len() && l.len() > 0 && l.last() == '\r' {
        l.drop_last()
    } else {
        l
    }
}

/// A line without a leading `[extractor] ` and, where the rest reads
/// `id: message` with an id without spaces, without the id.
pub open spec fn without_tag(line: Seq<char>) -> Seq<char> {
    if line.len() > 0 && line[0] == '[' {
        match split_once(line.drop_first(), "] "@) {
            Some((_, rest)) => match split_once(rest, ": "@) {
                Some((id, msg)) => if !id.contains(' ') && msg.len() > 0 {
                    msg
                } else {
                    rest
                },
                None => rest,
            },
            None => line,
        }
    } else {
        line
    }
}

/// `s` up to the first `p`, as `split(p).next()` gives it.
pub open spec fn before(s: Seq<char>, p: Seq<char>) -> Seq<char> {
    match find(s, p) {
        Some(i) => s.take(i),
        None => s,
    }
}

pub open spec fn readable(e: Seq<char>) -> Seq<char> {
    trim_spaces(before(without_tag(first_line(e)), " (caused by "@))
}

fn has_space(s: &[char]) -> (b: bool)
    ensures
        b == s@.contains(' '),
{
    let mut i: usize = 0;
    while i < s.len()
        invariant
            i <= s@.len(),
            forall|k: int| 0 <= k < i ==> s@[k] != ' ',
        decreases s@.len() - i,
    {
        if s[i] == ' ' {
            assert(s@[i as int] == ' ');
            return true;
        }
        i += 1;
    }
    false
}

/// First line of a yt-dlp error without the `[extractor] id: ` prefix and the
/// echoed Python exception. The full text stays available elsewhere.
pub fn readable_error(e: &str) -> (r: String)
    ensures
        r@ == readable(e@),
{
    let v = chars_of(e);
    let nl: [char; 1] = ['\n'];
    assert(nl@ == seq!['\n']);
    let end = until_index(v.as_slice(), nl.as_slice());
    let line = if end < v.len() && end > 0 && v[end - 1] == '\r' {
        slice_vec(v.as_slice(), 0, end - 1)
    } else {
        slice_vec(v.as_slice(), 0, end)
    };
    assert(line@ == first_line(e@));
    let closing = chars_of("] ");
    let colon = chars_of(": ");
    let tagless = if line.len() > 0 && line[0] == '[' {
        let after = slice_vec(line.as_slice(), 1, line.len());
        assert(after@ == line@.drop_first());
        match split_first(after.as_slice(), closing.as_slice()) {
            Some((_, rest)) => match split_first(rest.as_slice(), colon.as_slice()) {
                Some((id, msg)) => if !has_space(id.as_slice()) && msg.len() > 0 {
                    msg
                } else {
                    rest
                },
                None => rest,
            },
            None => line,
        }
    } else {
        line
    };
    let caused = chars_of(" (caused by ");
    let cut = match find_in(tagless.as_slice(), caused.as_slice()) {
        Some(i) => {
            proof {
                lemma_find_bounds(tagless@, caused@);
            }
            slice_vec(tagless.as_slice(), 0, i)
        },
        None => tagless,
    };
    let (lo, hi) = trim_bounds(cut.as_slice());
    string_of_range_of(cut.as_slice(), lo, hi)
}

fn string_of_range_of(v: &[char], lo: usize, hi: usize) -> (s: String)
    requires
        lo <= hi <= v@.len(),
    ensures
        s@ == v@.subrange(lo as int, hi as int),
{
    crate::text::string_of_range(v, lo, hi)
}

pub open spec fn note_or(note: Option<Seq<char>>, default: Seq<char>) -> Seq<char> {
    match note {
        Some(n) => n,
        None => default,
    }
}

/// The parts a downloading job shows: item, percent, speed, time left, or
/// "Lädt …" when none is known.
pub open spec fn download_parts(j: JobView) -> Seq<Seq<char>> {
    let a = match j.item {
        Some((i, n)) => seq![decimal(i as nat) + " von "@ + decimal(n as nat)],
        None => seq![],
    };
    let b = match j.frac {
        Some(f) => seq![decimal(round_half_even(f as nat, 100)) + " %"@],
        None => seq![],
    };
    let c = match j.speed {
        Some(s) => seq![bytes_text(s as nat) + "/s"@],
        None => seq![],
    };
    let d = match j.eta {
        Some(e) => seq!["noch "@ + eta_text(e as nat)],
        None => seq![],
    };
    if (a + b + c + d).len() == 0 {
        seq!["Lädt …"@]
    } else {
        a + b + c + d
    }
}

/// The parts a job's state shows, and the tone; `start` describes the
/// start time of a scheduled job.
pub open spec fn state_parts(j: JobView, start: Seq<char>) -> (Seq<Seq<char>>, Tone) {
    match j.state {
        JobState::Scheduled(_) => (seq!["Startet "@ + start], Tone::Normal),
        JobState::Queued => (seq![note_or(j.note, "Wartet"@)], Tone::Normal),
        JobState::Resolving => (seq!["Suche Quelle …"@], Tone::Normal),
        JobState::Processing => (seq!["Wird umgewandelt …"@], Tone::Normal),
        JobState::Group => (
            match j.item {
                Some((i, n)) => seq![decimal(i as nat) + " von "@ + decimal(n as nat) + " fertig"@],
                None => seq!["Wird vorbereitet …"@],
            },
            Tone::Normal,
        ),
        JobState::Downloading => (download_parts(j), Tone::Normal),
        JobState::Done => (seq![note_or(j.note, "Fertig"@)], Tone::Normal),
        JobState::NoMatch => (seq!["Kein passender Treffer"@], Tone::Warning),
        JobState::Cancelled => (seq!["Gestoppt"@], Tone::Normal),
        JobState::Failed(e) => (seq![readable(e@)], Tone::Error),
    }
}

/// "YouTube · 45 % · 3.8 MB/s · noch 0:12". Children leave out the source.
pub open spec fn status_of(j: JobView, child: bool, start: Seq<char>) -> (Seq<char>, Tone) {
    let (ps, tone) = state_parts(j, start);
    (join(if child {
        ps
    } else {
        seq![j.source] + ps
    }, " · "@), tone)
}

fn push_string(parts: &mut Vec<String>, s: String)
    ensures
        string_views(final(parts)@) == string_views(old(parts)@).push(s@),
{
    parts.push(s);
    assert(string_views(parts@) =~= string_views(old(parts)@).push(s@));
}

impl Job {
    pub open spec fn group(self) -> bool {
        self.children@.len() > 0 || self.state is Group
    }

    pub fn is_group(&self) -> (b: bool)
        ensures
            b == self.group(),
    {
        !self.children.is_empty() || matches!(self.state, JobState::Group)
    }

    /// A copy with the same contents.
    pub fn duplicate(&self) -> (r: Job)
        ensures
            r@ == self@,
    {
        Job {
            id: self.id,
            parent: self.parent,
            children: self.children.clone(),
            url: self.url.clone(),
            title: self.title.clone(),
            source: self.source,
            state: copy_state(&self.state),
            frac: self.frac,
            speed: self.speed,
            eta: self.eta,
            item: self.item,
            note: copy_text(&self.note),
            output: copy_text(&self.output),
            expanded: self.expanded,
        }
    }

    fn download_parts(&self, parts: &mut Vec<String>)
        requires
            self.state is Downloading,
        ensures
            string_views(final(parts)@) == string_views(old(parts)@) + download_parts(self@),
    {
        let lead = parts.len();
        let ghost before = string_views(parts@);
        if let Some((i, n)) = self.item {
            let mut s = String::new();
            push_decimal(&mut s, i as u64);
            push_str(&mut s, " von ");
            push_decimal(&mut s, n as u64);
            push_string(parts, s);
        }
        if let Some(f) = self.frac {
            let q = f / 100;
            let rem = f % 100;
            let p = if 2 * rem > 100 || (2 * rem == 100 && q % 2 == 1) {
                q + 1
            } else {
                q
            };
            let mut s = String::new();
            push_decimal(&mut s, p as u64);
            push_str(&mut s, " %");
            push_string(parts, s);
        }
        if let Some(sp) = self.speed {
            let mut s = fmt_bytes(sp);
            push_str(&mut s, "/s");
            push_string(parts, s);
        }
        if let Some(e) = self.eta {
            let mut s = String::from_str("noch ");
            let t = fmt_eta(e);
            push_str(&mut s, t.as_str());
            push_string(parts, s);
        }
        if parts.len() == lead {
            push_string(parts, String::from_str("Lädt …"));
        }
        let ghost j = self@;
        let ghost a = match j.item {
            Some((i, n)) => seq![decimal(i as nat) + " von "@ + decimal(n as nat)],
            None => Seq::<Seq<char>>::empty(),
        };
        let ghost b = match j.frac {
            Some(f) => seq![decimal(round_half_even(f as nat, 100)) + " %"@],
            None => Seq::<Seq<char>>::empty(),
        };
        let ghost c = match j.speed {
            Some(s) => seq![bytes_text(s as nat) + "/s"@],
            None => Seq::<Seq<char>>::empty(),
        };
        let ghost d = match j.eta {
            Some(e) => seq!["noch "@ + eta_text(e as nat)],
            None => Seq::<Seq<char>>::empty(),
        };
        assert((a + b + c + d).len() == 0 ==> string_views(parts@) =~= before + seq!["Lädt …"@]);
        assert((a + b + c + d).len() > 0 ==> string_views(parts@) =~= before + (a + b + c + d));
    }

    /// The status line with `start` as the description of a scheduled
    /// start.
    pub fn status_line(&self, child: bool, start: &str) -> (r: (String, Tone))
        ensures
            (r.0@, r.1) == status_of(self@, child, start@),
    {
        let mut parts: Vec<String> = Vec::new();
        assert(string_views(parts@) =~= seq![]);
        if !child {
            push_string(&mut parts, String::from_str(self.source));
        }
        let ghost lead = string_views(parts@);
        assert(lead =~= (if child {
            seq![]
        } else {
            seq![self@.source]
        }));
        let mut tone = Tone::Normal;
        match &self.state {
            JobState::Scheduled(_) => {
                let mut s = String::from_str("Startet ");
                push_str(&mut s, start);
                push_string(&mut parts, s);
            },
            JobState::Queued => {
                let s = match &self.note {
                    Some(n) => n.clone(),
                    None => String::from_str("Wartet"),
                };
                push_string(&mut parts, s);
            },
            JobState::Resolving => push_string(&mut parts, String::from_str("Suche Quelle …")),
            JobState::Processing => push_string(&mut parts, String::from_str("Wird umgewandelt …")),
            JobState::Group => {
                let s = match self.item {
                    Some((i, n)) => {
                        let mut s = String::new();
                        push_decimal(&mut s, i as u64);
                        push_str(&mut s, " von ");
                        push_decimal(&mut s, n as u64);
                        push_str(&mut s, " fertig");
                        s
                    },
                    None => String::from_str("Wird vorbereitet …"),
                };
                push_string(&mut parts, s);
            },
            JobState::Downloading => self.download_parts(&mut parts),
            JobState::Done => {
                let s = match &self.note {
                    Some(n) => n.clone(),
                    None => String::from_str("Fertig"),
                };
                push_string(&mut parts, s);
            },
            JobState::NoMatch => {
                tone = Tone::Warning;
                push_string(&mut parts, String::from_str("Kein passender Treffer"));
            },
            JobState::Cancelled => push_string(&mut parts, String::from_str("Gestoppt")),
            JobState::Failed(e) => {
                tone = Tone::Error;
                push_string(&mut parts, readable_error(e.as_str()));
            },
        }
        proof {
            let (ps, t) = state_parts(self@, start@);
            assert(string_views(parts@) =~= lead + ps);
            if child {
                assert(lead + ps =~= ps);
            } else {
                assert(lead + ps =~= seq![self@.source] + ps);
            }
        }
        (join_strings(parts.as_slice(), " · "), tone)
    }

    /// "YouTube · 45 % · 3.8 MB/s · noch 0:12". Children leave out the source.
    pub fn status(&self, child: bool) -> (r: (String, Tone))
        ensures
            exists|start: Seq<char>| start_fits(self@.state, start) && (r.0@, r.1) == #[trigger] status_of(self@, child, start),
            !(self.state is Scheduled) ==> (r.0@, r.1) == status_of(self@, child, seq![]),
            self.state matches JobState::Scheduled(at) ==> exists|start: Seq<char>|
                crate::schedule::start_reads(at as int, start) && (r.0@, r.1) == #[trigger] status_of(
                    self@,
                    child,
                    start,
                ),
    {
        let start = match self.state {
            JobState::Scheduled(at) => crate::schedule::describe_unix(at),
            _ => String::new(),
        };
        let r = self.status_line(child, start.as_str());
        assert((r.0@, r.1) == status_of(self@, child, start@));
        assert(start_fits(self@.state, start@));
        r
    }
}

/// The start text a status line holds: for a job scheduled at `at` how that
/// start reads in local time against the local time now; none for other
/// jobs.
pub open spec fn start_fits(state: JobState, start: Seq<char>) -> bool {
    match state {
        JobState::Scheduled(at) => crate::schedule::start_reads(at as int, start),
        _ => start == Seq::<char>::empty(),
    }
}

/// Position of the last job with `id`: where updates for `id` land.
pub open spec fn last_pos(l: Seq<JobView>, id: JobId) -> Option<int>
    decreases l.len(),
{
    if l.len() == 0 {
        None
    } else if l.last().id == id {
        Some(l.len() - 1)
    } else {
        last_pos(l.drop_last(), id)
    }
}

/// The index from job ids to positions that a list implies.
pub open spec fn index_of(l: Seq<JobView>) -> Map<JobId, usize> {
    Map::new(|k: JobId| last_pos(l, k) is Some, |k: JobId| last_pos(l, k).unwrap() as usize)
}

pub proof fn lemma_last_pos(l: Seq<JobView>, id: JobId)
    ensures
        last_pos(l, id) matches Some(i) ==> 0 <= i < l.len() && l[i].id == id && forall|k: int|
            i < k < l.len() ==> #[trigger] l[k].id != id,
        last_pos(l, id) is None ==> forall|k: int| 0 <= k < l.len() ==> #[trigger] l[k].id != id,
    decreases l.len(),
{
    if l.len() > 0 {
        lemma_last_pos(l.drop_last(), id);
        assert forall|k: int| 0 <= k < l.len() - 1 implies #[trigger] l[k].id == l.drop_last()[k].id by {}
    }
}

proof fn lemma_index_push(l: Seq<JobView>, j: JobView)
    requires
        l.len() < usize::MAX,
    ensures
        index_of(l.push(j)) == index_of(l).insert(j.id, l.len() as usize),
{
    assert(l.push(j).drop_last() == l);
    assert(index_of(l.push(j)) =~= index_of(l).insert(j.id, l.len() as usize));
}

/// The new job an update announces.
pub open spec fn fresh(id: JobId, parent: Option<JobId>, url: Seq<char>, title: Seq<char>, source: Seq<char>) -> JobView {
    JobView {
        id: id,
        parent: parent,
        children: seq![],
        url: url,
        title: title,
        source: source,
        state: JobState::Queued,
        frac: None,
        speed: None,
        eta: None,
        item: None,
        note: None,
        output: None,
        expanded: true,
    }
}

/// The list with a new job at the end, linked as child of the last job
/// with its parent's id (the new job itself counts).
pub open spec fn with_new(l: Seq<JobView>, nj: JobView) -> Seq<JobView> {
    let l1 = l.push(nj);
    match nj.parent {
        Some(p) => match last_pos(l1, p) {
            Some(q) => l1.update(q, JobView { children: l1[q].children.push(l.len() as usize), ..l1[q] }),
            None => l1,
        },
        None => l1,
    }
}

/// A job after an update other than a new job.
pub open spec fn updated(j: JobView, u: JobUpdate) -> JobView {
    match u {
        JobUpdate::New { .. } => j,
        JobUpdate::Title(t) => JobView { title: t@, ..j },
        JobUpdate::State(s) => if s.finished() {
            JobView {
                state: s,
                speed: None,
                eta: None,
                frac: if s is Done {
                    Some(10000u32)
                } else {
                    j.frac
                },
                ..j
            }
        } else {
            JobView { state: s, ..j }
        },
        JobUpdate::Progress { frac, speed, eta } => JobView { frac: frac, speed: speed, eta: eta, ..j },
        JobUpdate::Item { index, count } => JobView { item: Some((index, count)), ..j },
        JobUpdate::Output(p) => JobView { output: Some(p@), ..j },
        JobUpdate::Note(n) => JobView {
            note: if n@.len() > 0 {
                Some(n@)
            } else {
                None
            },
            ..j
        },
    }
}

/// The list after `update` for job `id`.
pub open spec fn applied(l: Seq<JobView>, id: JobId, u: JobUpdate) -> Seq<JobView> {
    match u {
        JobUpdate::New { parent, url, title, source } => with_new(
            l,
            fresh(id, parent, url@, title@, source@),
        ),
        _ => match last_pos(l, id) {
            Some(i) => l.update(i, updated(l[i], u)),
            None => l,
        },
    }
}

pub open spec fn job_views(v: Seq<Job>) -> Seq<JobView> {
    v.map_values(|j: Job| j@)
}

pub struct Jobs {
    pub list: Vec<Job>,
    index: HashMap<JobId, usize>,
}

impl View for Jobs {
    type V = Seq<JobView>;

    closed spec fn view(&self) -> Seq<JobView> {
        job_views(self.list@)
    }
}

/// Child positions lie inside the list.
pub open spec fn links_inside(l: Seq<JobView>) -> bool {
    forall|i: int, k: int|
        0 <= i < l.len() && 0 <= k < l[i].children.len() ==> #[trigger] l[i].children[k] < l.len()
}

impl Jobs {
    /// The index matches the list and every child position is inside it.
    pub closed spec fn wf(self) -> bool {
        &&& self.index@ == index_of(self@)
        &&& self@.len() < usize::MAX
        &&& links_inside(self@)
    }

    pub fn new() -> (r: Jobs)
        ensures
            r.wf(),
            r@ == Seq::<JobView>::empty(),
    {
        let r = Jobs { list: Vec::new(), index: HashMap::new() };
        assert(r@ =~= Seq::<JobView>::empty());
        assert(index_of(r@) =~= Map::<JobId, usize>::empty());
        r
    }

    /// Where updates for `id` land.
    fn position(&self, id: JobId) -> (r: Option<usize>)
        requires
            self.wf(),
        ensures
            match last_pos(self@, id) {
                Some(i) => r == Some(i as usize) && 0 <= i < self@.len(),
                None => r is None,
            },
    {
        proof {
            lemma_last_pos(self@, id);
        }
        match self.index.get(&id) {
            Some(i) => Some(*i),
            None => None,
        }
    }

    pub fn apply(&mut self, id: JobId, update: JobUpdate)
        requires
            old(self).wf(),
            old(self)@.len() + 1 < usize::MAX,
        ensures
            final(self).wf(),
            final(self)@ == applied(old(self)@, id, update),
    {
        if let JobUpdate::New { parent, url, title, source } = update {
            let idx = self.list.len();
            let job = Job {
                id,
                parent,
                children: Vec::new(),
                url,
                title,
                source,
                state: JobState::Queued,
                frac: None,
                speed: None,
                eta: None,
                item: None,
                note: None,
                output: None,
                expanded: true,
            };
            let ghost l0 = self@;
            self.list.push(job);
            assert(self@ =~= l0.push(job@));
            self.index.insert(id, idx);
            proof {
                lemma_index_push(l0, job@);
            }
            if let Some(p) = parent {
                if let Some(q) = self.position(p) {
                    assert(self@.len() == self.list@.len());
                    let ghost l1 = self@;
                    self.list[q].children.push(idx);
                    assert(self@ =~= l1.update(q as int, JobView { children: l1[q as int].children.push(idx), ..l1[q as int] }));
                    assert(index_of(self@) =~= index_of(l1)) by {
                        assert forall|k: JobId| #[trigger] last_pos(self@, k) == last_pos(l1, k) by {
                            lemma_same_ids(self@, l1, k);
                        }
                    }
                }
            }
            assert(links_inside(self@));
            return;
        }
        let idx = match self.position(id) {
            Some(i) => i,
            None => return,
        };
        let ghost l0 = self@;
        assert(self@.len() == self.list@.len());
        match update {
            JobUpdate::New { .. } => {},
            JobUpdate::Title(t) => self.list[idx].title = t,
            JobUpdate::State(s) => {
                if s.is_finished() {
                    self.list[idx].speed = None;
                    self.list[idx].eta = None;
                    if matches!(s, JobState::Done) {
                        self.list[idx].frac = Some(10000);
                    }
                }
                self.list[idx].state = s;
            },
            JobUpdate::Progress { frac, speed, eta } => {
                self.list[idx].frac = frac;
                self.list[idx].speed = speed;
                self.list[idx].eta = eta;
            },
            JobUpdate::Item { index, count } => self.list[idx].item = Some((index, count)),
            JobUpdate::Output(p) => self.list[idx].output = Some(p),
            JobUpdate::Note(n) => {
                self.list[idx].note = if !n.as_str().is_empty() {
                    Some(n)
                } else {
                    None
                };
            },
        }
        assert(self@ =~= applied(l0, id, update));
        assert(index_of(self@) =~= index_of(l0)) by {
            assert forall|k: JobId| #[trigger] last_pos(self@, k) == last_pos(l0, k) by {
                lemma_same_ids(self@, l0, k);
            }
        }
    }
}

/// Lists with the same ids at the same places have the same index.
proof fn lemma_same_ids(a: Seq<JobView>, b: Seq<JobView>, k: JobId)
    requires
        a.len() == b.len(),
        forall|i: int| 0 <= i < a.len() ==> #[trigger] a[i].id == b[i].id,
    ensures
        last_pos(a, k) == last_pos(b, k),
    decreases a.len(),
{
    if a.len() > 0 {
        lemma_same_ids(a.drop_last(), b.drop_last(), k);
    }
}

/// The job at `i` is at work itself, or one of its children is.
pub open spec fn runs(l: Seq<JobView>, i: int) -> bool {
    !l[i].state.finished() || exists|k: int|
        0 <= k < l[i].children.len() && !l[l[i].children[k] as int].state.finished()
}

/// Position of the parent of the job at `c`, if the parent is in the list.
pub open spec fn parent_pos(l: Seq<JobView>, c: int) -> Option<int> {
    match l[c].parent {
        Some(p) => last_pos(l, p),
        None => None,
    }
}

/// Which jobs clearing keeps: those at work and the members of groups at
/// work.
pub open spec fn still_needed(l: Seq<JobView>) -> Seq<bool> {
    Seq::new(l.len(), |i: int| runs(l, i) || (parent_pos(l, i) matches Some(q) && runs(l, q)))
}

/// Which jobs removing the tree of `id` keeps.
pub open spec fn outside_tree(l: Seq<JobView>, id: JobId) -> Seq<bool> {
    Seq::new(l.len(), |i: int| l[i].id != id && l[i].parent != Some(id))
}

/// Jobs kept by `keep`, in order, with their child links dropped.
pub open spec fn kept(l: Seq<JobView>, keep: Seq<bool>) -> Seq<JobView>
    decreases l.len(),
{
    if l.len() == 0 {
        seq![]
    } else {
        let rest = kept(l.drop_last(), keep);
        if keep[l.len() - 1] {
            rest.push(JobView { children: seq![], ..l.last() })
        } else {
            rest
        }
    }
}

/// Positions among the first `n` jobs whose parent is the job at `p`.
pub open spec fn linked_upto(l: Seq<JobView>, p: int, n: int) -> Seq<usize>
    decreases n,
{
    if n <= 0 {
        seq![]
    } else if parent_pos(l, n - 1) == Some(p) {
        linked_upto(l, p, n - 1).push((n - 1) as usize)
    } else {
        linked_upto(l, p, n - 1)
    }
}

/// Each job with its children found anew from the parent ids.
pub open spec fn relinked(l: Seq<JobView>) -> Seq<JobView> {
    Seq::new(l.len(), |i: int| JobView { children: linked_upto(l, i, l.len() as int), ..l[i] })
}

/// The rows of the jobs at `lo..hi`, highest position first.
pub open spec fn rows_between(l: Seq<JobView>, lo: int, hi: int) -> Seq<(usize, bool)>
    decreases hi - lo,
{
    if hi <= lo {
        seq![]
    } else {
        rows_between(l, lo + 1, hi) + row_block(l[lo], lo)
    }
}

/// A top-level job's row followed by its children's rows when it is
/// expanded; nothing for a child.
pub open spec fn row_block(j: JobView, i: int) -> Seq<(usize, bool)> {
    if j.parent is Some {
        seq![]
    } else if j.expanded {
        seq![(i as usize, false)] + j.children.map_values(|c: usize| (c, true))
    } else {
        seq![(i as usize, false)]
    }
}

pub open spec fn spins(j: JobView) -> bool {
    j.state is Resolving || j.state is Processing || ((j.state is Downloading || j.state is Group)
        && j.frac is None)
}

pub open spec fn top_jobs(l: Seq<JobView>) -> Seq<JobView> {
    l.filter(|j: JobView| j.parent is None)
}

pub open spec fn count_active(l: Seq<JobView>) -> nat {
    top_jobs(l).filter(|j: JobView| !j.state.finished() && !(j.state is Scheduled)).len()
}

pub open spec fn count_scheduled(l: Seq<JobView>) -> nat {
    top_jobs(l).filter(|j: JobView| j.state is Scheduled).len()
}

pub open spec fn ref_views(v: Seq<&Job>) -> Seq<JobView> {
    v.map_values(|j: &Job| j@)
}

proof fn lemma_linked_inside(l: Seq<JobView>, p: int, n: int)
    requires
        n <= l.len(),
    ensures
        forall|k: int| 0 <= k < linked_upto(l, p, n).len() ==> #[trigger] linked_upto(l, p, n)[k] < n,
    decreases n,
{
    if n > 0 {
        lemma_linked_inside(l, p, n - 1);
        let prev = linked_upto(l, p, n - 1);
        assert forall|k: int| 0 <= k < linked_upto(l, p, n).len() implies #[trigger] linked_upto(
            l,
            p,
            n,
        )[k] < n by {
            if k < prev.len() {
                assert(linked_upto(l, p, n)[k] == prev[k]);
            }
        }
    }
}

proof fn lemma_kept_unlinked(l: Seq<JobView>, keep: Seq<bool>)
    ensures
        forall|k: int| 0 <= k < kept(l, keep).len() ==> #[trigger] kept(l, keep)[k] == (JobView {
            children: seq![],
            ..kept(l, keep)[k]
        }),
    decreases l.len(),
{
    if l.len() > 0 {
        lemma_kept_unlinked(l.drop_last(), keep);
        let rest = kept(l.drop_last(), keep);
        assert forall|k: int| 0 <= k < kept(l, keep).len() implies #[trigger] kept(l, keep)[k] == (
        JobView { children: seq![], ..kept(l, keep)[k] }) by {
            if k < rest.len() {
                assert(kept(l, keep)[k] == rest[k]);
            }
            assert(kept(l, keep)[k].children =~= seq![]);
        }
    }
}

proof fn lemma_kept_len(l: Seq<JobView>, keep: Seq<bool>)
    ensures
        kept(l, keep).len() <= l.len(),
    decreases l.len(),
{
    if l.len() > 0 {
        lemma_kept_len(l.drop_last(), keep);
    }
}

impl Job {
    /// A copy without child links.
    fn unlinked(&self) -> (r: Job)
        ensures
            r@ == (JobView { children: seq![], ..self@ }),
    {
        Job {
            id: self.id,
            parent: self.parent,
            children: Vec::new(),
            url: self.url.clone(),
            title: self.title.clone(),
            source: self.source,
            state: copy_state(&self.state),
            frac: self.frac,
            speed: self.speed,
            eta: self.eta,
            item: self.item,
            note: copy_text(&self.note),
            output: copy_text(&self.output),
            expanded: self.expanded,
        }
    }
}

impl Jobs {
    /// The last job with `id`.
    pub fn get(&self, id: JobId) -> (r: Option<&Job>)
        requires
            self.wf(),
        ensures
            match last_pos(self@, id) {
                Some(i) => r matches Some(j) && j@ == self@[i],
                None => r is None,
            },
    {
        match self.position(id) {
            Some(i) => {
                assert(self@.len() == self.list@.len());
                Some(&self.list[i])
            },
            None => None,
        }
    }

    /// Shows or hides the children of the last job with `id`.
    pub fn set_expanded(&mut self, id: JobId, expanded: bool)
        requires
            old(self).wf(),
        ensures
            final(self).wf(),
            final(self)@ == match last_pos(old(self)@, id) {
                Some(i) => old(self)@.update(i, JobView { expanded: expanded, ..old(self)@[i] }),
                None => old(self)@,
            },
    {
        if let Some(i) = self.position(id) {
            assert(self@.len() == self.list@.len());
            let ghost l0 = self@;
            self.list[i].expanded = expanded;
            assert(self@ =~= l0.update(i as int, JobView { expanded: expanded, ..l0[i as int] }));
            assert(index_of(self@) =~= index_of(l0)) by {
                assert forall|k: JobId| #[trigger] last_pos(self@, k) == last_pos(l0, k) by {
                    lemma_same_ids(self@, l0, k);
                }
            }
        }
    }

    /// The job itself or anything in its group is still at work.
    pub fn running(&self, idx: usize) -> (b: bool)
        requires
            self.wf(),
            idx < self@.len(),
        ensures
            b == runs(self@, idx as int),
    {
        assert(self@.len() == self.list@.len());
        let job = &self.list[idx];
        assert(job@ == self@[idx as int]);
        if !job.state.is_finished() {
            return true;
        }
        let mut k: usize = 0;
        while k < job.children.len()
            invariant
                self.wf(),
                self@.len() == self.list@.len(),
                job@ == self@[idx as int],
                idx < self@.len(),
                k <= job.children@.len(),
                forall|kk: int|
                    0 <= kk < k ==> self@[job.children@[kk] as int].state.finished(),
            decreases job.children@.len() - k,
        {
            let c = job.children[k];
            assert(c < self@.len()) by {
                assert(self@[idx as int].children[k as int] == c);
            }
            assert(self.list@[c as int]@ == self@[c as int]);
            if !self.list[c].state.is_finished() {
                return true;
            }
            k += 1;
        }
        false
    }

    /// Keeps the jobs whose flag in `keep` is set and links children anew.
    fn retain(&mut self, keep: &Vec<bool>)
        requires
            old(self).wf(),
            keep@.len() == old(self)@.len(),
        ensures
            final(self).wf(),
            final(self)@ == relinked(kept(old(self)@, keep@)),
    {
        let ghost l0 = self@;
        let n = self.list.len();
        assert(l0.len() == n);
        let mut list: Vec<Job> = Vec::new();
        let mut i: usize = 0;
        while i < n
            invariant
                n == self.list@.len() == l0.len(),
                l0 == self@,
                keep@.len() == n,
                i <= n,
                job_views(list@) == kept(l0.take(i as int), keep@),
                list@.len() <= i,
            decreases n - i,
        {
            proof {
                assert(l0.take(i + 1).drop_last() =~= l0.take(i as int));
                lemma_kept_len(l0.take(i as int), keep@);
            }
            if keep[i] {
                let j = self.list[i].unlinked();
                let ghost before = job_views(list@);
                list.push(j);
                assert(job_views(list@) =~= before.push(j@));
                assert(self.list@[i as int]@ == l0[i as int]);
            }
            i += 1;
        }
        assert(l0.take(n as int) == l0);
        let ghost kv = job_views(list@);
        let m = list.len();
        let mut index: HashMap<JobId, usize> = HashMap::new();
        let mut k: usize = 0;
        assert(index_of(kv.take(0)) =~= Map::<JobId, usize>::empty());
        while k < m
            invariant
                m == list@.len(),
                kv == job_views(list@),
                k <= m,
                m <= n,
                n < usize::MAX,
                index@ == index_of(kv.take(k as int)),
            decreases m - k,
        {
            proof {
                assert(kv.take(k + 1) =~= kv.take(k as int).push(kv[k as int]));
                lemma_index_push(kv.take(k as int), kv[k as int]);
            }
            index.insert(list[k].id, k);
            k += 1;
        }
        assert(kv.take(m as int) == kv);
        let mut links: Vec<Option<usize>> = Vec::new();
        let mut c: usize = 0;
        while c < m
            invariant
                m == list@.len(),
                kv == job_views(list@),
                index@ == index_of(kv),
                c <= m,
                links@.len() == c,
                forall|x: int| 0 <= x < c ==> match #[trigger] parent_pos(kv, x) {
                    Some(q) => links@[x] == Some(q as usize) && 0 <= q < m,
                    None => links@[x] is None,
                },
            decreases m - c,
        {
            proof {
                lemma_last_pos(kv, kv[c as int].parent.unwrap_or(0));
            }
            let link = match list[c].parent {
                Some(p) => match index.get(&p) {
                    Some(q) => Some(*q),
                    None => None,
                },
                None => None,
            };
            proof {
                if let Some(p) = kv[c as int].parent {
                    lemma_last_pos(kv, p);
                }
            }
            links.push(link);
            c += 1;
        }
        proof {
            lemma_kept_unlinked(l0, keep@);
            assert forall|q: int| 0 <= q < m implies #[trigger] job_views(list@)[q] == (JobView {
                children: linked_upto(kv, q, 0),
                ..kv[q]
            }) by {
                assert(kv[q] == (JobView { children: seq![], ..kv[q] }));
            }
        }
        let mut c: usize = 0;
        while c < m
            invariant
                m == list@.len(),
                links@.len() == m,
                c <= m,
                forall|x: int| 0 <= x < m ==> match #[trigger] parent_pos(kv, x) {
                    Some(q) => links@[x] == Some(q as usize) && 0 <= q < m,
                    None => links@[x] is None,
                },
                forall|q: int|
                    0 <= q < m ==> #[trigger] job_views(list@)[q] == (JobView {
                        children: linked_upto(kv, q, c as int),
                        ..kv[q]
                    }),
            decreases m - c,
        {
            let link = links[c];
            assert(match parent_pos(kv, c as int) {
                Some(q) => link == Some(q as usize) && 0 <= q < m,
                None => link is None,
            });
            if let Some(p) = link {
                let ghost l1 = job_views(list@);
                list[p].children.push(c);
                assert forall|q: int| 0 <= q < m implies #[trigger] job_views(list@)[q] == (JobView {
                    children: linked_upto(kv, q, c + 1),
                    ..kv[q]
                }) by {
                    if q == p as int {
                        assert(job_views(list@)[q] == (JobView { children: l1[q].children.push(c), ..l1[q] }));
                    } else {
                        assert(job_views(list@)[q] == l1[q]);
                    }
                }
            } else {
                assert forall|q: int| 0 <= q < m implies #[trigger] job_views(list@)[q] == (JobView {
                    children: linked_upto(kv, q, c + 1),
                    ..kv[q]
                }) by {
                    assert(linked_upto(kv, q, c + 1) == linked_upto(kv, q, c as int));
                }
            }
            c += 1;
        }
        self.list = list;
        self.index = index;
        assert(self@ =~= relinked(kv));
        assert(index_of(self@) =~= index_of(kv)) by {
            assert forall|k: JobId| #[trigger] last_pos(self@, k) == last_pos(kv, k) by {
                lemma_same_ids(self@, kv, k);
            }
        }
        assert(links_inside(self@)) by {
            assert forall|q: int, x: int|
                0 <= q < self@.len() && 0 <= x < self@[q].children.len() implies #[trigger] self@[q].children[x]
                < self@.len() by {
                lemma_linked_inside(kv, q, m as int);
            }
        }
        proof {
            lemma_kept_len(l0, keep@);
        }
    }

    /// Drops finished entries; a group stays as long as anything in it runs.
    pub fn clear_finished(&mut self)
        requires
            old(self).wf(),
        ensures
            final(self).wf(),
            final(self)@ == relinked(kept(old(self)@, still_needed(old(self)@))),
    {
        let ghost l0 = self@;
        let n = self.list.len();
        assert(self@.len() == n);
        let ghost want = still_needed(l0);
        let mut keep: Vec<bool> = Vec::new();
        let mut i: usize = 0;
        while i < n
            invariant
                self@ == l0,
                self.wf(),
                n == l0.len(),
                i <= n,
                keep@ == want.take(i as int),
                want == still_needed(l0),
            decreases n - i,
        {
            let parent = match self.list[i].parent {
                Some(p) => self.position(p),
                None => None,
            };
            proof {
                assert(self.list@[i as int]@ == l0[i as int]);
            }
            let k = self.running(i) || match parent {
                Some(q) => self.running(q),
                None => false,
            };
            assert(k == want[i as int]);
            keep.push(k);
            assert(keep@ =~= want.take(i + 1));
            i += 1;
        }
        assert(want.take(n as int) =~= want);
        self.retain(&keep);
    }

    /// Removes a job together with its children (before trying it again).
    pub fn remove_tree(&mut self, id: JobId)
        requires
            old(self).wf(),
        ensures
            final(self).wf(),
            final(self)@ == relinked(kept(old(self)@, outside_tree(old(self)@, id))),
    {
        let ghost l0 = self@;
        let n = self.list.len();
        assert(self@.len() == n);
        let ghost want = outside_tree(l0, id);
        let mut keep: Vec<bool> = Vec::new();
        let mut i: usize = 0;
        while i < n
            invariant
                self@ == l0,
                n == l0.len() == self.list@.len(),
                i <= n,
                keep@ == want.take(i as int),
                want == outside_tree(l0, id),
            decreases n - i,
        {
            assert(self.list@[i as int]@ == l0[i as int]);
            let k = self.list[i].id != id && !matches!(self.list[i].parent, Some(p) if p == id);
            assert(k == want[i as int]);
            keep.push(k);
            assert(keep@ =~= want.take(i + 1));
            i += 1;
        }
        assert(want.take(n as int) =~= want);
        self.retain(&keep);
    }

    /// Top-level jobs newest first, each followed by its children when expanded.
    pub fn visible_rows(&self) -> (r: Vec<(usize, bool)>)
        requires
            self.wf(),
        ensures
            r@ == rows_between(self@, 0, self@.len() as int),
    {
        let n = self.list.len();
        assert(self@.len() == n);
        let mut rows: Vec<(usize, bool)> = Vec::new();
        let mut idx: usize = n;
        while idx > 0
            invariant
                n == self@.len() == self.list@.len(),
                idx <= n,
                rows@ == rows_between(self@, idx as int, n as int),
            decreases idx,
        {
            idx -= 1;
            let job = &self.list[idx];
            assert(job@ == self@[idx as int]);
            let ghost before = rows@;
            if job.parent.is_none() {
                rows.push((idx, false));
                if job.expanded {
                    let mut k: usize = 0;
                    while k < job.children.len()
                        invariant
                            k <= job.children@.len(),
                            rows@ == before + seq![(idx, false)] + job.children@.take(k as int).map_values(
                                |c: usize| (c, true),
                            ),
                        decreases job.children@.len() - k,
                    {
                        let ghost r0 = rows@;
                        rows.push((job.children[k], true));
                        assert(job.children@.take(k + 1).map_values(|c: usize| (c, true)) =~= job.children@.take(
                            k as int,
                        ).map_values(|c: usize| (c, true)).push((job.children@[k as int], true)));
                        k += 1;
                    }
                    assert(job.children@.take(job.children@.len() as int) == job.children@);
                }
            }
            assert(rows@ =~= rows_between(self@, idx as int, n as int));
        }
        rows
    }

    /// Whether something on screen spins and needs continuous repaints.
    pub fn animating(&self) -> (b: bool)
        ensures
            b == exists|i: int| 0 <= i < self@.len() && spins(#[trigger] self@[i]),
    {
        let mut i: usize = 0;
        while i < self.list.len()
            invariant
                i <= self.list@.len() == self@.len(),
                forall|k: int| 0 <= k < i ==> !spins(#[trigger] self@[k]),
            decreases self.list@.len() - i,
        {
            let j = &self.list[i];
            assert(j@ == self@[i as int]);
            let s = match j.state {
                JobState::Resolving | JobState::Processing => true,
                JobState::Downloading | JobState::Group => j.frac.is_none(),
                _ => false,
            };
            if s {
                return true;
            }
            i += 1;
        }
        false
    }

    /// All jobs, in the order they arrived.
    pub fn all(&self) -> (r: Vec<&Job>)
        ensures
            ref_views(r@) == self@,
    {
        let mut r: Vec<&Job> = Vec::new();
        let mut i: usize = 0;
        while i < self.list.len()
            invariant
                i <= self.list@.len() == self@.len(),
                ref_views(r@) == self@.take(i as int),
            decreases self.list@.len() - i,
        {
            let j = &self.list[i];
            assert(j@ == self@[i as int]);
            let ghost before = ref_views(r@);
            r.push(j);
            assert(ref_views(r@) =~= before.push(j@));
            assert(self@.take(i + 1) =~= self@.take(i as int).push(j@));
            i += 1;
        }
        assert(self@.take(self@.len() as int) == self@);
        r
    }

    /// The jobs without a parent, in the order they arrived.
    pub fn top_level(&self) -> (r: Vec<&Job>)
        ensures
            ref_views(r@) == top_jobs(self@),
    {
        let mut r: Vec<&Job> = Vec::new();
        let mut i: usize = 0;
        while i < self.list.len()
            invariant
                i <= self.list@.len() == self@.len(),
                ref_views(r@) == top_jobs(self@.take(i as int)),
            decreases self.list@.len() - i,
        {
            let j = &self.list[i];
            assert(j@ == self@[i as int]);
            proof {
                assert(self@.take(i + 1).drop_last() =~= self@.take(i as int));
                lemma_filter_push(self@.take(i as int), self@[i as int]);
                assert(self@.take(i + 1) =~= self@.take(i as int).push(self@[i as int]));
            }
            if j.parent.is_none() {
                let ghost before = ref_views(r@);
                r.push(j);
                assert(ref_views(r@) =~= before.push(j@));
            }
            i += 1;
        }
        assert(self@.take(self@.len() as int) == self@);
        r
    }

    /// Children of a group, in the order they arrived.
    pub fn children_of(&self, id: JobId) -> (r: Vec<&Job>)
        requires
            self.wf(),
        ensures
            match last_pos(self@, id) {
                Some(i) => ref_views(r@) == self@[i].children.map_values(|c: usize| self@[c as int]),
                None => r@.len() == 0,
            },
    {
        let mut r: Vec<&Job> = Vec::new();
        match self.get(id) {
            None => r,
            Some(job) => {
                let ghost i = last_pos(self@, id).unwrap();
                proof {
                    lemma_last_pos(self@, id);
                    assert(ref_views(r@) =~= job.children@.take(0).map_values(|c: usize| self@[c as int]));
                }
                let mut k: usize = 0;
                while k < job.children.len()
                    invariant
                        self.wf(),
                        self@.len() == self.list@.len(),
                        0 <= i < self@.len(),
                        job@ == self@[i],
                        k <= job.children@.len(),
                        ref_views(r@) == job.children@.take(k as int).map_values(|c: usize| self@[c as int]),
                    decreases job.children@.len() - k,
                {
                    let c = job.children[k];
                    assert(c < self@.len()) by {
                        assert(self@[i].children[k as int] == c);
                    }
                    let ghost before = ref_views(r@);
                    r.push(&self.list[c]);
                    assert(ref_views(r@) =~= before.push(self@[c as int]));
                    assert(job.children@.take(k + 1).map_values(|c: usize| self@[c as int]) =~= job.children@.take(
                        k as int,
                    ).map_values(|c: usize| self@[c as int]).push(self@[c as int]));
                    k += 1;
                }
                assert(job.children@.take(job.children@.len() as int) == job.children@);
                r
            },
        }
    }

    /// Top-level jobs that are neither finished nor scheduled.
    pub fn active(&self) -> (r: usize)
        ensures
            r == count_active(self@),
    {
        let top = self.top_level();
        let mut count: usize = 0;
        let mut i: usize = 0;
        while i < top.len()
            invariant
                i <= top@.len(),
                ref_views(top@) == top_jobs(self@),
                count == ref_views(top@).take(i as int).filter(|j: JobView| !j.state.finished() && !(
                j.state is Scheduled)).len(),
                count <= i,
            decreases top@.len() - i,
        {
            let j = top[i];
            proof {
                assert(ref_views(top@).take(i + 1).drop_last() =~= ref_views(top@).take(i as int));
                assert(ref_views(top@)[i as int] == j@);
                lemma_filter_push(ref_views(top@).take(i as int), j@);
                assert(ref_views(top@).take(i + 1) =~= ref_views(top@).take(i as int).push(j@));
            }
            if !j.state.is_finished() && !matches!(j.state, JobState::Scheduled(_)) {
                count += 1;
            }
            i += 1;
        }
        assert(ref_views(top@).take(top@.len() as int) == ref_views(top@));
        count
    }

    pub fn scheduled(&self) -> (r: usize)
        ensures
            r == count_scheduled(self@),
    {
        let top = self.top_level();
        let mut count: usize = 0;
        let mut i: usize = 0;
        while i < top.len()
            invariant
                i <= top@.len(),
                ref_views(top@) == top_jobs(self@),
                count == ref_views(top@).take(i as int).filter(|j: JobView| j.state is Scheduled).len(),
                count <= i,
            decreases top@.len() - i,
        {
            let j = top[i];
            proof {
                assert(ref_views(top@).take(i + 1).drop_last() =~= ref_views(top@).take(i as int));
                assert(ref_views(top@)[i as int] == j@);
                lemma_filter_push(ref_views(top@).take(i as int), j@);
                assert(ref_views(top@).take(i + 1) =~= ref_views(top@).take(i as int).push(j@));
            }
            if matches!(j.state, JobState::Scheduled(_)) {
                count += 1;
            }
            i += 1;
        }
        assert(ref_views(top@).take(top@.len() as int) == ref_views(top@));
        count
    }

    /// Nothing left to do: no job and no group is at work.
    pub fn all_finished(&self) -> (b: bool)
        requires
            self.wf(),
        ensures
            b == forall|i: int| 0 <= i < self@.len() ==> !#[trigger] runs(self@, i),
    {
        let n = self.list.len();
        assert(self@.len() == n);
        let mut i: usize = 0;
        while i < n
            invariant
                self.wf(),
                n == self@.len(),
                i <= n,
                forall|k: int| 0 <= k < i ==> !#[trigger] runs(self@, k),
            decreases n - i,
        {
            if self.running(i) {
                return false;
            }
            i += 1;
        }
        true
    }
}

/// Filtering a list with one more element.
pub proof fn lemma_filter_push(s: Seq<JobView>, x: JobView)
    ensures
        s.push(x).filter(|j: JobView| j.parent is None) == if x.parent is None {
            s.filter(|j: JobView| j.parent is None).push(x)
        } else {
            s.filter(|j: JobView| j.parent is None)
        },
        s.push(x).filter(|j: JobView| !j.state.finished() && !(j.state is Scheduled)) == if !x.state.finished() && !(x.state is Scheduled) {
            s.filter(|j: JobView| !j.state.finished() && !(j.state is Scheduled)).push(x)
        } else {
            s.filter(|j: JobView| !j.state.finished() && !(j.state is Scheduled))
        },
        s.push(x).filter(|j: JobView| j.state is Scheduled) == if x.state is Scheduled {
            s.filter(|j: JobView| j.state is Scheduled).push(x)
        } else {
            s.filter(|j: JobView| j.state is Scheduled)
        },
{
    reveal(Seq::filter);
    assert(s.push(x).drop_last() =~= s);
}

/// A new job is where later updates for its id land, and it starts queued
/// with the given link, title and source.
pub proof fn lemma_new_job_found(
    l: Seq<JobView>,
    id: JobId,
    parent: Option<JobId>,
    url: Seq<char>,
    title: Seq<char>,
    source: Seq<char>,
)
    ensures
        last_pos(with_new(l, fresh(id, parent, url, title, source)), id) == Some(l.len() as int),
        with_new(l, fresh(id, parent, url, title, source)).len() == l.len() + 1,
        ({
            let j = with_new(l, fresh(id, parent, url, title, source))[l.len() as int];
            &&& j.state is Queued
            &&& j.url == url && j.title == title && j.source == source && j.parent == parent
        }),
{
    let nj = fresh(id, parent, url, title, source);
    let l1 = l.push(nj);
    assert(l1.drop_last() == l);
    if let Some(p) = parent {
        lemma_last_pos(l1, p);
    }
    let r = with_new(l, nj);
    assert(r.len() == l1.len());
    assert(r[l.len() as int].id == id);
    assert(r.last() == r[l.len() as int]);
}

/// Updates for an id that is not in the list change nothing.
pub proof fn lemma_unknown_id_ignored(l: Seq<JobView>, id: JobId, u: JobUpdate)
    requires
        last_pos(l, id) is None,
        !(u is New),
    ensures
        applied(l, id, u) == l,
{
}

/// Clearing a list where nothing is at work leaves it empty.
pub proof fn lemma_clearing_idle_list(l: Seq<JobView>)
    requires
        forall|i: int| 0 <= i < l.len() ==> !#[trigger] runs(l, i),
    ensures
        kept(l, still_needed(l)).len() == 0,
{
    let keep = still_needed(l);
    assert forall|i: int| 0 <= i < l.len() implies !keep[i] by {
        if let Some(q) = parent_pos(l, i) {
            lemma_last_pos(l, l[i].parent.unwrap());
            assert(!runs(l, q));
        }
    }
    lemma_kept_none(l, keep);
}

proof fn lemma_kept_none(l: Seq<JobView>, keep: Seq<bool>)
    requires
        forall|i: int| 0 <= i < l.len() ==> !keep[i],
    ensures
        kept(l, keep).len() == 0,
    decreases l.len(),
{
    if l.len() > 0 {
        lemma_kept_none(l.drop_last(), keep);
    }
}

proof fn lemma_kept_outside(l: Seq<JobView>, keep: Seq<bool>, id: JobId)
    requires
        keep.len() >= l.len(),
        forall|i: int| 0 <= i < l.len() && keep[i] ==> l[i].id != id && l[i].parent != Some(id),
    ensures
        forall|k: int| 0 <= k < kept(l, keep).len() ==> #[trigger] kept(l, keep)[k].id != id
            && kept(l, keep)[k].parent != Some(id),
    decreases l.len(),
{
    if l.len() > 0 {
        let rest = kept(l.drop_last(), keep);
        lemma_kept_outside(l.drop_last(), keep, id);
        assert forall|k: int| 0 <= k < kept(l, keep).len() implies #[trigger] kept(l, keep)[k].id != id
            && kept(l, keep)[k].parent != Some(id) by {
            if k < rest.len() {
                assert(kept(l, keep)[k] == rest[k]);
            }
        }
    }
}

proof fn lemma_kept_same_mask(l: Seq<JobView>, a: Seq<bool>, b: Seq<bool>)
    requires
        a.len() <= b.len(),
        l.len() <= a.len(),
        forall|i: int| 0 <= i < a.len() ==> a[i] == b[i],
    ensures
        kept(l, a) == kept(l, b),
    decreases l.len(),
{
    if l.len() > 0 {
        lemma_kept_same_mask(l.drop_last(), a, b);
    }
}

/// After removing a job's tree, neither the job nor a child of it is left.
pub proof fn lemma_removed_tree_is_gone(l: Seq<JobView>, id: JobId)
    ensures
        forall|k: int|
            0 <= k < kept(l, outside_tree(l, id)).len()
                ==> #[trigger] kept(l, outside_tree(l, id))[k].id != id
                && kept(l, outside_tree(l, id))[k].parent != Some(id),
{
    assert forall|i: int| 0 <= i < l.len() && outside_tree(l, id)[i] implies l[i].id != id
        && l[i].parent != Some(id) by {}
    lemma_kept_outside(l, outside_tree(l, id), id);
}

/// After links are found anew, every child listed under a job names that
/// job as its parent.
pub proof fn lemma_relinked_children_point_back(l: Seq<JobView>)
    requires
        l.len() < usize::MAX,
    ensures
        forall|q: int, k: int|
            0 <= q < l.len() && 0 <= k < relinked(l)[q].children.len() ==> parent_pos(
                l,
                #[trigger] relinked(l)[q].children[k] as int,
            ) == Some(q),
{
    assert forall|q: int, k: int|
        0 <= q < l.len() && 0 <= k < relinked(l)[q].children.len() implies parent_pos(
        l,
        #[trigger] relinked(l)[q].children[k] as int,
    ) == Some(q) by {
        lemma_linked_point_back(l, q, l.len() as int);
        assert(relinked(l)[q].children == linked_upto(l, q, l.len() as int));
    }
}

proof fn lemma_linked_point_back(l: Seq<JobView>, p: int, n: int)
    requires
        n < usize::MAX,
    ensures
        forall|k: int| 0 <= k < linked_upto(l, p, n).len() ==> parent_pos(l, #[trigger] linked_upto(l, p, n)[k] as int)
            == Some(p) && linked_upto(l, p, n)[k] < n,
    decreases n,
{
    if n > 0 {
        lemma_linked_point_back(l, p, n - 1);
        let prev = linked_upto(l, p, n - 1);
        assert forall|k: int| 0 <= k < linked_upto(l, p, n).len() implies parent_pos(
            l,
            #[trigger] linked_upto(l, p, n)[k] as int,
        ) == Some(p) && linked_upto(l, p, n)[k] < n by {
            if k < prev.len() {
                assert(linked_upto(l, p, n)[k] == prev[k]);
            }
        }
    }
}

/// A child's line leaves out the source; a failure reads as an error and a
/// search without match as a warning, everything else normally.
pub proof fn lemma_status_tone(j: JobView, start: Seq<char>)
    ensures
        status_of(j, false, start).1 == status_of(j, true, start).1,
        status_of(j, true, start).1 == (if j.state is Failed {
            Tone::Error
        } else if j.state is NoMatch {
            Tone::Warning
        } else {
            Tone::Normal
        }),
{
}

} // verus!
