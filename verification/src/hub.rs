//! What every browser sees of the downloads: the list, tool status and
//! settings, each change numbered so a page that loaded the state at one
//! number applies exactly the newer changes; and what the web interface
//! hands out for a job: its file, or a ZIP of a folder or of a finished
//! playlist's files.

use crate::config::Config;
use crate::deps::DepsStatus;
use crate::files::{first_names, chosen, unique_names, Offer};
use crate::job::{Event, JobId, JobState, JobUpdate};
use crate::jobs::{applied, last_pos, ref_views, JobView, Jobs};
use crate::text::push_str;
use crate::util::{sanitize_filename, sanitized};
use vstd::prelude::*;

verus! {

/// One server-sent event: its name and JSON text.
#[derive(Clone, Debug)]
pub struct Msg {
    pub kind: &'static str,
    pub data: String,
}

/// The paths a job may hand out, read from the list; the file system is
/// looked at later, for [`offer`].
#[derive(Debug)]
pub enum Target {
    Path { path: String },
    Group { title: String, files: Vec<String> },
}

pub enum TargetView {
    Path(Seq<char>),
    Group(Seq<char>, Seq<Seq<char>>),
}

impl View for Target {
    type V = TargetView;

    open spec fn view(&self) -> TargetView {
        match self {
            Target::Path { path } => TargetView::Path(path@),
            Target::Group { title, files } => TargetView::Group(
                title@,
                files@.map_values(|f: String| f@),
            ),
        }
    }
}

/// The files of the children that finished well, in list order.
pub open spec fn done_outputs(cs: Seq<JobView>) -> Seq<Seq<char>>
    decreases cs.len(),
{
    if cs.len() == 0 {
        seq![]
    } else {
        let c = cs.last();
        match c.output {
            Some(p) if c.state == JobState::Done => done_outputs(cs.drop_last()).push(p),
            _ => done_outputs(cs.drop_last()),
        }
    }
}

/// What job `id` can hand out: its own output, else the files of a finished
/// group's children that are done.
pub open spec fn target_of(l: Seq<JobView>, id: JobId) -> Option<TargetView> {
    match last_pos(l, id) {
        None => None,
        Some(i) => {
            let j = l[i];
            match j.output {
                Some(p) => Some(TargetView::Path(p)),
                None => if !(j.children.len() > 0 || j.state is Group) || !j.state.finished() {
                    None
                } else {
                    let fs = done_outputs(j.children.map_values(|c: usize| l[c as int]));
                    if fs.len() > 0 {
                        Some(TargetView::Group(j.title, fs))
                    } else {
                        None
                    }
                },
            }
        },
    }
}

pub fn target(jobs: &Jobs, id: JobId) -> (r: Option<Target>)
    requires
        jobs.wf(),
    ensures
        match (r, target_of(jobs@, id)) {
            (None, None) => true,
            (Some(t), Some(v)) => t@ == v,
            _ => false,
        },
{
    let job = match jobs.get(id) {
        Some(j) => j,
        None => return None,
    };
    if let Some(p) = &job.output {
        return Some(Target::Path { path: p.clone() });
    }
    if !job.is_group() || !job.state.is_finished() {
        return None;
    }
    let kids = jobs.children_of(id);
    let ghost cs = ref_views(kids@);
    let mut files: Vec<String> = Vec::new();
    let mut i: usize = 0;
    while i < kids.len()
        invariant
            i <= kids@.len(),
            cs == ref_views(kids@),
            files@.map_values(|f: String| f@) == done_outputs(cs.take(i as int)),
        decreases kids@.len() - i,
    {
        assert(cs.take(i + 1).drop_last() =~= cs.take(i as int));
        let c = kids[i];
        if matches!(c.state, JobState::Done) {
            if let Some(p) = &c.output {
                let ghost before = files@.map_values(|f: String| f@);
                files.push(p.clone());
                assert(files@.map_values(|f: String| f@) =~= before.push(p@));
            }
        }
        i += 1;
    }
    assert(cs.take(kids@.len() as int) =~= cs);
    if files.len() > 0 {
        Some(Target::Group { title: job.title.clone(), files })
    } else {
        None
    }
}

/// What the file system says about a target's paths.
pub enum Found {
    /// The path is a file.
    File,
    /// The path is a folder: its own name, if it has one, and each file
    /// under it with its path relative to the folder.
    Folder { name: Option<String>, files: Vec<(String, String)> },
    /// For a group: the name and path of each of its files still there.
    Files(Vec<(String, String)>),
    /// Nothing usable.
    Nothing,
}

/// Entries placed in a folder called `name` inside the archive.
pub open spec fn prefixed(name: Seq<char>, files: Seq<(String, String)>) -> Seq<(Seq<char>, Seq<char>)> {
    files.map_values(|e: (String, String)| (name + "/"@ + e.0@, e.1@))
}

pub open spec fn pair_views(v: Seq<(String, String)>) -> Seq<(Seq<char>, Seq<char>)> {
    v.map_values(|e: (String, String)| (e.0@, e.1@))
}

fn prefix_all(name: &str, files: &Vec<(String, String)>) -> (r: Vec<(String, String)>)
    ensures
        pair_views(r@) == prefixed(name@, files@),
{
    let mut out: Vec<(String, String)> = Vec::new();
    let mut i: usize = 0;
    while i < files.len()
        invariant
            i <= files@.len(),
            pair_views(out@) == prefixed(name@, files@.take(i as int)),
        decreases files@.len() - i,
    {
        let mut n = String::from_str(name);
        push_str(&mut n, "/");
        push_str(&mut n, files[i].0.as_str());
        let ghost before = pair_views(out@);
        out.push((n, files[i].1.clone()));
        assert(pair_views(out@) =~= before.push((name@ + "/"@ + files@[i as int].0@, files@[i as int].1@)));
        assert(prefixed(name@, files@.take(i + 1)) =~= prefixed(name@, files@.take(i as int)).push(
            (name@ + "/"@ + files@[i as int].0@, files@[i as int].1@),
        ));
        i += 1;
    }
    assert(files@.take(files@.len() as int) =~= files@);
    out
}

/// `r` is what a target offers, given what the file system found: a file
/// itself; a folder as a ZIP named after it, entries under that name; a
/// group's files as a ZIP named after its title, each name made unique.
/// Nothing when no file is left.
pub open spec fn offers(t: TargetView, f: Found, r: Option<Offer>) -> bool {
    match (t, f) {
        (TargetView::Path(p), Found::File) => r matches Some(Offer::File(q)) && q@ == p,
        (TargetView::Path(_), Found::Folder { name, files }) => {
            let n = sanitized(
                match name {
                    Some(x) => x@,
                    None => "download"@,
                },
            );
            if files@.len() == 0 {
                r is None
            } else {
                r matches Some(Offer::Zip { name: zn, entries }) && zn@ == n && pair_views(entries@)
                    == prefixed(n, files@)
            }
        },
        (TargetView::Group(title, _), Found::Files(files)) => {
            let n = sanitized(title);
            if files@.len() == 0 {
                r is None
            } else {
                r matches Some(Offer::Zip { name: zn, entries }) && zn@ == n && entries@.len()
                    == files@.len() && first_names(entries@) == chosen(
                    prefixed(n, files@).map_values(|e: (Seq<char>, Seq<char>)| e.0),
                ).0 && forall|i: int|
                    0 <= i < entries@.len() ==> #[trigger] entries@[i].1@ == files@[i].1@
            }
        },
        _ => r is None,
    }
}

/// Turns a target into something to send.
pub fn offer(target: Target, found: Found) -> (r: Option<Offer>)
    ensures
        offers(target@, found, r),
{
    match (target, found) {
        (Target::Path { path }, Found::File) => Some(Offer::File(path)),
        (Target::Path { .. }, Found::Folder { name, files }) => {
            let raw = match &name {
                Some(x) => x.clone(),
                None => String::from_str("download"),
            };
            let n = sanitize_filename(raw.as_str());
            if files.len() == 0 {
                return None;
            }
            let entries = prefix_all(n.as_str(), &files);
            Some(Offer::Zip { name: n, entries })
        },
        (Target::Group { title, .. }, Found::Files(files)) => {
            let n = sanitize_filename(title.as_str());
            if files.len() == 0 {
                return None;
            }
            let entries = prefix_all(n.as_str(), &files);
            assert(first_names(entries@) =~= prefixed(n@, files@).map_values(
                |e: (Seq<char>, Seq<char>)| e.0,
            ));
            let named = unique_names(entries);
            proof {
                assert forall|i: int| 0 <= i < named@.len() implies #[trigger] named@[i].1@
                    == files@[i].1@ by {
                    assert(pair_views(entries@)[i] == prefixed(n@, files@)[i]);
                }
            }
            Some(Offer::Zip { name: n, entries: named })
        },
        _ => None,
    }
}

/// Takes in a tool report. Progress messages while installing carry no
/// versions, so what is known stays and only the message changes; any other
/// report replaces the known state, and one that is not a progress message
/// counts as a finished check.
pub fn merge_tools(tools: &mut DepsStatus, checked: &mut bool, d: DepsStatus)
    ensures
        d.ytdlp is None && d.busy is Some ==> *final(tools) == (DepsStatus { busy: d.busy, ..*old(tools) })
            && *final(checked) == *old(checked),
        !(d.ytdlp is None && d.busy is Some) ==> *final(tools) == d && *final(checked) == (*old(checked)
            || d.busy is None),
{
    if d.ytdlp.is_none() && d.busy.is_some() {
        tools.busy = d.busy;
    } else {
        *checked = *checked || d.busy.is_none();
        *tools = d;
    }
}

/// What open pages are kept in step with, and the number of the last change
/// sent out. A page loads the state with its number, then applies only
/// changes with higher numbers.
pub struct Model {
    pub jobs: Jobs,
    pub tools: DepsStatus,
    /// A complete tool check has come back; until then nothing counts as
    /// missing.
    pub tools_checked: bool,
    pub cfg: Config,
    /// The download folder was set on the command line and cannot be
    /// changed from a page.
    pub dir_locked: bool,
    pub seq: u64,
}

impl Model {
    pub fn new(cfg: Config, dir_locked: bool) -> (m: Model)
        ensures
            m.jobs.wf(),
            m.jobs@ == Seq::<JobView>::empty(),
            m.tools.ytdlp is None && m.tools.busy is None && m.tools.error is None,
            !m.tools_checked,
            m.cfg == cfg,
            m.dir_locked == dir_locked,
            m.seq == 0,
    {
        Model { jobs: Jobs::new(), tools: DepsStatus::new(), tools_checked: false, cfg, dir_locked, seq: 0 }
    }

    /// Numbers a change that is sent out: the next number.
    pub fn publish(&mut self) -> (n: u64)
        requires
            old(self).seq < u64::MAX,
        ensures
            n == old(self).seq + 1,
            final(self).seq == n,
            final(self).jobs == old(self).jobs,
            final(self).tools == old(self).tools,
            final(self).tools_checked == old(self).tools_checked,
            final(self).cfg == old(self).cfg,
            final(self).dir_locked == old(self).dir_locked,
    {
        self.seq = self.seq + 1;
        self.seq
    }

    /// A job update from the engine: applied to the list; when the list
    /// knows the job afterwards, its new state goes out under the next
    /// number, which comes back.
    pub fn on_job(&mut self, id: JobId, update: JobUpdate) -> (r: Option<u64>)
        requires
            old(self).jobs.wf(),
            old(self).jobs@.len() + 1 < usize::MAX,
            old(self).seq < u64::MAX,
        ensures
            final(self).jobs.wf(),
            final(self).jobs@ == applied(old(self).jobs@, id, update),
            match last_pos(final(self).jobs@, id) {
                Some(_) => r == Some((old(self).seq + 1) as u64) && final(self).seq == old(self).seq + 1,
                None => r is None && final(self).seq == old(self).seq,
            },
            final(self).tools == old(self).tools,
            final(self).tools_checked == old(self).tools_checked,
            final(self).cfg == old(self).cfg,
            final(self).dir_locked == old(self).dir_locked,
    {
        self.jobs.apply(id, update);
        match self.jobs.get(id) {
            Some(_) => Some(self.publish()),
            None => None,
        }
    }

    /// The engine's news: job updates and tool reports go out numbered (the
    /// number comes back); app updates and links from outside mean nothing
    /// on a server.
    pub fn on_event(&mut self, ev: Event) -> (r: Option<u64>)
        requires
            old(self).jobs.wf(),
            old(self).jobs@.len() + 1 < usize::MAX,
            old(self).seq < u64::MAX,
        ensures
            final(self).jobs.wf(),
            final(self).cfg == old(self).cfg,
            final(self).dir_locked == old(self).dir_locked,
            match ev {
                Event::Job(id, update) => {
                    &&& final(self).jobs@ == applied(old(self).jobs@, id, update)
                    &&& final(self).tools == old(self).tools
                    &&& match last_pos(final(self).jobs@, id) {
                        Some(_) => r == Some((old(self).seq + 1) as u64) && final(self).seq == old(self).seq + 1,
                        None => r is None && final(self).seq == old(self).seq,
                    }
                },
                Event::Deps(d) => {
                    &&& r == Some((old(self).seq + 1) as u64)
                    &&& final(self).seq == old(self).seq + 1
                    &&& final(self).jobs == old(self).jobs
                    &&& d.ytdlp is None && d.busy is Some ==> final(self).tools == (DepsStatus {
                        busy: d.busy,
                        ..old(self).tools
                    })
                    &&& !(d.ytdlp is None && d.busy is Some) ==> final(self).tools == d
                },
                _ => r is None && final(self).seq == old(self).seq && final(self).jobs == old(self).jobs
                    && final(self).tools == old(self).tools,
            },
    {
        match ev {
            Event::Job(id, update) => self.on_job(id, update),
            Event::Deps(d) => Some(self.on_deps(d)),
            _ => None,
        }
    }

    /// A tool report, taken in as `merge_tools` does and sent out under the
    /// next number, which comes back.
    pub fn on_deps(&mut self, d: DepsStatus) -> (n: u64)
        requires
            old(self).seq < u64::MAX,
        ensures
            n == old(self).seq + 1,
            final(self).seq == n,
            d.ytdlp is None && d.busy is Some ==> final(self).tools == (DepsStatus { busy: d.busy, ..old(self).tools })
                && final(self).tools_checked == old(self).tools_checked,
            !(d.ytdlp is None && d.busy is Some) ==> final(self).tools == d && final(self).tools_checked == (
            old(self).tools_checked || d.busy is None),
            final(self).jobs == old(self).jobs,
            final(self).cfg == old(self).cfg,
            final(self).dir_locked == old(self).dir_locked,
    {
        merge_tools(&mut self.tools, &mut self.tools_checked, d);
        self.publish()
    }
}

} // verus!
