//! Downloads that have not finished yet. Every change is reported, so the
//! caller writes the list to disk and closing the app (or a crash, or an
//! update) does not lose them.

use crate::config::Config;
use crate::job::JobId;
use crate::text::{same_str, string_views};
use vstd::prelude::*;

verus! {

/// A link waiting to be downloaded, or being downloaded.
#[derive(Clone, Debug, PartialEq)]
pub struct Entry {
    pub url: String,
    /// Settings at the time the link was added.
    pub cfg: Config,
    /// Unix seconds; `None` starts right away.
    pub start_at: Option<i64>,
    /// Items of a playlist or album that are already done (their keys).
    pub done: Vec<String>,
}

pub struct EntryView {
    pub url: Seq<char>,
    pub cfg: Config,
    pub start_at: Option<i64>,
    pub done: Seq<Seq<char>>,
}

impl View for Entry {
    type V = EntryView;

    open spec fn view(&self) -> EntryView {
        EntryView { url: self.url@, cfg: self.cfg, start_at: self.start_at, done: string_views(self.done@) }
    }
}

impl Entry {
    pub fn new(url: String, cfg: Config, start_at: Option<i64>) -> (r: Entry)
        ensures
            r.url == url,
            r.cfg == cfg,
            r.start_at == start_at,
            r.done@.len() == 0,
    {
        Entry { url, cfg, start_at, done: Vec::new() }
    }
}

/// The unfinished downloads, by job id, in the order they were added.
pub struct Journal {
    entries: Vec<(JobId, Entry)>,
}

pub open spec fn entry_views(v: Seq<(JobId, Entry)>) -> Seq<(JobId, EntryView)> {
    v.map_values(|p: (JobId, Entry)| (p.0, p.1@))
}

/// The first place of job `id`.
pub open spec fn first_pos(l: Seq<(JobId, EntryView)>, id: JobId) -> Option<int>
    decreases l.len(),
{
    if l.len() == 0 {
        None
    } else if l[0].0 == id {
        Some(0)
    } else {
        match first_pos(l.drop_first(), id) {
            Some(i) => Some(i + 1),
            None => None,
        }
    }
}

proof fn lemma_first_pos(l: Seq<(JobId, EntryView)>, id: JobId)
    ensures
        first_pos(l, id) matches Some(i) ==> 0 <= i < l.len() && l[i].0 == id && forall|k: int|
            0 <= k < i ==> #[trigger] l[k].0 != id,
        first_pos(l, id) is None ==> forall|k: int| 0 <= k < l.len() ==> #[trigger] l[k].0 != id,
    decreases l.len(),
{
    if l.len() > 0 {
        lemma_first_pos(l.drop_first(), id);
        assert forall|k: int| 1 <= k < l.len() implies #[trigger] l[k] == l.drop_first()[k - 1] by {}
    }
}

/// The entries that stay once job `id` is gone.
pub open spec fn without(l: Seq<(JobId, EntryView)>, id: JobId) -> Seq<(JobId, EntryView)> {
    l.filter(|p: (JobId, EntryView)| p.0 != id)
}

/// Once a job is removed, the journal no longer knows it.
pub proof fn lemma_removed_is_gone(l: Seq<(JobId, EntryView)>, id: JobId)
    ensures
        first_pos(without(l, id), id) is None,
{
    let w = without(l, id);
    assert forall|k: int| 0 <= k < w.len() implies #[trigger] w[k].0 != id by {
        reveal(Seq::filter);
        l.filter_lemma(|p: (JobId, EntryView)| p.0 != id);
    }
    lemma_first_pos(w, id);
    if first_pos(w, id) is Some {
        assert(false);
    }
}

impl View for Journal {
    type V = Seq<(JobId, EntryView)>;

    closed spec fn view(&self) -> Seq<(JobId, EntryView)> {
        entry_views(self.entries@)
    }
}

impl Journal {
    /// An empty journal; with no file behind it nothing is written.
    pub fn in_memory() -> (r: Journal)
        ensures
            r@ == Seq::<(JobId, EntryView)>::empty(),
    {
        let r = Journal { entries: Vec::new() };
        assert(r@ =~= Seq::<(JobId, EntryView)>::empty());
        r
    }

    fn find(&self, id: JobId) -> (r: Option<usize>)
        ensures
            r matches Some(i) ==> i < self@.len() && i < self.entries@.len() && self@[i as int].0 == id,
            match first_pos(self@, id) {
                Some(i) => r == Some(i as usize),
                None => r is None,
            },
    {
        proof {
            lemma_first_pos(self@, id);
        }
        let mut i: usize = 0;
        while i < self.entries.len()
            invariant
                i <= self.entries@.len() == self@.len(),
                self@ == entry_views(self.entries@),
                forall|k: int| 0 <= k < i ==> #[trigger] self@[k].0 != id,
                first_pos(self@, id) matches Some(p) ==> 0 <= p < self@.len() && self@[p].0 == id
                    && forall|k: int| 0 <= k < p ==> #[trigger] self@[k].0 != id,
                first_pos(self@, id) is None ==> forall|k: int|
                    0 <= k < self@.len() ==> #[trigger] self@[k].0 != id,
            decreases self.entries@.len() - i,
        {
            assert(self@[i as int].0 == self.entries@[i as int].0);
            if self.entries[i].0 == id {
                return Some(i);
            }
            i += 1;
        }
        None
    }

    /// Records a download that was just added.
    pub fn insert(&mut self, id: JobId, entry: Entry)
        ensures
            final(self)@ == old(self)@.push((id, entry@)),
    {
        self.entries.push((id, entry));
        assert(self@ =~= old(self)@.push((id, entry@)));
    }

    /// The scheduled time has come; a restart should start it right away.
    /// The result says whether anything changed.
    pub fn started(&mut self, id: JobId) -> (changed: bool)
        ensures
            match first_pos(old(self)@, id) {
                Some(i) => final(self)@ == old(self)@.update(
                    i,
                    (id, EntryView { start_at: None, ..old(self)@[i].1 }),
                ) && changed == old(self)@[i].1.start_at is Some,
                None => final(self)@ == old(self)@ && !changed,
            },
    {
        proof {
            lemma_first_pos(self@, id);
        }
        match self.find(id) {
            Some(i) => {
                assert(self@[i as int] == (self.entries@[i as int].0, self.entries@[i as int].1@));
                let was = self.entries[i].1.start_at.is_some();
                let ghost before = self.entries@;
                let (k, mut e) = self.entries.remove(i);
                e.start_at = None;
                self.entries.insert(i, (k, e));
                assert(self@ =~= old(self)@.update(
                    i as int,
                    (id, EntryView { start_at: None, ..old(self)@[i as int].1 }),
                )) by {
                    assert forall|j: int| 0 <= j < self@.len() implies #[trigger] self@[j]
                        == old(self)@.update(
                        i as int,
                        (id, EntryView { start_at: None, ..old(self)@[i as int].1 }),
                    )[j] by {
                        if j < i {
                            assert(self.entries@[j] == before[j]);
                        } else if j > i {
                            assert(self.entries@[j] == before[j]);
                        }
                    }
                }
                was
            },
            None => false,
        }
    }

    /// Item `key` of job `id`'s list is done; a second report changes
    /// nothing. The result says whether anything changed.
    pub fn mark_done(&mut self, id: JobId, key: &str) -> (changed: bool)
        ensures
            match first_pos(old(self)@, id) {
                Some(i) => if old(self)@[i].1.done.contains(key@) {
                    final(self)@ == old(self)@ && !changed
                } else {
                    final(self)@ == old(self)@.update(
                        i,
                        (id, EntryView { done: old(self)@[i].1.done.push(key@), ..old(self)@[i].1 }),
                    ) && changed
                },
                None => final(self)@ == old(self)@ && !changed,
            },
    {
        proof {
            lemma_first_pos(self@, id);
        }
        match self.find(id) {
            Some(i) => {
                assert(self@[i as int] == (self.entries@[i as int].0, self.entries@[i as int].1@));
                let mut seen = false;
                let mut j: usize = 0;
                let ghost ds = old(self)@[i as int].1.done;
                assert(ds == string_views(self.entries@[i as int].1.done@));
                while j < self.entries[i].1.done.len()
                    invariant
                        i < self.entries@.len(),
                        self.entries@ == old(self).entries@,
                        ds == string_views(self.entries@[i as int].1.done@),
                        j <= ds.len(),
                        seen == exists|k: int| 0 <= k < j && ds[k] == key@,
                    decreases ds.len() - j,
                {
                    assert(ds[j as int] == self.entries@[i as int].1.done@[j as int]@);
                    if same_str(self.entries[i].1.done[j].as_str(), key) {
                        seen = true;
                    }
                    j += 1;
                }
                if seen {
                    return false;
                }
                let ghost before = self.entries@;
                let (k, mut e) = self.entries.remove(i);
                let ghost dv = string_views(e.done@);
                e.done.push(String::from_str(key));
                assert(string_views(e.done@) =~= dv.push(key@));
                self.entries.insert(i, (k, e));
                assert(self@ =~= old(self)@.update(
                    i as int,
                    (id, EntryView { done: ds.push(key@), ..old(self)@[i as int].1 }),
                )) by {
                    assert forall|x: int| 0 <= x < self@.len() implies #[trigger] self@[x]
                        == old(self)@.update(
                        i as int,
                        (id, EntryView { done: ds.push(key@), ..old(self)@[i as int].1 }),
                    )[x] by {
                        if x != i {
                            assert(self.entries@[x] == before[x]);
                        }
                    }
                }
                true
            },
            None => false,
        }
    }

    /// Finished, failed or cancelled: nothing left to resume. The result
    /// says whether anything changed.
    pub fn remove(&mut self, id: JobId) -> (changed: bool)
        ensures
            final(self)@ == without(old(self)@, id),
            changed == (first_pos(old(self)@, id) is Some),
    {
        proof {
            lemma_first_pos(old(self)@, id);
        }
        let mut kept: Vec<(JobId, Entry)> = Vec::new();
        let mut changed = false;
        let ghost l = entry_views(self.entries@);
        assert(l == old(self)@);
        let mut i: usize = 0;
        while i < self.entries.len()
            invariant
                i <= self.entries@.len(),
                l == entry_views(self.entries@),
                entry_views(kept@) == without(l.take(i as int), id),
                changed == exists|k: int| 0 <= k < i && l[k].0 == id,
            decreases self.entries@.len() - i,
        {
            reveal(Seq::filter);
            assert(l.take(i + 1).drop_last() =~= l.take(i as int));
            let p = &self.entries[i];
            assert(l[i as int].0 == self.entries@[i as int].0);
            if p.0 != id {
                let ghost before = entry_views(kept@);
                kept.push((p.0, p.1.clone_entry()));
                assert(entry_views(kept@) =~= before.push(l[i as int]));
            } else {
                changed = true;
            }
            i += 1;
        }
        assert(l.take(self.entries@.len() as int) =~= l);
        self.entries = kept;
        assert(changed ==> first_pos(l, id) is Some);
        changed
    }

    /// The entry of job `id`.
    pub fn get(&self, id: JobId) -> (r: Option<&Entry>)
        ensures
            match first_pos(self@, id) {
                Some(i) => r matches Some(e) && e@ == self@[i].1,
                None => r is None,
            },
    {
        proof {
            lemma_first_pos(self@, id);
        }
        match self.find(id) {
            Some(i) => {
                assert(self@[i as int] == (self.entries@[i as int].0, self.entries@[i as int].1@));
                Some(&self.entries[i].1)
            },
            None => None,
        }
    }

    pub fn len(&self) -> (n: usize)
        ensures
            n == self@.len(),
    {
        self.entries.len()
    }

    /// The entries, in order, as they are written to disk.
    pub fn pending(&self) -> (r: Vec<Entry>)
        ensures
            r@.len() == self@.len(),
            forall|i: int| 0 <= i < r@.len() ==> #[trigger] r@[i]@ == self@[i].1,
    {
        let mut out: Vec<Entry> = Vec::new();
        let mut i: usize = 0;
        while i < self.entries.len()
            invariant
                i <= self.entries@.len() == self@.len(),
                self@ == entry_views(self.entries@),
                out@.len() == i,
                forall|k: int| 0 <= k < i ==> #[trigger] out@[k]@ == self@[k].1,
            decreases self.entries@.len() - i,
        {
            out.push(self.entries[i].1.clone_entry());
            i += 1;
        }
        out
    }
}

impl Entry {
    /// A copy with the same contents.
    pub fn clone_entry(&self) -> (r: Entry)
        ensures
            r@ == self@,
    {
        let mut done: Vec<String> = Vec::new();
        let mut i: usize = 0;
        while i < self.done.len()
            invariant
                i <= self.done@.len(),
                string_views(done@) == string_views(self.done@).take(i as int),
            decreases self.done@.len() - i,
        {
            let ghost before = string_views(done@);
            done.push(self.done[i].clone());
            assert(string_views(done@) =~= before.push(self.done@[i as int]@));
            assert(string_views(self.done@).take(i + 1) =~= string_views(self.done@).take(i as int).push(
                self.done@[i as int]@,
            ));
            i += 1;
        }
        assert(string_views(self.done@).take(self.done@.len() as int) =~= string_views(self.done@));
        Entry { url: self.url.clone(), cfg: self.cfg.copy(), start_at: self.start_at, done }
    }
}

} // verus!
