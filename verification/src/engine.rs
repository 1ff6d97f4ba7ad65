//! The download engine's decisions. The engine itself (worker slots,
//! cancellation, waiting, the calls to yt-dlp and gallery-dl) runs outside;
//! after each outside step it asks here what comes next.

use crate::config::Config;
use crate::detect::{detect, Source, SourceView, SpotifyKind, detected};
use crate::job::{JobId, JobState, JobUpdate};
use crate::spotify::{track_views, Collection, Track, TrackView};
use crate::text::{
    chars_of, contains, decimal, has, join, join_strings, lowercase, push_decimal, push_str,
    string_views, to_lower,
};
use crate::deps::{join_path, path_joined, DepsStatus};
use crate::update::{Release, Status};
use crate::util::{escape_template, escaped, sanitize_filename, sanitized};
use crate::ytdlp::Outcome;
use vstd::prelude::*;

verus! {

/// What the window asks of the engine.
pub enum Command {
    Add { urls: Vec<String>, cfg: Config, start_at: Option<i64> },
    Cancel(JobId),
    CancelAll,
    /// Starts a scheduled job right away.
    StartNow(JobId),
    SetParallel(usize),
    /// Settings used for links that arrive from outside the window.
    SetConfig(Config),
    UpdateTools,
    CheckUpdate { manual: bool },
    InstallUpdate(Release),
}

// ---------------------------------------------------------------- yt-dlp errors

/// yt-dlp's words for a post that holds pictures, not a video.
pub open spec fn photo_post_error(e: Seq<char>) -> bool {
    let l = lowercase(e);
    contains(l, "no video formats"@) || contains(l, "unsupported url"@) || contains(
        l,
        "no video could be found"@,
    ) || contains(l, "there's no video"@)
}

/// yt-dlp only handles video; these errors send the link to gallery-dl.
pub fn looks_like_photo_post(err: &str) -> (b: bool)
    ensures
        b == photo_post_error(err@),
{
    let low = to_lower(err);
    let e = chars_of(low.as_str());
    let a = chars_of("no video formats");
    let b = chars_of("unsupported url");
    let c = chars_of("no video could be found");
    let d = chars_of("there's no video");
    has(e.as_slice(), a.as_slice()) || has(e.as_slice(), b.as_slice()) || has(
        e.as_slice(),
        c.as_slice(),
    ) || has(e.as_slice(), d.as_slice())
}


// ---------------------------------------------------------------- Spotify keys

/// Identifies a Spotify track across sessions: its id, or without one
/// "artists - title".
pub open spec fn key_of(t: Track) -> Seq<char> {
    if t.id@.len() == 0 {
        join(string_views(t.artists@), ", "@) + " - "@ + t.title@
    } else {
        t.id@
    }
}

pub fn track_key(track: &Track) -> (r: String)
    ensures
        r@ == key_of(*track),
{
    if track.id.as_str().is_empty() {
        let mut s = track.artist_line();
        push_str(&mut s, " - ");
        push_str(&mut s, track.title.as_str());
        s
    } else {
        track.id.clone()
    }
}

// ---------------------------------------------------------------- group progress

/// Progress bookkeeping for a group job: how many of its items finished well
/// and how many failed.
pub struct Counter {
    pub group: JobId,
    pub total: u32,
    pub done: u32,
    pub failed: u32,
}

/// The group's share finished, in ten-thousandths.
pub open spec fn share(processed: nat, total: nat) -> nat {
    processed * 10000 / (if total == 0 { 1 } else { total })
}

/// "alle N fehlgeschlagen" / "N von M fehlgeschlagen".
pub open spec fn failure_text(done: nat, failed: nat, total: nat) -> Seq<char> {
    if done == 0 {
        "alle "@ + decimal(failed) + " fehlgeschlagen"@
    } else {
        decimal(failed) + " von "@ + decimal(total) + " fehlgeschlagen"@
    }
}

impl Counter {
    /// No more items have finished than the group holds.
    pub open spec fn wf(self) -> bool {
        self.done + self.failed <= self.total
    }

    pub open spec fn processed(self) -> nat {
        (self.done + self.failed) as nat
    }

    /// The two updates a change is reported with: the item count, then the
    /// share.
    pub open spec fn reports(self, r: (JobUpdate, JobUpdate)) -> bool {
        &&& r.0 == JobUpdate::Item { index: (self.done + self.failed) as u32, count: self.total }
        &&& r.1 == JobUpdate::Progress {
            frac: Some(share(self.processed(), self.total as nat) as u32),
            speed: None,
            eta: None,
        }
    }

    /// `r` is how the group ends: done when nothing failed, else failed
    /// with a count of the failures.
    pub open spec fn ends_as(self, r: JobState) -> bool {
        if self.failed == 0 {
            r == JobState::Done
        } else {
            r matches JobState::Failed(e) && e@ == failure_text(
                self.done as nat,
                self.failed as nat,
                self.total as nat,
            )
        }
    }

    pub fn new(group: JobId, total: u32) -> (r: Counter)
        ensures
            r.wf(),
            r == (Counter { group, total, done: 0, failed: 0 }),
    {
        Counter { group, total, done: 0, failed: 0 }
    }

    /// The updates that tell the current count.
    pub fn report(&self) -> (r: (JobUpdate, JobUpdate))
        requires
            self.wf(),
        ensures
            self.reports(r),
    {
        let processed: u32 = self.done + self.failed;
        let total: u32 = if self.total == 0 { 1 } else { self.total };
        let p: u64 = processed as u64;
        let t: u64 = total as u64;
        assert((p as int) * 10000 / (t as int) <= 10000) by (nonlinear_arith)
            requires
                p <= t,
                t >= 1,
        ;
        let frac: u64 = p * 10000 / t;
        (
            JobUpdate::Item { index: processed, count: self.total },
            JobUpdate::Progress { frac: Some(frac as u32), speed: None, eta: None },
        )
    }

    /// Items finished in an earlier session count as done. Nothing is
    /// reported when there are none.
    pub fn resume(&mut self, already: u32) -> (r: Option<(JobUpdate, JobUpdate)>)
        requires
            old(self).wf(),
            old(self).processed() + already <= old(self).total,
        ensures
            final(self).wf(),
            final(self).group == old(self).group,
            final(self).total == old(self).total,
            final(self).failed == old(self).failed,
            final(self).done == old(self).done + already,
            already == 0 <==> r is None,
            r matches Some(u) ==> final(self).reports(u),
    {
        if already > 0 {
            self.done = self.done + already;
            Some(self.report())
        } else {
            None
        }
    }

    /// One item finished, well or not.
    pub fn record(&mut self, ok: bool) -> (r: (JobUpdate, JobUpdate))
        requires
            old(self).wf(),
            old(self).processed() < old(self).total,
        ensures
            final(self).wf(),
            final(self).group == old(self).group,
            final(self).total == old(self).total,
            final(self).done == old(self).done + (if ok { 1int } else { 0 }),
            final(self).failed == old(self).failed + (if ok { 0int } else { 1 }),
            final(self).reports(r),
    {
        if ok {
            self.done = self.done + 1;
        } else {
            self.failed = self.failed + 1;
        }
        self.report()
    }

    /// How the group ends: done when nothing failed.
    pub fn final_state(&self) -> (r: JobState)
        ensures
            self.ends_as(r),
    {
        if self.failed == 0 {
            JobState::Done
        } else if self.done == 0 {
            let mut s = String::from_str("alle ");
            push_decimal(&mut s, self.failed as u64);
            push_str(&mut s, " fehlgeschlagen");
            assert(s@ =~= failure_text(self.done as nat, self.failed as nat, self.total as nat));
            JobState::Failed(s)
        } else {
            let mut s = String::new();
            push_decimal(&mut s, self.failed as u64);
            push_str(&mut s, " von ");
            push_decimal(&mut s, self.total as u64);
            push_str(&mut s, " fehlgeschlagen");
            assert(s@ =~= failure_text(self.done as nat, self.failed as nat, self.total as nat));
            JobState::Failed(s)
        }
    }
}


// ---------------------------------------------------------------- running a group

/// A group's items being worked through in list order, at most `parallel`
/// at a time: `started` of the `todo` items were handed out, `running` of
/// them have not finished yet.
pub struct GroupRun {
    pub counter: Counter,
    pub todo: u32,
    pub started: u32,
    pub running: u32,
    pub parallel: u32,
}

/// What the runner of a group does next.
#[derive(Debug, PartialEq)]
pub enum GroupStep {
    /// Start the item at this place among those to do.
    Start(u32),
    /// Wait until a running item finishes.
    Wait,
    /// Everything finished: the group ends in this state.
    Finish(JobState),
}

impl GroupRun {
    /// Never more running than allowed, never more started than there are,
    /// and the count can take every item still to come.
    pub open spec fn wf(self) -> bool {
        &&& self.counter.wf()
        &&& 1 <= self.parallel
        &&& self.running <= self.parallel
        &&& self.running <= self.started <= self.todo
        &&& self.accounted() <= self.counter.total
    }

    /// The items counted, running or still to start: it stays the same
    /// while the group runs.
    pub open spec fn accounted(self) -> int {
        self.counter.processed() + self.running + (self.todo - self.started)
    }

    /// A run of `todo` items, `parallel` at a time, counted on `counter`.
    pub fn new(counter: Counter, todo: u32, parallel: u32) -> (r: GroupRun)
        requires
            counter.wf(),
            counter.processed() + todo <= counter.total,
            parallel >= 1,
        ensures
            r.wf(),
            r == (GroupRun { counter, todo, started: 0, running: 0, parallel }),
            r.accounted() == counter.processed() + todo,
    {
        GroupRun { counter, todo, started: 0, running: 0, parallel }
    }

    /// The next thing to do: start the next item while there is room, wait
    /// while items run, and end the group once all items finished. It never
    /// waits with nothing running.
    pub fn step(&mut self) -> (r: GroupStep)
        requires
            old(self).wf(),
        ensures
            final(self).wf(),
            final(self).counter == old(self).counter,
            final(self).todo == old(self).todo,
            final(self).parallel == old(self).parallel,
            (old(self).running < old(self).parallel && old(self).started < old(self).todo) ==> (
                r == GroupStep::Start(old(self).started)
                && final(self).started == old(self).started + 1
                && final(self).running == old(self).running + 1),
            !(old(self).running < old(self).parallel && old(self).started < old(self).todo) ==> (
                final(self).started == old(self).started
                && final(self).running == old(self).running),
            r is Wait <==> (old(self).running > 0 && !(old(self).running < old(self).parallel
                && old(self).started < old(self).todo)),
            r is Finish <==> (old(self).running == 0 && old(self).started == old(self).todo),
            r matches GroupStep::Finish(st) ==> old(self).counter.ends_as(st),
            r is Finish ==> old(self).counter.processed() == old(self).accounted(),
            final(self).accounted() == old(self).accounted(),
    {
        if self.running < self.parallel && self.started < self.todo {
            let i = self.started;
            self.started = self.started + 1;
            self.running = self.running + 1;
            GroupStep::Start(i)
        } else if self.running > 0 {
            GroupStep::Wait
        } else {
            GroupStep::Finish(self.counter.final_state())
        }
    }

    /// A running item finished, well or not; the group's new count is
    /// reported.
    pub fn finished(&mut self, ok: bool) -> (r: (JobUpdate, JobUpdate))
        requires
            old(self).wf(),
            old(self).running > 0,
        ensures
            final(self).wf(),
            final(self).todo == old(self).todo,
            final(self).started == old(self).started,
            final(self).parallel == old(self).parallel,
            final(self).running == old(self).running - 1,
            final(self).counter.group == old(self).counter.group,
            final(self).counter.total == old(self).counter.total,
            final(self).counter.done == old(self).counter.done + (if ok { 1int } else { 0 }),
            final(self).counter.failed == old(self).counter.failed + (if ok { 0int } else { 1 }),
            final(self).counter.reports(r),
            final(self).accounted() == old(self).accounted(),
    {
        self.running = self.running - 1;
        self.counter.record(ok)
    }
}


// ---------------------------------------------------------------- dispatch

/// Where a link goes.
pub enum Route {
    /// Read the Spotify list or track, then find each song elsewhere.
    Spotify(SpotifyKind, String),
    /// A short Spotify link: follow its redirect first.
    Redirect,
    /// A playlist or set, expanded into one job per entry.
    List,
    /// One link, one yt-dlp run.
    Single,
}

pub open spec fn routes(url: Seq<char>, playlist: bool, r: Route) -> bool {
    match detected(url) {
        SourceView::Spotify(k, id) => r matches Route::Spotify(k2, id2) && k2 == k && id2@ == id,
        SourceView::SpotifyShort => r is Redirect,
        s => if s.is_list() && playlist {
            r is List
        } else {
            r is Single
        },
    }
}

/// Dispatches one link; lists are expanded only when the settings ask for it.
pub fn route(url: &str, playlist: bool) -> (r: Route)
    ensures
        routes(url@, playlist, r),
{
    let s = detect(url);
    let list = s.is_list();
    match s {
        Source::Spotify(k, id) => Route::Spotify(k, id),
        Source::SpotifyShort => Route::Redirect,
        _ => if list && playlist {
            Route::List
        } else {
            Route::Single
        },
    }
}

/// Where a short link leads once its redirect is known: a Spotify page, or a
/// single download.
pub fn route_redirected(target: &str) -> (r: Route)
    ensures
        detected(target@) matches SourceView::Spotify(k, id) ==> (r matches Route::Spotify(k2, id2)
            && k2 == k && id2@ == id),
        !(detected(target@) is Spotify) ==> r is Single,
{
    match detect(target) {
        Source::Spotify(k, id) => Route::Spotify(k, id),
        _ => Route::Single,
    }
}

// ---------------------------------------------------------------- after a run

/// What to do once an outside step has ended.
pub enum Next {
    /// Report this file or folder, then finish as done.
    Saved(String),
    /// Finish with this state.
    Finish(JobState),
    /// Hand the link to gallery-dl.
    Gallery,
    /// Try the next candidate.
    TryNext,
}

/// The file a run produced last.
pub open spec fn last_file(out: Outcome) -> Seq<char> {
    out.files@.last()@
}

/// The run's error, or `fallback` when it gave none.
pub open spec fn error_or(out: Outcome, fallback: Seq<char>) -> Seq<char> {
    match out.error {
        Some(e) => e@,
        None => fallback,
    }
}

fn error_text(out: &Outcome, fallback: &str) -> (r: String)
    ensures
        r@ == error_or(*out, fallback@),
{
    match &out.error {
        Some(e) => e.clone(),
        None => String::from_str(fallback),
    }
}

fn last_of(files: &Vec<String>) -> (r: String)
    requires
        files@.len() > 0,
    ensures
        r@ == files@.last()@,
{
    files[files.len() - 1].clone()
}

/// After a single link's run: its last file, else gallery-dl for a photo
/// post, else the error.
pub open spec fn single_next(out: Outcome, r: Next) -> bool {
    if out.cancelled {
        r == Next::Finish(JobState::Cancelled)
    } else if out.files@.len() > 0 {
        r matches Next::Saved(f) && f@ == last_file(out)
    } else if photo_post_error(error_or(out, "unbekannter Fehler"@)) {
        r is Gallery
    } else {
        r matches Next::Finish(JobState::Failed(e)) && e@ == error_or(out, "unbekannter Fehler"@)
    }
}

pub fn after_single(out: &Outcome) -> (r: Next)
    ensures
        single_next(*out, r),
{
    if out.cancelled {
        Next::Finish(JobState::Cancelled)
    } else if out.files.len() > 0 {
        Next::Saved(last_of(&out.files))
    } else {
        let err = error_text(out, "unbekannter Fehler");
        if looks_like_photo_post(err.as_str()) {
            Next::Gallery
        } else {
            Next::Finish(JobState::Failed(err))
        }
    }
}

/// After one entry of an expanded list.
pub open spec fn item_next(out: Outcome, r: Next) -> bool {
    if out.cancelled {
        r == Next::Finish(JobState::Cancelled)
    } else if out.files@.len() > 0 {
        r matches Next::Saved(f) && f@ == last_file(out)
    } else {
        r matches Next::Finish(JobState::Failed(e)) && e@ == error_or(out, "fehlgeschlagen"@)
    }
}

pub fn after_item(out: &Outcome) -> (r: Next)
    ensures
        item_next(*out, r),
{
    if out.cancelled {
        Next::Finish(JobState::Cancelled)
    } else if out.files.len() > 0 {
        Next::Saved(last_of(&out.files))
    } else {
        Next::Finish(JobState::Failed(error_text(out, "fehlgeschlagen")))
    }
}

/// After one candidate for a Spotify track: a wrong length or an
/// unavailable video moves on to the next one.
pub open spec fn candidate_next(out: Outcome, r: Next) -> bool {
    if out.cancelled {
        r == Next::Finish(JobState::Cancelled)
    } else if out.files@.len() > 0 {
        r matches Next::Saved(f) && f@ == last_file(out)
    } else {
        r is TryNext
    }
}

pub fn after_candidate(out: &Outcome) -> (r: Next)
    ensures
        candidate_next(*out, r),
{
    if out.cancelled {
        Next::Finish(JobState::Cancelled)
    } else if out.files.len() > 0 {
        Next::Saved(last_of(&out.files))
    } else {
        Next::TryNext
    }
}

/// After gallery-dl: its folder, else cancelled when the job was, else the
/// error.
pub fn after_gallery(result: Result<String, String>, cancelled: bool) -> (r: Next)
    ensures
        result matches Ok(d) ==> r == Next::Saved(d),
        result is Err && cancelled ==> r == Next::Finish(JobState::Cancelled),
        !cancelled ==> (result matches Err(e) ==> r == Next::Finish(JobState::Failed(e))),
{
    match result {
        Ok(dir) => Next::Saved(dir),
        Err(e) => if cancelled {
            Next::Finish(JobState::Cancelled)
        } else {
            Next::Finish(JobState::Failed(e))
        },
    }
}

// ---------------------------------------------------------------- waiting

/// How long a scheduled job sleeps before it looks at the clock again:
/// `None` once its time has come, else the seconds left, at most 30, so a
/// computer waking from sleep starts on time.
pub fn wait_step(at: i64, now: i64) -> (r: Option<u64>)
    ensures
        at <= now <==> r is None,
        r matches Some(s) ==> s == (if at - now < 30 { at - now } else { 30 }),
{
    let left: i128 = at as i128 - now as i128;
    if left <= 0 {
        None
    } else if left < 30 {
        Some(left as u64)
    } else {
        Some(30)
    }
}

/// The number of parallel downloads, kept between 1 and 16.
pub open spec fn clamped(n: nat) -> nat {
    if n < 1 {
        1
    } else if n > 16 {
        16
    } else {
        n
    }
}

/// Changing the number of parallel downloads from `cur` to `n`: the new
/// number, the slots to add and the slots to take away.
pub fn permit_change(cur: usize, n: usize) -> (r: (usize, usize, usize))
    ensures
        r.0 == clamped(n as nat),
        r.1 == (if r.0 > cur { r.0 - cur } else { 0 }),
        r.2 == (if r.0 < cur { cur - r.0 } else { 0 }),
{
    let m: usize = if n < 1 {
        1
    } else if n > 16 {
        16
    } else {
        n
    };
    if m > cur {
        (m, m - cur, 0)
    } else if m < cur {
        (m, 0, cur - m)
    } else {
        (m, 0, 0)
    }
}


// ---------------------------------------------------------------- file names

/// `{n:03}`: at least three digits, zeros in front.
pub open spec fn padded3(n: nat) -> Seq<char> {
    if n < 10 {
        "00"@ + decimal(n)
    } else if n < 100 {
        "0"@ + decimal(n)
    } else {
        decimal(n)
    }
}

fn push_padded3(s: &mut String, n: u64)
    ensures
        final(s)@ == old(s)@ + padded3(n as nat),
{
    if n < 10 {
        push_str(s, "00");
    } else if n < 100 {
        push_str(s, "0");
    }
    push_decimal(s, n);
}

/// yt-dlp's output template for entry `i` of an expanded list: numbered from
/// one, so the files sort in list order.
pub fn entry_template(i: usize) -> (r: String)
    requires
        i < usize::MAX,
    ensures
        r@ == padded3((i + 1) as nat) + " - %(title).150B.%(ext)s"@,
{
    let mut s = String::new();
    push_padded3(&mut s, (i + 1) as u64);
    push_str(&mut s, " - %(title).150B.%(ext)s");
    s
}

/// "artists - title", made safe as a file name, numbered inside an album or
/// playlist when the track knows its place.
pub open spec fn track_name(t: Track, numbered: bool) -> Seq<char> {
    let stem = sanitized(join(string_views(t.artists@), ", "@) + " - "@ + t.title@);
    match t.number {
        Some(n) if numbered => padded3(n as nat) + " - "@ + stem,
        _ => stem,
    }
}

/// The output template for a Spotify track's download.
pub fn track_template(track: &Track, numbered: bool) -> (r: String)
    ensures
        r@ == escaped(track_name(*track, numbered)) + ".%(ext)s"@,
{
    let mut full = track.artist_line();
    push_str(&mut full, " - ");
    push_str(&mut full, track.title.as_str());
    let stem = sanitize_filename(full.as_str());
    let name = match track.number {
        Some(n) if numbered => {
            let mut s = String::new();
            push_padded3(&mut s, n as u64);
            push_str(&mut s, " - ");
            push_str(&mut s, stem.as_str());
            s
        },
        _ => stem,
    };
    let mut t = escape_template(name.as_str());
    push_str(&mut t, ".%(ext)s");
    t
}

/// The job title of a Spotify track inside its group.
pub fn track_label(track: &Track) -> (r: String)
    ensures
        r@ == join(string_views(track.artists@), ", "@) + " – "@ + track.title@,
{
    let mut s = track.artist_line();
    push_str(&mut s, " – ");
    push_str(&mut s, track.title.as_str());
    s
}

/// The Spotify page of a track.
pub fn track_url(track: &Track) -> (r: String)
    ensures
        r@ == "https://open.spotify.com/track/"@ + track.id@,
{
    let mut s = String::from_str("https://open.spotify.com/track/");
    push_str(&mut s, track.id.as_str());
    s
}

/// Margin around a track's length, in milliseconds: 7 %, at least ten
/// seconds.
pub open spec fn window_ms(d: nat) -> nat {
    if d * 7 / 100 >= 10000 {
        d * 7 / 100
    } else {
        10000
    }
}

/// The lengths, in milliseconds, a match for a track of `d` milliseconds may
/// have: the track's length less and plus the margin (the lower bound is
/// below zero for tracks under about ten seconds); none for a track of
/// unknown length.
pub open spec fn duration_range(d: nat) -> Option<(int, int)> {
    if d == 0 {
        None
    } else {
        Some((d - window_ms(d), (d + window_ms(d)) as int))
    }
}

pub fn duration_window(duration_ms: u64) -> (r: Option<(i64, i64)>)
    requires
        duration_ms <= i64::MAX / 2,
    ensures
        match (r, duration_range(duration_ms as nat)) {
            (None, None) => true,
            (Some((lo, hi)), Some((a, b))) => lo == a && hi == b,
            _ => false,
        },
{
    if duration_ms == 0 {
        return None;
    }
    let d: i64 = duration_ms as i64;
    let p: i64 = d / 100 * 7 + d % 100 * 7 / 100;
    assert(p == d * 7 / 100) by (nonlinear_arith)
        requires
            d >= 0,
            p == d / 100 * 7 + d % 100 * 7 / 100,
    ;
    let w: i64 = if p >= 10000 { p } else { 10000 };
    Some((d - w, d + w))
}

/// A track's list entry completed from its own page: the page's cover when
/// it has one, and its artists unless it lists none. The list view has no
/// cover art and splits artist names on commas.
pub fn merge_details(track: &mut Track, full: Track)
    ensures
        final(track).id == old(track).id,
        final(track).title == old(track).title,
        final(track).duration_ms == old(track).duration_ms,
        final(track).album == old(track).album,
        final(track).number == old(track).number,
        final(track).cover == (if full.cover is Some {
            full.cover
        } else {
            old(track).cover
        }),
        final(track).artists@ == (if full.artists@.len() > 0 {
            full.artists@
        } else {
            old(track).artists@
        }),
{
    let Track { cover, artists, .. } = full;
    if cover.is_some() {
        track.cover = cover;
    }
    if artists.len() > 0 {
        track.artists = artists;
    }
}

// ---------------------------------------------------------------- tools and app updates

/// The tool report after setting the tools up: what is there, with the
/// setup's error if it failed, and whether downloads can start.
pub fn tools_ready(status: DepsStatus, result: Result<(), String>) -> (r: (DepsStatus, bool))
    ensures
        r.0 == (match result {
            Ok(()) => status,
            Err(e) => DepsStatus { error: Some(e), ..status },
        }),
        r.1 == r.0.is_ready(),
{
    let mut status = status;
    if let Err(e) = result {
        status.error = Some(e);
    }
    let ready = status.ready();
    (status, ready)
}

/// What a search for a new version tells the window: news always, and for a
/// search the user asked for also that there is none, or why it failed. An
/// automatic search stays silent otherwise.
pub fn update_news(manual: bool, result: Result<Option<Release>, String>) -> (r: Option<Status>)
    ensures
        match result {
            Ok(Some(rel)) => r == Some(Status::Available(rel)),
            Ok(None) => if manual {
                r == Some(Status::UpToDate)
            } else {
                r is None
            },
            Err(e) => if manual {
                r == Some(Status::Failed(e))
            } else {
                r is None
            },
        },
{
    match result {
        Ok(Some(rel)) => Some(Status::Available(rel)),
        Ok(None) => if manual {
            Some(Status::UpToDate)
        } else {
            None
        },
        Err(e) => if manual {
            Some(Status::Failed(e))
        } else {
            None
        },
    }
}

/// How installing `version` ended.
pub fn installed(version: String, result: Result<(), String>) -> (r: Status)
    ensures
        r == match result {
            Ok(()) => Status::Ready(version),
            Err(e) => Status::Failed(e),
        },
{
    match result {
        Ok(()) => Status::Ready(version),
        Err(e) => Status::Failed(e),
    }
}

// ---------------------------------------------------------------- lists

/// `s` is among the texts of `done`.
fn in_done(done: &Vec<String>, s: &str) -> (b: bool)
    ensures
        b == string_views(done@).contains(s@),
{
    let mut i: usize = 0;
    while i < done.len()
        invariant
            i <= done@.len(),
            forall|k: int| 0 <= k < i ==> string_views(done@)[k] != s@,
        decreases done@.len() - i,
    {
        if crate::text::same_str(done[i].as_str(), s) {
            assert(string_views(done@)[i as int] == s@);
            return true;
        }
        i += 1;
    }
    false
}

/// An entry of a list that is still to be downloaded: its place in the list
/// (from 0), link and title.
pub struct ListItem {
    pub index: usize,
    pub url: String,
    pub title: String,
}

/// How a playlist or channel is downloaded: as a group named `name`, into
/// the folder `dir`, `total` entries of which `already` were finished in an
/// earlier session; `todo` are the others, in list order.
pub struct ListPlan {
    pub name: String,
    pub dir: String,
    pub total: usize,
    pub already: usize,
    pub todo: Vec<ListItem>,
}

pub open spec fn entry_views(es: Seq<(String, String)>) -> Seq<(Seq<char>, Seq<char>)> {
    es.map_values(|e: (String, String)| (e.0@, e.1@))
}

/// How many entries (link, title) were finished before: their link is in
/// `done`.
pub open spec fn done_count(es: Seq<(Seq<char>, Seq<char>)>, done: Seq<Seq<char>>) -> nat
    decreases es.len(),
{
    if es.len() == 0 {
        0
    } else {
        done_count(es.drop_last(), done) + if done.contains(es.last().0) {
            1nat
        } else {
            0nat
        }
    }
}

/// The entries still to download, each with its place in the list.
pub open spec fn todo_entries(es: Seq<(Seq<char>, Seq<char>)>, done: Seq<Seq<char>>) -> Seq<(int, Seq<char>, Seq<char>)>
    decreases es.len(),
{
    if es.len() == 0 {
        seq![]
    } else if done.contains(es.last().0) {
        todo_entries(es.drop_last(), done)
    } else {
        todo_entries(es.drop_last(), done).push((es.len() - 1, es.last().0, es.last().1))
    }
}

pub open spec fn item_views(v: Seq<ListItem>) -> Seq<(int, Seq<char>, Seq<char>)> {
    v.map_values(|it: ListItem| (it.index as int, it.url@, it.title@))
}

/// What a listed playlist or channel becomes: refused when it is empty;
/// otherwise a group named after the list ("Playlist" without a title), in
/// a folder of that name below `download_dir`, that skips the entries whose
/// links were finished in an earlier session (`done`).
pub fn list_plan(
    title: Option<String>,
    entries: Vec<(String, String)>,
    done: &Vec<String>,
    download_dir: &str,
    windows: bool,
) -> (r: Result<ListPlan, String>)
    ensures
        entries@.len() == 0 ==> (r matches Err(e) && e@ == "Liste ist leer"@),
        entries@.len() > 0 ==> (r matches Ok(p) && {
            &&& p.name@ == match title {
                Some(t) => t@,
                None => "Playlist"@,
            }
            &&& p.dir@ == path_joined(download_dir@, sanitized(p.name@), windows)
            &&& p.total == entries@.len()
            &&& p.already == done_count(entry_views(entries@), string_views(done@))
            &&& item_views(p.todo@) == todo_entries(entry_views(entries@), string_views(done@))
        }),
{
    let n: usize = entries.len();
    if n == 0 {
        return Err(String::from_str("Liste ist leer"));
    }
    let name = match title {
        Some(t) => t,
        None => String::from_str("Playlist"),
    };
    let folder = sanitize_filename(name.as_str());
    let dir = join_path(download_dir, folder.as_str(), windows);
    let ghost ev = entry_views(entries@);
    let ghost dv = string_views(done@);
    let mut already: usize = 0;
    let mut todo: Vec<ListItem> = Vec::new();
    let mut i: usize = 0;
    assert(ev.take(0) =~= seq![]);
    while i < n
        invariant
            i <= n == entries@.len(),
            ev == entry_views(entries@),
            dv == string_views(done@),
            already <= i,
            already == done_count(ev.take(i as int), dv),
            item_views(todo@) == todo_entries(ev.take(i as int), dv),
        decreases n - i,
    {
        assert(ev.take(i + 1).drop_last() =~= ev.take(i as int));
        assert(ev.take(i + 1).last() == ev[i as int]);
        assert(ev[i as int] == (entries@[i as int].0@, entries@[i as int].1@));
        let url = entries[i].0.clone();
        if in_done(done, url.as_str()) {
            already += 1;
        } else {
            let title = entries[i].1.clone();
            let ghost before = item_views(todo@);
            todo.push(ListItem { index: i, url, title });
            assert(item_views(todo@) =~= before.push((i as int, ev[i as int].0, ev[i as int].1)));
        }
        i += 1;
    }
    assert(ev.take(n as int) =~= ev);
    Ok(ListPlan { name, dir, total: n, already, todo })
}

// ---------------------------------------------------------------- Spotify releases

/// A track's key across sessions (see `key_of`), from its view.
pub open spec fn key_text(t: TrackView) -> Seq<char> {
    if t.id.len() == 0 {
        join(t.artists, ", "@) + " - "@ + t.title
    } else {
        t.id
    }
}

/// A track of a list with the list's cover where it has none of its own.
pub open spec fn with_cover(t: TrackView, cover: Option<Seq<char>>) -> TrackView {
    if t.cover is None {
        TrackView { cover: cover, ..t }
    } else {
        t
    }
}

/// A track of a Spotify list still to download: its key, the job's title
/// and link, and the track with the list's cover as fallback.
pub struct SpotifyItem {
    pub key: String,
    pub label: String,
    pub url: String,
    pub track: Track,
}

/// The view of a planned track: key, label, link and track.
pub open spec fn spotify_item_view(it: SpotifyItem) -> (Seq<char>, Seq<char>, Seq<char>, TrackView) {
    (it.key@, it.label@, it.url@, it.track@)
}

/// The planned item for track `t` of a list with cover `cover`.
pub open spec fn planned(t: TrackView, cover: Option<Seq<char>>) -> (Seq<char>, Seq<char>, Seq<char>, TrackView) {
    (
        key_text(t),
        join(t.artists, ", "@) + " – "@ + t.title,
        "https://open.spotify.com/track/"@ + t.id,
        with_cover(t, cover),
    )
}

/// How many of the tracks were finished before: their key is in `done`.
pub open spec fn tracks_done(ts: Seq<TrackView>, done: Seq<Seq<char>>) -> nat
    decreases ts.len(),
{
    if ts.len() == 0 {
        0
    } else {
        tracks_done(ts.drop_last(), done) + if done.contains(key_text(ts.last())) {
            1nat
        } else {
            0nat
        }
    }
}

/// The tracks still to download, planned in order.
pub open spec fn tracks_todo(ts: Seq<TrackView>, done: Seq<Seq<char>>, cover: Option<Seq<char>>) -> Seq<(Seq<char>, Seq<char>, Seq<char>, TrackView)>
    decreases ts.len(),
{
    if ts.len() == 0 {
        seq![]
    } else if done.contains(key_text(ts.last())) {
        tracks_todo(ts.drop_last(), done, cover)
    } else {
        tracks_todo(ts.drop_last(), done, cover).push(planned(ts.last(), cover))
    }
}

/// How a Spotify release is downloaded.
pub enum SpotifyPlan {
    /// A single track: no group; into the download folder, unnumbered.
    Single { title: String, track: Track, dir: String },
    /// An album or playlist: a group with a note when Spotify cut the list
    /// short, a folder of its own, and the tracks not finished before.
    Group { title: String, note: Option<String>, dir: String, total: usize, already: usize, todo: Vec<SpotifyItem> },
}

/// What a Spotify release becomes: refused without tracks; a single track
/// on its own; otherwise a group like `list_plan`'s, whose tracks are keyed
/// by `key_text` and take the release's cover where they have none.
pub fn collection_plan(coll: Collection, done: &Vec<String>, download_dir: &str, windows: bool) -> (r: Result<SpotifyPlan, String>)
    ensures
        coll.tracks@.len() == 0 ==> (r matches Err(e) && e@ == "keine Titel gefunden"@),
        coll.tracks@.len() > 0 && coll.kind@ == "track"@ ==> (r matches Ok(SpotifyPlan::Single { title, track, dir })
            && title@ == coll.name@ && track@ == coll.tracks@[0]@ && dir@ == download_dir@),
        coll.tracks@.len() > 0 && coll.kind@ != "track"@ ==> (r matches Ok(
            SpotifyPlan::Group { title, note, dir, total, already, todo },
        ) && {
            &&& title@ == coll.name@
            &&& match note {
                Some(n) => coll.truncated && n@ == "nur die ersten 100 Titel (Spotify-Limit)"@,
                None => !coll.truncated,
            }
            &&& dir@ == path_joined(download_dir@, sanitized(coll.name@), windows)
            &&& total == coll.tracks@.len()
            &&& already == tracks_done(track_views(coll.tracks@), string_views(done@))
            &&& todo@.map_values(|it: SpotifyItem| spotify_item_view(it)) == tracks_todo(
                track_views(coll.tracks@),
                string_views(done@),
                crate::spotify::opt_view(coll.cover),
            )
        }),
{
    let n: usize = coll.tracks.len();
    if n == 0 {
        return Err(String::from_str("keine Titel gefunden"));
    }
    let Collection { name, kind, tracks, cover, truncated } = coll;
    let ghost tv = track_views(tracks@);
    let mut tracks = tracks;
    if same_text(kind, "track") {
        let track = tracks.remove(0);
        return Ok(SpotifyPlan::Single { title: name, track, dir: String::from_str(download_dir) });
    }
    let note = if truncated {
        Some(String::from_str("nur die ersten 100 Titel (Spotify-Limit)"))
    } else {
        None
    };
    let folder = sanitize_filename(name.as_str());
    let dir = join_path(download_dir, folder.as_str(), windows);
    let ghost dv = string_views(done@);
    let ghost cv = crate::spotify::opt_view(cover);
    let mut already: usize = 0;
    let mut todo: Vec<SpotifyItem> = Vec::new();
    let mut i: usize = 0;
    assert(tv.take(0) =~= seq![]);
    assert(track_views(tracks@) =~= tv.skip(0));
    while i < n
        invariant
            i <= n == tv.len(),
            dv == string_views(done@),
            track_views(tracks@) == tv.skip(i as int),
            tracks@.len() == n - i,
            already <= i,
            already == tracks_done(tv.take(i as int), dv),
            todo@.map_values(|it: SpotifyItem| spotify_item_view(it)) == tracks_todo(tv.take(i as int), dv, cv),
            cv == crate::spotify::opt_view(cover),
        decreases n - i,
    {
        assert(tv.take(i + 1).drop_last() =~= tv.take(i as int));
        assert(tv.take(i + 1).last() == tv[i as int]);
        assert(track_views(tracks@)[0] == tv[i as int]);
        let ghost old_tracks = tracks@;
        let mut track = tracks.remove(0);
        assert(tracks@ =~= old_tracks.skip(1));
        assert(track_views(tracks@) =~= track_views(old_tracks).skip(1));
        assert(tv.skip(i as int).skip(1) =~= tv.skip(i + 1));
        let key = track_key(&track);
        assert(key@ == key_text(track@));
        if in_done(done, key.as_str()) {
            already += 1;
        } else {
            let label = track_label(&track);
            let url = track_url(&track);
            if track.cover.is_none() {
                track.cover = match &cover {
                    Some(c) => Some(c.clone()),
                    None => None,
                };
            }
            let ghost before = todo@.map_values(|it: SpotifyItem| spotify_item_view(it));
            let item = SpotifyItem { key, label, url, track };
            assert(spotify_item_view(item) == planned(tv[i as int], cv));
            todo.push(item);
            assert(todo@.map_values(|it: SpotifyItem| spotify_item_view(it)) =~= before.push(planned(tv[i as int], cv)));
        }
        i += 1;
    }
    assert(tv.take(n as int) =~= tv);
    Ok(SpotifyPlan::Group { title: name, note, dir, total: n, already, todo })
}

fn same_text(a: &str, b: &str) -> (r: bool)
    ensures
        r == (a@ == b@),
{
    crate::text::same_str(a, b)
}

} // verus!
