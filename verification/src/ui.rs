//! Texts the desktop window shows.

use crate::deps::DepsStatus;
use crate::jobs::{status_of, Job, Tone};
use crate::text::{chars_of, decimal, push_char, push_decimal, push_str, same_str, string_of_range};
use crate::update::{Status, REPO};
use crate::util::round_half_even;
use vstd::prelude::*;
use vstd::string::StrSliceExecFns;

verus! {

/// `s` cut at the front to at most `max` characters, an ellipsis in place of
/// what was cut, so a long path keeps its end.
pub open spec fn start_cut(s: Seq<char>, max: nat) -> Seq<char> {
    if s.len() <= max {
        s
    } else {
        seq!['…'] + s.skip(
            if max == 0 {
                s.len() as int
            } else {
                s.len() - max + 1
            },
        )
    }
}

pub fn truncate_start(s: &str, max: usize) -> (r: String)
    ensures
        r@ == start_cut(s@, max as nat),
{
    let v = chars_of(s);
    let n = v.len();
    if n <= max {
        return String::from_str(s);
    }
    let skip: usize = if max == 0 { n } else { n - max + 1 };
    let tail = string_of_range(v.as_slice(), skip, n);
    let mut out = String::new();
    push_char(&mut out, '…');
    let t = tail.as_str();
    crate::text::push_str(&mut out, t);
    assert(v@.subrange(skip as int, n as int) =~= s@.skip(skip as int));
    out
}

// ---------------------------------------------------------------- colors

/// The palette's colors the texts are shown in.
#[derive(Clone, Copy, Debug, PartialEq, Eq, Structural)]
pub enum Hue {
    Secondary,
    Blue,
    Orange,
    Red,
}

/// The color a status line of `tone` is shown in.
pub open spec fn hue_of(tone: Tone) -> Hue {
    match tone {
        Tone::Normal => Hue::Secondary,
        Tone::Warning => Hue::Orange,
        Tone::Error => Hue::Red,
    }
}

/// A job's status line and its color: errors red, warnings orange. A
/// scheduled job's start reads as its own start time in local time against
/// the local time now; other jobs need no start.
pub fn status_line(job: &Job, child: bool) -> (r: (String, Hue))
    ensures
        !(job.state is Scheduled) ==> r.0@ == status_of(job@, child, seq![]).0 && r.1 == hue_of(
            status_of(job@, child, seq![]).1,
        ),
        job.state matches crate::job::JobState::Scheduled(at) ==> exists|start: Seq<char>|
            crate::schedule::start_reads(at as int, start) && r.0@ == (#[trigger] status_of(
                job@,
                child,
                start,
            )).0 && r.1 == hue_of(status_of(job@, child, start).1),
{
    let (text, tone) = job.status(child);
    let hue = match tone {
        Tone::Normal => Hue::Secondary,
        Tone::Warning => Hue::Orange,
        Tone::Error => Hue::Red,
    };
    (text, hue)
}

// ---------------------------------------------------------------- banners

/// How a banner looks.
#[derive(Clone, Copy, Debug, PartialEq, Eq, Structural)]
pub enum BannerTone {
    Busy,
    Info,
    Warning,
    Error,
}

/// What a banner's button does.
#[derive(Clone, Copy, Debug, PartialEq, Eq, Structural)]
pub enum Action {
    UpdateTools,
    InstallUpdate,
    Restart,
}

/// What closing a banner hides.
#[derive(Clone, Copy, Debug, PartialEq, Eq, Structural)]
pub enum Dismiss {
    ToolWarning,
    Update,
}

/// A banner above the list.
#[derive(Debug)]
pub struct Banner {
    pub tone: BannerTone,
    pub text: String,
    pub action: Option<(&'static str, Action)>,
    pub dismiss: Option<Dismiss>,
}

/// `b` shows `text` in `tone`, with the button and the dismissal given.
pub open spec fn shows(
    b: Banner,
    tone: BannerTone,
    text: Seq<char>,
    action: Option<(Seq<char>, Action)>,
    dismiss: Option<Dismiss>,
) -> bool {
    &&& b.tone == tone
    &&& b.text@ == text
    &&& match (b.action, action) {
        (None, None) => true,
        (Some((l, a)), Some((m, c))) => l@ == m && a == c,
        _ => false,
    }
    &&& b.dismiss == dismiss
}

/// A share in ten-thousandths as whole percent, ties to even.
pub open spec fn percent(f: nat) -> nat {
    round_half_even(f, 100)
}

fn percent_of(f: u32) -> (r: u64)
    ensures
        r == percent(f as nat),
{
    let q = f / 100;
    let rem = f % 100;
    if 2 * rem > 100 || (2 * rem == 100 && q % 2 == 1) {
        (q + 1) as u64
    } else {
        q as u64
    }
}

/// The banner an update calls for: a new version (until hidden), the
/// download, the restart, a failure (while a release is known and not
/// hidden).
pub open spec fn update_banner_fits(s: Status, hidden: bool, has_release: bool, r: Option<Banner>) -> bool {
    match s {
        Status::Available(rel) if !hidden => r matches Some(b) && shows(
            b,
            BannerTone::Info,
            "omnidl "@ + rel.version@ + " ist verfügbar."@,
            Some(("Aktualisieren"@, Action::InstallUpdate)),
            Some(Dismiss::Update),
        ),
        Status::Downloading { version, frac } => r matches Some(b) && shows(
            b,
            BannerTone::Busy,
            match frac {
                Some(f) => "Lade omnidl "@ + version@ + " … "@ + decimal(percent(f as nat)) + " %"@,
                None => "Lade omnidl "@ + version@ + " …"@,
            },
            None,
            None,
        ),
        Status::Ready(v) => r matches Some(b) && shows(
            b,
            BannerTone::Info,
            "omnidl "@ + v@ + " ist installiert. Laufende Downloads gehen nach dem Neustart weiter."@,
            Some(("Neu starten"@, Action::Restart)),
            None,
        ),
        Status::Failed(e) if has_release && !hidden => r matches Some(b) && shows(
            b,
            BannerTone::Error,
            "Update fehlgeschlagen: "@ + e@,
            Some(("Erneut versuchen"@, Action::InstallUpdate)),
            Some(Dismiss::Update),
        ),
        _ => r is None,
    }
}

pub fn update_banner(s: &Status, hidden: bool, has_release: bool) -> (r: Option<Banner>)
    ensures
        update_banner_fits(*s, hidden, has_release, r),
{
    match s {
        Status::Available(rel) if !hidden => {
            let mut t = String::from_str("omnidl ");
            push_str(&mut t, rel.version.as_str());
            push_str(&mut t, " ist verfügbar.");
            Some(
                Banner {
                    tone: BannerTone::Info,
                    text: t,
                    action: Some(("Aktualisieren", Action::InstallUpdate)),
                    dismiss: Some(Dismiss::Update),
                },
            )
        },
        Status::Downloading { version, frac } => {
            let mut t = String::from_str("Lade omnidl ");
            push_str(&mut t, version.as_str());
            match frac {
                Some(f) => {
                    push_str(&mut t, " … ");
                    push_decimal(&mut t, percent_of(*f));
                    push_str(&mut t, " %");
                },
                None => push_str(&mut t, " …"),
            }
            Some(Banner { tone: BannerTone::Busy, text: t, action: None, dismiss: None })
        },
        Status::Ready(v) => {
            let mut t = String::from_str("omnidl ");
            push_str(&mut t, v.as_str());
            push_str(&mut t, " ist installiert. Laufende Downloads gehen nach dem Neustart weiter.");
            Some(
                Banner {
                    tone: BannerTone::Info,
                    text: t,
                    action: Some(("Neu starten", Action::Restart)),
                    dismiss: None,
                },
            )
        },
        Status::Failed(e) if has_release && !hidden => {
            let mut t = String::from_str("Update fehlgeschlagen: ");
            push_str(&mut t, e.as_str());
            Some(
                Banner {
                    tone: BannerTone::Error,
                    text: t,
                    action: Some(("Erneut versuchen", Action::InstallUpdate)),
                    dismiss: Some(Dismiss::Update),
                },
            )
        },
        _ => None,
    }
}

/// The window's state the banner is chosen from.
pub struct BannerState<'a> {
    pub deps: &'a DepsStatus,
    /// A complete tool check has come back.
    pub deps_checked: bool,
    pub update: &'a Status,
    pub update_hidden: bool,
    pub has_release: bool,
    /// The tool warning was closed.
    pub hide_warning: bool,
}

/// The banner above the list, most urgent first: tool setup at work (not
/// the routine check at startup), before the first check only updates;
/// then tool errors, missing yt-dlp or ffmpeg, updates, and, unless hidden,
/// a missing JavaScript runtime and an old yt-dlp.
pub open spec fn banner_fits(s: BannerState, r: Option<Banner>) -> bool {
    let d = *s.deps;
    match d.busy {
        Some(busy) => if !s.deps_checked && crate::text::starts_with(busy@, "Prüfe"@) {
            r is None
        } else {
            r matches Some(b) && shows(b, BannerTone::Busy, busy@, None, None)
        },
        None => if !s.deps_checked {
            update_banner_fits(*s.update, s.update_hidden, s.has_release, r)
        } else if d.error is Some {
            r matches Some(b) && shows(
                b,
                BannerTone::Error,
                "Werkzeuge konnten nicht eingerichtet werden: "@ + d.error.unwrap()@,
                Some(("Erneut versuchen"@, Action::UpdateTools)),
                None,
            )
        } else if d.ytdlp is None {
            r matches Some(b) && shows(
                b,
                BannerTone::Error,
                "yt-dlp fehlt oder startet nicht."@,
                Some(("Neu laden"@, Action::UpdateTools)),
                None,
            )
        } else if !d.ffmpeg {
            r matches Some(b) && shows(
                b,
                BannerTone::Error,
                "ffmpeg fehlt – ohne geht keine Umwandlung."@,
                Some(("Laden"@, Action::UpdateTools)),
                None,
            )
        } else if update_banner_has(*s.update, s.update_hidden, s.has_release) {
            update_banner_fits(*s.update, s.update_hidden, s.has_release, r)
        } else if s.hide_warning {
            r is None
        } else if d.js is None {
            r matches Some(b) && shows(
                b,
                BannerTone::Warning,
                "Keine JavaScript-Laufzeit gefunden – YouTube braucht eine."@,
                Some(("Laden"@, Action::UpdateTools)),
                Some(Dismiss::ToolWarning),
            )
        } else if d.ytdlp_age_days matches Some(a) && a > 14 {
            r matches Some(b) && shows(
                b,
                BannerTone::Warning,
                "yt-dlp wurde seit "@ + decimal(d.ytdlp_age_days.unwrap() as nat)
                    + " Tagen nicht aktualisiert. Scheitern YouTube-Downloads, hilft meist ein Update."@,
                Some(("Aktualisieren"@, Action::UpdateTools)),
                Some(Dismiss::ToolWarning),
            )
        } else {
            r is None
        },
    }
}

/// An update banner is shown at all.
pub open spec fn update_banner_has(s: Status, hidden: bool, has_release: bool) -> bool {
    match s {
        Status::Available(_) => !hidden,
        Status::Downloading { .. } => true,
        Status::Ready(_) => true,
        Status::Failed(_) => has_release && !hidden,
        _ => false,
    }
}

fn tool_banner(tone: BannerTone, text: String, label: &'static str, dismiss: Option<Dismiss>) -> (r: Option<Banner>)
    ensures
        r matches Some(b) && shows(b, tone, text@, Some((label@, Action::UpdateTools)), dismiss),
{
    Some(Banner { tone, text, action: Some((label, Action::UpdateTools)), dismiss })
}

pub fn banner(s: &BannerState) -> (r: Option<Banner>)
    ensures
        banner_fits(*s, r),
{
    let d = s.deps;
    if let Some(busy) = &d.busy {
        // The routine check at startup takes a moment; not worth a banner.
        let v = chars_of(busy.as_str());
        let p = chars_of("Prüfe");
        if !s.deps_checked && crate::text::begins_with(v.as_slice(), p.as_slice()) {
            return None;
        }
        return Some(Banner { tone: BannerTone::Busy, text: busy.clone(), action: None, dismiss: None });
    }
    if !s.deps_checked {
        return update_banner(s.update, s.update_hidden, s.has_release);
    }
    if let Some(err) = &d.error {
        let mut t = String::from_str("Werkzeuge konnten nicht eingerichtet werden: ");
        push_str(&mut t, err.as_str());
        return tool_banner(BannerTone::Error, t, "Erneut versuchen", None);
    }
    if d.ytdlp.is_none() {
        return tool_banner(BannerTone::Error, String::from_str("yt-dlp fehlt oder startet nicht."), "Neu laden", None);
    }
    if !d.ffmpeg {
        return tool_banner(
            BannerTone::Error,
            String::from_str("ffmpeg fehlt – ohne geht keine Umwandlung."),
            "Laden",
            None,
        );
    }
    let u = update_banner(s.update, s.update_hidden, s.has_release);
    if u.is_some() {
        return u;
    }
    if s.hide_warning {
        return None;
    }
    if d.js.is_none() {
        return tool_banner(
            BannerTone::Warning,
            String::from_str("Keine JavaScript-Laufzeit gefunden – YouTube braucht eine."),
            "Laden",
            Some(Dismiss::ToolWarning),
        );
    }
    if let Some(age) = d.ytdlp_age_days {
        if age > 14 {
            let mut t = String::from_str("yt-dlp wurde seit ");
            push_decimal(&mut t, age as u64);
            push_str(&mut t, " Tagen nicht aktualisiert. Scheitern YouTube-Downloads, hilft meist ein Update.");
            return tool_banner(BannerTone::Warning, t, "Aktualisieren", Some(Dismiss::ToolWarning));
        }
    }
    None
}

// ---------------------------------------------------------------- settings notes

/// The note under the update settings, and its color.
pub open spec fn update_note_of(s: Status) -> (Seq<char>, Hue) {
    match s {
        Status::Idle => ("Updates kommen von github.com/"@ + REPO@ + "."@, Hue::Secondary),
        Status::Checking => ("Suche nach Updates …"@, Hue::Blue),
        Status::UpToDate => ("omnidl ist auf dem neuesten Stand."@, Hue::Secondary),
        Status::Available(rel) => ("Version "@ + rel.version@ + " ist verfügbar."@, Hue::Blue),
        Status::Downloading { version, frac } => (
            "Lade Version "@ + version@ + " …"@ + match frac {
                Some(f) => " "@ + decimal(percent(f as nat)) + " %"@,
                None => seq![],
            },
            Hue::Blue,
        ),
        Status::Ready(v) => (
            "Version "@ + v@ + " ist installiert und startet mit dem nächsten Neustart."@,
            Hue::Secondary,
        ),
        Status::Failed(e) => (e@, Hue::Red),
    }
}

pub fn update_note(s: &Status) -> (r: (String, Hue))
    ensures
        (r.0@, r.1) == update_note_of(*s),
{
    match s {
        Status::Idle => {
            let mut t = String::from_str("Updates kommen von github.com/");
            push_str(&mut t, REPO);
            push_str(&mut t, ".");
            (t, Hue::Secondary)
        },
        Status::Checking => (String::from_str("Suche nach Updates …"), Hue::Blue),
        Status::UpToDate => (String::from_str("omnidl ist auf dem neuesten Stand."), Hue::Secondary),
        Status::Available(rel) => {
            let mut t = String::from_str("Version ");
            push_str(&mut t, rel.version.as_str());
            push_str(&mut t, " ist verfügbar.");
            (t, Hue::Blue)
        },
        Status::Downloading { version, frac } => {
            let mut t = String::from_str("Lade Version ");
            push_str(&mut t, version.as_str());
            push_str(&mut t, " …");
            if let Some(f) = frac {
                push_str(&mut t, " ");
                push_decimal(&mut t, percent_of(*f));
                push_str(&mut t, " %");
            }
            (t, Hue::Blue)
        },
        Status::Ready(v) => {
            let mut t = String::from_str("Version ");
            push_str(&mut t, v.as_str());
            push_str(&mut t, " ist installiert und startet mit dem nächsten Neustart.");
            (t, Hue::Secondary)
        },
        Status::Failed(e) => (e.clone(), Hue::Red),
    }
}

/// The note under the browser extension's settings: why the link is not
/// there, or how to install the extension.
pub fn browser_note(bridge: Result<(), String>, ext_error: Option<String>) -> (r: (String, Hue))
    ensures
        match (bridge, ext_error) {
            (Err(e), _) => r.0@ == "Nicht verfügbar: "@ + e@ + "."@ && r.1 == Hue::Red,
            (Ok(()), Some(e)) => r.0@ == "Ordner nicht anlegbar: "@ + e@ && r.1 == Hue::Red,
            (Ok(()), None) => r.0@ == EXTENSION_HELP@ && r.1 == Hue::Secondary,
        },
{
    match (bridge, ext_error) {
        (Err(e), _) => {
            let mut t = String::from_str("Nicht verfügbar: ");
            push_str(&mut t, e.as_str());
            push_str(&mut t, ".");
            (t, Hue::Red)
        },
        (Ok(()), Some(e)) => {
            let mut t = String::from_str("Ordner nicht anlegbar: ");
            push_str(&mut t, e.as_str());
            (t, Hue::Red)
        },
        (Ok(()), None) => (String::from_str(EXTENSION_HELP), Hue::Secondary),
    }
}

/// How the browser extension is installed.
pub const EXTENSION_HELP: &'static str = "In Chrome oder Edge unter Erweiterungen den Entwicklermodus einschalten, „Entpackte Erweiterung laden“ wählen und diesen Ordner nehmen. Danach schickt ein Klick aufs omnidl-Symbol die offene Seite hierher.";

/// How the tools read in the settings: yt-dlp's version (old after 14
/// days), then ffmpeg, the JavaScript runtime and gallery-dl.
pub fn tool_rows(d: &DepsStatus) -> (r: Vec<(&'static str, String, Hue)>)
    ensures
        r@.len() == 4,
        r@[0].0@ == "yt-dlp"@,
        match d.ytdlp {
            Some(v) => if d.ytdlp_age_days matches Some(a) && a > 14 {
                r@[0].1@ == v@ + " · veraltet"@ && r@[0].2 == Hue::Orange
            } else {
                r@[0].1@ == v@ && r@[0].2 == Hue::Secondary
            },
            None => r@[0].1@ == "fehlt"@ && r@[0].2 == Hue::Red,
        },
        r@[1].0@ == "ffmpeg"@,
        r@[1].1@ == (if d.ffmpeg {
            "bereit"@
        } else {
            "fehlt"@
        }),
        r@[1].2 == (if d.ffmpeg {
            Hue::Secondary
        } else {
            Hue::Red
        }),
        r@[2].0@ == "JavaScript-Laufzeit"@,
        match d.js {
            Some(j) => r@[2].1@ == (if j@ == "deno"@ {
                "Deno"@
            } else {
                "Node.js"@
            }) && r@[2].2 == Hue::Secondary,
            None => r@[2].1@ == "fehlt"@ && r@[2].2 == Hue::Orange,
        },
        r@[3].0@ == "gallery-dl"@,
        r@[3].1@ == (if d.gallery {
            "bereit"@
        } else {
            "fehlt"@
        }),
        r@[3].2 == (if d.gallery {
            Hue::Secondary
        } else {
            Hue::Orange
        }),
{
    let ytdlp = match &d.ytdlp {
        Some(v) => {
            let old = match d.ytdlp_age_days {
                Some(a) => a > 14,
                None => false,
            };
            if old {
                let mut t = v.clone();
                push_str(&mut t, " · veraltet");
                (t, Hue::Orange)
            } else {
                (v.clone(), Hue::Secondary)
            }
        },
        None => (String::from_str("fehlt"), Hue::Red),
    };
    let ffmpeg = if d.ffmpeg {
        (String::from_str("bereit"), Hue::Secondary)
    } else {
        (String::from_str("fehlt"), Hue::Red)
    };
    let js = match &d.js {
        Some(j) => if same_str(j.as_str(), "deno") {
            (String::from_str("Deno"), Hue::Secondary)
        } else {
            (String::from_str("Node.js"), Hue::Secondary)
        },
        None => (String::from_str("fehlt"), Hue::Orange),
    };
    let gallery = if d.gallery {
        (String::from_str("bereit"), Hue::Secondary)
    } else {
        (String::from_str("fehlt"), Hue::Orange)
    };
    let mut rows: Vec<(&'static str, String, Hue)> = Vec::new();
    rows.push(("yt-dlp", ytdlp.0, ytdlp.1));
    rows.push(("ffmpeg", ffmpeg.0, ffmpeg.1));
    rows.push(("JavaScript-Laufzeit", js.0, js.1));
    rows.push(("gallery-dl", gallery.0, gallery.1));
    rows
}


/// The note above the tool rows: what is being done to the tools, else what
/// last went wrong with them, else the advice to refresh yt-dlp first.
pub fn tools_note(d: &DepsStatus) -> (r: (String, Hue))
    ensures
        match (d.busy, d.error) {
            (Some(b), _) => r.0@ == b@ && r.1 == Hue::Blue,
            (None, Some(e)) => r.0@ == e@ && r.1 == Hue::Red,
            (None, None) => r.0@ == TOOLS_ADVICE@ && r.1 == Hue::Secondary,
        },
{
    match (&d.busy, &d.error) {
        (Some(b), _) => (b.clone(), Hue::Blue),
        (None, Some(e)) => (e.clone(), Hue::Red),
        (None, None) => (String::from_str(TOOLS_ADVICE), Hue::Secondary),
    }
}

/// What to try when YouTube downloads fail.
pub const TOOLS_ADVICE: &'static str = "Scheitern YouTube-Downloads, zuerst yt-dlp aktualisieren.";

/// The button beside the version: its label, and what it does; no action
/// means that it looks for updates. While a check or a download runs there
/// is no button.
pub fn version_button(s: &Status) -> (r: Option<(&'static str, Option<Action>)>)
    ensures
        match *s {
            Status::Available(_) => r matches Some((l, a)) && l@ == "Installieren"@ && a == Some(
                Action::InstallUpdate,
            ),
            Status::Ready(_) => r matches Some((l, a)) && l@ == "Neu starten"@ && a == Some(
                Action::Restart,
            ),
            Status::Checking | Status::Downloading { .. } => r is None,
            _ => r matches Some((l, a)) && l@ == "Nach Updates suchen"@ && a is None,
        },
{
    match s {
        Status::Available(_) => Some(("Installieren", Some(Action::InstallUpdate))),
        Status::Ready(_) => Some(("Neu starten", Some(Action::Restart))),
        Status::Checking | Status::Downloading { .. } => None,
        _ => Some(("Nach Updates suchen", None)),
    }
}

// ---------------------------------------------------------------- the list

/// The badge in the link field: nothing for no link, the site of a single
/// link, else how many links there are.
pub fn link_badge(urls: &Vec<String>) -> (r: Option<String>)
    ensures
        urls@.len() == 0 ==> r is None,
        urls@.len() == 1 ==> (r matches Some(t) && t@ == crate::detect::detected(urls@[0]@).label()),
        urls@.len() > 1 ==> (r matches Some(t) && t@ == decimal(urls@.len()) + " Links"@),
{
    let n = urls.len();
    if n == 0 {
        None
    } else if n == 1 {
        let src = crate::detect::detect(urls[0].as_str());
        Some(String::from_str(src.label()))
    } else {
        let mut t = String::new();
        push_decimal(&mut t, n as u64);
        push_str(&mut t, " Links");
        Some(t)
    }
}

/// Which buttons a row of the list shows.
#[derive(Clone, Copy, Debug, PartialEq, Eq, Structural)]
pub struct RowButtons {
    /// Stop the job.
    pub stop: bool,
    /// Start a scheduled job now.
    pub start_now: bool,
    /// Try the link again.
    pub retry: bool,
    /// Show the result in the file manager.
    pub reveal: bool,
    /// Open or close the list's items.
    pub expand: bool,
}

/// The buttons of a job's row: stop while it is not finished, start now
/// while it waits for its time, try again on a top row whose failed or
/// stopped job has a link, show a result that is there, and open a list.
pub fn row_buttons(job: &Job, child: bool) -> (r: RowButtons)
    ensures
        r.stop == !job.state.finished(),
        r.start_now == job.state is Scheduled,
        r.retry == (!child && job.state.retryable() && job.url@.len() > 0),
        r.reveal == job.output is Some,
        r.expand == job.group(),
{
    RowButtons {
        stop: !job.state.is_finished(),
        start_now: matches!(job.state, crate::job::JobState::Scheduled(_)),
        retry: !child && job.state.can_retry() && job.url.as_str().unicode_len() > 0,
        reveal: job.output.is_some(),
        expand: job.is_group(),
    }
}

} // verus!
