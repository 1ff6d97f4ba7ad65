//! The web interface's rules: which requests the guard turns away, which
//! links a request adds and with which settings, and how a settings change
//! applies.

use crate::auth::{cookie_text, key_of, makes_room, opened, unexpired, Auth, Login, SessionView, SESSION_SECS};
use crate::config::{AudioQuality, Config, Cookies, Format, Mode, VideoQuality};
use crate::detect::{split_text, split_urls};
use crate::job::JobId;
use crate::jobs::{last_pos, Jobs};
use crate::launch::{is_web_link, web_link};
use crate::text::{
    after_last, after_last_index, ascii_lowercase, begins_with, chars_of, lower_all, parse_u64, parsed_nat, same_chars,
    same_str, slice_vec, starts_with, string_of, string_views, until, until_index,
};
use vstd::prelude::*;

verus! {

/// Header every state-changing request must carry. Browsers cannot add it to
/// cross-site requests without a CORS preflight, which this server never
/// grants.
pub const CSRF_HEADER: &'static str = "x-omnidl";

/// Links per request; more is surely a mistake.
pub const MAX_LINKS: usize = 500;

/// Why the guard turns a request away.
#[derive(Clone, Copy, Debug, PartialEq, Eq, Structural)]
pub enum Refusal {
    /// A reverse proxy forwarded it, and there is no password.
    Proxy,
    /// Without a password only this machine may connect.
    NotLocal,
    /// A state-changing request without the CSRF header.
    NoToken,
    /// An API call without a session.
    Unauthorized,
    /// A page without a session: off to the login page.
    Login,
}

impl Refusal {
    /// The HTTP status sent.
    pub fn status(&self) -> (r: u16)
        ensures
            r == match *self {
                Refusal::Proxy | Refusal::NotLocal | Refusal::NoToken => 403u16,
                Refusal::Unauthorized => 401u16,
                Refusal::Login => 303u16,
            },
    {
        match self {
            Refusal::Proxy | Refusal::NotLocal | Refusal::NoToken => 403,
            Refusal::Unauthorized => 401,
            Refusal::Login => 303,
        }
    }

    /// The error text sent; the login redirect carries none.
    pub fn message(&self) -> (r: &'static str)
        ensures
            r@ == match *self {
                Refusal::Proxy => "Hinter einem Reverse Proxy braucht omnidl ein Passwort (--password oder OMNIDL_PASSWORD)."@,
                Refusal::NotLocal => "Ohne Passwort ist omnidl nur über localhost erreichbar."@,
                Refusal::NoToken => "Anfrage abgelehnt: Kennung fehlt."@,
                Refusal::Unauthorized => "Bitte anmelden."@,
                Refusal::Login => "/login"@,
            },
    {
        match self {
            Refusal::Proxy => "Hinter einem Reverse Proxy braucht omnidl ein Passwort (--password oder OMNIDL_PASSWORD).",
            Refusal::NotLocal => "Ohne Passwort ist omnidl nur über localhost erreichbar.",
            Refusal::NoToken => "Anfrage abgelehnt: Kennung fehlt.",
            Refusal::Unauthorized => "Bitte anmelden.",
            Refusal::Login => "/login",
        }
    }
}

/// Reachable without logging in: the login page and what it needs.
pub open spec fn public_path(p: Seq<char>) -> bool {
    p == "/login"@ || p == "/api/login"@ || p == "/app.css"@ || p == "/login.js"@ || p
        == "/icon.png"@ || p == "/manifest.webmanifest"@
}

fn is_public(path: &str) -> (b: bool)
    ensures
        b == public_path(path@),
{
    same_str(path, "/login") || same_str(path, "/api/login") || same_str(path, "/app.css")
        || same_str(path, "/login.js") || same_str(path, "/icon.png") || same_str(
        path,
        "/manifest.webmanifest",
    )
}

/// The guard's answer. Without a password: nothing forwarded by a proxy and
/// only a host name of this machine. Always: a state-changing method only
/// with the CSRF header. Then the public paths, or a session.
pub open spec fn refusal(
    auth: bool,
    forwarded: bool,
    local_host: bool,
    safe_method: bool,
    has_token: bool,
    path: Seq<char>,
    allowed: bool,
) -> Option<Refusal> {
    if !auth && forwarded {
        Some(Refusal::Proxy)
    } else if !auth && !local_host {
        Some(Refusal::NotLocal)
    } else if !safe_method && !has_token {
        Some(Refusal::NoToken)
    } else if public_path(path) || allowed {
        None
    } else if starts_with(path, "/api/"@) {
        Some(Refusal::Unauthorized)
    } else {
        Some(Refusal::Login)
    }
}

/// Why a request may not pass. `auth`: a password is set; `forwarded`: a
/// proxy header is present; `local_host`: the Host header names this
/// machine; `safe_method`: GET or HEAD; `has_token`: the CSRF header is
/// present; `allowed`: the request carries a valid session.
pub fn refuse(
    auth: bool,
    forwarded: bool,
    local_host: bool,
    safe_method: bool,
    has_token: bool,
    path: &str,
    allowed: bool,
) -> (r: Option<Refusal>)
    ensures
        r == refusal(auth, forwarded, local_host, safe_method, has_token, path@, allowed),
{
    if !auth {
        if forwarded {
            return Some(Refusal::Proxy);
        }
        if !local_host {
            return Some(Refusal::NotLocal);
        }
    }
    if !safe_method && !has_token {
        return Some(Refusal::NoToken);
    }
    if is_public(path) || allowed {
        return None;
    }
    let p = chars_of(path);
    let api = chars_of("/api/");
    if begins_with(p.as_slice(), api.as_slice()) {
        Some(Refusal::Unauthorized)
    } else {
        Some(Refusal::Login)
    }
}

// ---------------------------------------------------------------- adding links

/// Every link found in the texts, in order.
pub open spec fn all_urls(ts: Seq<Seq<char>>) -> Seq<Seq<char>>
    decreases ts.len(),
{
    if ts.len() == 0 {
        seq![]
    } else {
        all_urls(ts.drop_last()) + split_text(ts.last())
    }
}

/// The web links among `us`, each once, where it first occurs.
pub open spec fn fresh_links(us: Seq<Seq<char>>) -> Seq<Seq<char>>
    decreases us.len(),
{
    if us.len() == 0 {
        seq![]
    } else {
        let p = fresh_links(us.drop_last());
        let u = us.last();
        if web_link(u) && !p.contains(u) {
            p.push(u)
        } else {
            p
        }
    }
}

/// The links added are all web links, none twice, and every web link of
/// the texts is among them.
pub proof fn lemma_fresh_links(us: Seq<Seq<char>>)
    ensures
        fresh_links(us).no_duplicates(),
        forall|i: int| 0 <= i < fresh_links(us).len() ==> #[trigger] web_link(fresh_links(us)[i]),
        forall|u: Seq<char>| #[trigger] us.contains(u) && web_link(u) ==> fresh_links(us).contains(u),
    decreases us.len(),
{
    if us.len() > 0 {
        lemma_fresh_links(us.drop_last());
        assert forall|u: Seq<char>| #[trigger] us.contains(u) && web_link(u) implies fresh_links(
            us,
        ).contains(u) by {
            let k = choose|k: int| 0 <= k < us.len() && us[k] == u;
            if k < us.len() - 1 {
                assert(us.drop_last()[k] == u);
                assert(us.drop_last().contains(u));
                let p = fresh_links(us.drop_last());
                let j = choose|j: int| 0 <= j < p.len() && p[j] == u;
                if web_link(us.last()) && !p.contains(us.last()) {
                    assert(p.push(us.last())[j] == u);
                }
            } else {
                let p = fresh_links(us.drop_last());
                if p.contains(u) {
                    let j = choose|j: int| 0 <= j < p.len() && p[j] == u;
                    if web_link(us.last()) && !p.contains(us.last()) {
                        assert(p.push(us.last())[j] == u);
                    }
                } else {
                    assert(p.push(us.last())[p.len() as int] == u);
                }
            }
        }
    }
}

fn holds(v: &Vec<String>, s: &str) -> (b: bool)
    ensures
        b == string_views(v@).contains(s@),
{
    let mut i: usize = 0;
    while i < v.len()
        invariant
            i <= v@.len(),
            forall|k: int| 0 <= k < i ==> string_views(v@)[k] != s@,
        decreases v@.len() - i,
    {
        if same_str(v[i].as_str(), s) {
            assert(string_views(v@)[i as int] == s@);
            return true;
        }
        i += 1;
    }
    false
}

/// What an add request's link texts come to: the web links in them, each
/// once; refused when there is none, or more than [`MAX_LINKS`].
pub fn links_to_add(texts: &Vec<String>) -> (r: Result<Vec<String>, &'static str>)
    ensures
        ({
            let us = fresh_links(all_urls(string_views(texts@)));
            match r {
                Ok(v) => string_views(v@) == us && 0 < us.len() <= MAX_LINKS,
                Err(m) => (us.len() == 0 && m@ == "Kein gültiger Link gefunden."@) || (us.len()
                    > MAX_LINKS && m@ == "Zu viele Links auf einmal."@),
            }
        }),
{
    let ghost ts = string_views(texts@);
    let mut out: Vec<String> = Vec::new();
    let mut i: usize = 0;
    while i < texts.len()
        invariant
            i <= texts@.len(),
            ts == string_views(texts@),
            string_views(out@) == fresh_links(all_urls(ts.take(i as int))),
        decreases texts@.len() - i,
    {
        assert(ts.take(i + 1).drop_last() =~= ts.take(i as int));
        let us = split_urls(texts[i].as_str());
        let ghost base = all_urls(ts.take(i as int));
        let mut j: usize = 0;
        assert(base + string_views(us@).take(0) =~= base);
        while j < us.len()
            invariant
                j <= us@.len(),
                string_views(out@) == fresh_links(base + string_views(us@).take(j as int)),
            decreases us@.len() - j,
        {
            let ghost cur = base + string_views(us@).take(j as int);
            assert((base + string_views(us@).take(j + 1)).drop_last() =~= cur);
            assert((base + string_views(us@).take(j + 1)).last() == us@[j as int]@);
            if is_web_link(us[j].as_str()) && !holds(&out, us[j].as_str()) {
                let ghost before = string_views(out@);
                out.push(us[j].clone());
                assert(string_views(out@) =~= before.push(us@[j as int]@));
            }
            j += 1;
        }
        assert(string_views(us@).take(us@.len() as int) =~= string_views(us@));
        assert(all_urls(ts.take(i + 1)) =~= base + split_text(ts[i as int]));
        i += 1;
    }
    assert(ts.take(texts@.len() as int) =~= ts);
    if out.len() == 0 {
        return Err("Kein gültiger Link gefunden.");
    }
    if out.len() > MAX_LINKS {
        return Err("Zu viele Links auf einmal.");
    }
    Ok(out)
}

/// When an added download starts: a time in the past, or none, starts it
/// right away; more than 400 days ahead is refused.
pub fn start_time(start_at: Option<i64>, now: i64) -> (r: Result<Option<i64>, &'static str>)
    ensures
        match start_at {
            Some(at) => if at > now + 400 * 86_400 {
                r matches Err(m) && m@ == "Die Startzeit liegt zu weit in der Zukunft."@
            } else if at > now {
                r == Ok::<Option<i64>, &'static str>(Some(at))
            } else {
                r == Ok::<Option<i64>, &'static str>(None)
            },
            None => r == Ok::<Option<i64>, &'static str>(None),
        },
{
    match start_at {
        Some(at) => {
            if at as i128 > now as i128 + 400 * 86_400 {
                Err("Die Startzeit liegt zu weit in der Zukunft.")
            } else if at > now {
                Ok(Some(at))
            } else {
                Ok(None)
            }
        },
        None => Ok(None),
    }
}

/// The settings for an add request: the current ones, with the kind, the
/// format, the qualities and the playlist choice the request names.
pub open spec fn requested(
    cfg: Config,
    mode: Option<Mode>,
    format: Option<Format>,
    video: Option<VideoQuality>,
    audio: Option<AudioQuality>,
    playlist: Option<bool>,
) -> Config {
    let c1 = match mode {
        Some(m) => cfg.with_audio(m == Mode::Audio),
        None => cfg,
    };
    let c2 = match format {
        Some(f) => c1.with_format(f),
        None => c1,
    };
    Config {
        video_quality: match video {
            Some(q) => q,
            None => c2.video_quality,
        },
        audio_quality: match audio {
            Some(q) => q,
            None => c2.audio_quality,
        },
        playlist: match playlist {
            Some(p) => p,
            None => c2.playlist,
        },
        ..c2
    }
}

pub fn request_config(
    cfg: Config,
    mode: Option<Mode>,
    format: Option<Format>,
    video: Option<VideoQuality>,
    audio: Option<AudioQuality>,
    playlist: Option<bool>,
) -> (r: Config)
    ensures
        r == requested(cfg, mode, format, video, audio, playlist),
{
    let mut c = cfg;
    if let Some(m) = mode {
        c.set_audio(m == Mode::Audio);
    }
    if let Some(f) = format {
        c.set_format(f);
    }
    if let Some(q) = video {
        c.video_quality = q;
    }
    if let Some(q) = audio {
        c.audio_quality = q;
    }
    if let Some(p) = playlist {
        c.playlist = p;
    }
    c
}

// ---------------------------------------------------------------- settings

/// A settings change from the page: each field it names.
pub struct Patch {
    pub download_dir: Option<String>,
    pub parallel: Option<usize>,
    pub playlist: Option<bool>,
    pub cookies: Option<Cookies>,
    pub mode: Option<Mode>,
    pub format: Option<Format>,
    pub video_quality: Option<VideoQuality>,
    pub audio_quality: Option<AudioQuality>,
}

/// Between one and sixteen parallel downloads, when the change names a
/// number.
pub fn parallel_allowed(n: Option<usize>) -> (b: bool)
    ensures
        b == match n {
            Some(k) => 1 <= k <= 16,
            None => true,
        },
{
    match n {
        Some(k) => 1 <= k && k <= 16,
        None => true,
    }
}

/// The settings after a change: the folder (already checked and created),
/// the number of parallel downloads, the playlist choice and the cookies,
/// then the kind, the format and the qualities as for an add request.
pub open spec fn patched(cfg: Config, p: Patch, dir: Option<String>) -> Config {
    let c0 = Config {
        download_dir: match dir {
            Some(d) => d,
            None => cfg.download_dir,
        },
        parallel: match p.parallel {
            Some(n) => n,
            None => cfg.parallel,
        },
        playlist: match p.playlist {
            Some(b) => b,
            None => cfg.playlist,
        },
        cookies: match p.cookies {
            Some(c) => c,
            None => cfg.cookies,
        },
        ..cfg
    };
    requested(c0, p.mode, p.format, p.video_quality, p.audio_quality, None)
}

fn apply_choices(
    cfg: &mut Config,
    mode: Option<Mode>,
    format: Option<Format>,
    video: Option<VideoQuality>,
    audio: Option<AudioQuality>,
)
    ensures
        *final(cfg) == requested(*old(cfg), mode, format, video, audio, None),
{
    if let Some(m) = mode {
        cfg.set_audio(m == Mode::Audio);
    }
    if let Some(f) = format {
        cfg.set_format(f);
    }
    if let Some(q) = video {
        cfg.video_quality = q;
    }
    if let Some(q) = audio {
        cfg.audio_quality = q;
    }
}

/// Applies a settings change. The result is the new number of parallel
/// downloads when it changed.
pub fn apply_patch(cfg: &mut Config, p: Patch, dir: Option<String>) -> (r: Option<usize>)
    ensures
        *final(cfg) == patched(*old(cfg), p, dir),
        r == (if final(cfg).parallel != old(cfg).parallel {
            Some(final(cfg).parallel)
        } else {
            None
        }),
{
    let before = cfg.parallel;
    let Patch { parallel, playlist, cookies, mode, format, video_quality, audio_quality, .. } = p;
    if let Some(d) = dir {
        cfg.download_dir = d;
    }
    if let Some(n) = parallel {
        cfg.parallel = n;
    }
    if let Some(b) = playlist {
        cfg.playlist = b;
    }
    if let Some(c) = cookies {
        cfg.cookies = c;
    }
    apply_choices(cfg, mode, format, video_quality, audio_quality);
    if cfg.parallel != before {
        Some(cfg.parallel)
    } else {
        None
    }
}

// ---------------------------------------------------------------- retry

/// Why a download cannot be tried again.
#[derive(Clone, Copy, Debug, PartialEq, Eq, Structural)]
pub enum RetryRefusal {
    /// The list does not know it.
    Unknown,
    /// A list entry, still running, done, or without a link.
    NotRetryable,
}

/// Like the desktop app: a top-level job that did not succeed and has its
/// link comes back as a new download. The result is that link.
pub fn retry_link(jobs: &Jobs, id: JobId) -> (r: Result<String, RetryRefusal>)
    requires
        jobs.wf(),
    ensures
        match last_pos(jobs@, id) {
            None => r == Err::<String, RetryRefusal>(RetryRefusal::Unknown),
            Some(i) => {
                let j = jobs@[i];
                if j.parent is Some || !j.state.retryable() || j.url.len() == 0 {
                    r == Err::<String, RetryRefusal>(RetryRefusal::NotRetryable)
                } else {
                    r matches Ok(u) && u@ == j.url
                }
            },
        },
{
    match jobs.get(id) {
        None => Err(RetryRefusal::Unknown),
        Some(job) => {
            if job.parent.is_some() || !job.state.can_retry() || job.url.as_str().is_empty() {
                Err(RetryRefusal::NotRetryable)
            } else {
                Ok(job.url.clone())
            }
        },
    }
}

// ---------------------------------------------------------------- login

/// A request that came through an HTTPS proxy: its `X-Forwarded-Proto`
/// says `https`, in any case.
pub fn forwarded_https(proto: Option<&str>) -> (b: bool)
    ensures
        b == (proto matches Some(p) && lower_all(p@) == "https"@),
{
    match proto {
        Some(p) => {
            let l = ascii_lowercase(p);
            same_chars(l.as_slice(), "https")
        },
        None => false,
    }
}

/// The answer to a login with `password` at `now`: without a password set
/// there is nothing to log in to (`Ok(None)`); with too many failed
/// attempts waiting (`busy`) the request is turned away; otherwise the
/// password is checked, and a success sets the session cookie. `Err`
/// carries the status and the message shown.
pub fn login_reply(auth: &mut Auth, password: &str, now: u64, https: bool, busy: bool) -> (r: Result<Option<String>, (u16, &'static str)>)
    requires
        old(auth).sessions.wf(),
        now + SESSION_SECS <= u64::MAX,
    ensures
        final(auth).password == old(auth).password,
        final(auth).secure == old(auth).secure,
        final(auth).sessions.wf(),
        old(auth).password is None ==> r == Ok::<Option<String>, (u16, &'static str)>(None) && final(auth).sessions@
            == old(auth).sessions@,
        old(auth).password matches Some(p) ==> {
            if busy {
                r matches Err((code, m)) && code == 429 && m@ == "Zu viele Versuche. Bitte kurz warten."@
                    && final(auth).sessions@ == old(auth).sessions@
            } else if key_of(password@) == key_of(p@) {
                r matches Ok(Some(c)) && exists|t: Seq<char>, kept: Seq<SessionView>|
                    #![trigger opened(kept, key_of(t), now)]
                    t.len() == 64 && c@ == cookie_text(t, old(auth).secure || https) && makes_room(
                        unexpired(old(auth).sessions@, now),
                        kept,
                    ) && final(auth).sessions@ == opened(kept, key_of(t), now)
            } else {
                r matches Err((code, m)) && code == 401 && m@ == "Falsches Passwort."@
                    && final(auth).sessions@ == old(auth).sessions@
            }
        },
{
    if !auth.enabled() {
        return Ok(None);
    }
    if busy {
        return Err((429, "Zu viele Versuche. Bitte kurz warten."));
    }
    match auth.login(password, now) {
        Login::Accepted(token) => Ok(Some(auth.cookie(token.as_str(), https))),
        _ => Err((401, "Falsches Passwort.")),
    }
}


// ---------------------------------------------------------------- Host header

/// `host` without a trailing `:port`, where what follows the last colon
/// reads as a port (`str::parse::<u16>`).
pub open spec fn port_stripped(host: Seq<char>) -> Seq<char> {
    let p = after_last(host, ':');
    if p.len() < host.len() && (parsed_nat(p) matches Some(v) && v <= 65535) {
        host.take(host.len() - p.len() - 1)
    } else {
        host
    }
}

/// The name a Host header gives: inside the brackets of an IPv6 literal,
/// else the header without its port.
pub open spec fn host_name_of(host: Seq<char>) -> Seq<char> {
    if host.len() > 0 && host[0] == '[' {
        until(host.drop_first(), seq![']'])
    } else {
        port_stripped(host)
    }
}

/// The name part of a Host header, as the check against DNS rebinding
/// reads it: `[::1]:8080` gives `::1`, `localhost:8080` gives `localhost`.
pub fn host_name(host: &str) -> (r: String)
    ensures
        r@ == host_name_of(host@),
{
    let v = chars_of(host);
    if v.len() > 0 && v[0] == '[' {
        let rest = slice_vec(v.as_slice(), 1, v.len());
        assert(rest@ =~= host@.drop_first());
        let close: [char; 1] = [']'];
        assert(close@ == seq![']']);
        let k = until_index(rest.as_slice(), close.as_slice());
        let name = slice_vec(rest.as_slice(), 0, k);
        assert(name@ =~= until(rest@, seq![']']));
        return string_of(name.as_slice());
    }
    let i = after_last_index(v.as_slice(), ':');
    if i > 0 {
        let p = slice_vec(v.as_slice(), i, v.len());
        assert(p@ =~= after_last(v@, ':'));
        match parse_u64(p.as_slice()) {
            Some(n) => {
                if n <= 65535 {
                    let name = slice_vec(v.as_slice(), 0, i - 1);
                    assert(name@ =~= host@.take(host@.len() - p@.len() - 1));
                    return string_of(name.as_slice());
                }
            },
            None => {},
        }
    }
    string_of(v.as_slice())
}

/// Whether a host name is `localhost`, in any case (`eq_ignore_ascii_case`).
pub fn names_localhost(name: &str) -> (b: bool)
    ensures
        b == (lower_all(name@) == "localhost"@),
{
    let low = ascii_lowercase(name);
    same_chars(low.as_slice(), "localhost")
}
} // verus!
