//! Password and sessions of the web interface: which password applies, how
//! a new one is drawn, how secrets are compared, and the session cookie.

use sha2::Digest;
use crate::text::{chars_of, decimal, push_char, push_str, same_chars, split_char, split_first, split_once, string_of, trim_chars, trim_spaces, views, string_views};
use vstd::prelude::*;
use vstd::string::StringExecFns;
use vstd::utf8::encode_utf8;
use vstd::string::StringSliceAdditionalSpecFns;

verus! {

pub const COOKIE: &'static str = "omnidl_session";

/// How long a login lasts.
pub const SESSION_DAYS: u64 = 30;

/// Where the password came from, for the startup message.
#[derive(Clone, Copy, Debug, PartialEq, Eq, Structural)]
pub enum Origin {
    /// `--password` or `OMNIDL_PASSWORD`.
    Given,
    /// Generated earlier and read from `web.toml`.
    Stored,
    /// Generated just now, to be written to `web.toml`.
    Generated,
}

/// The outcome of a login.
#[derive(Debug)]
pub enum Login {
    Accepted(String),
    Wrong,
    Busy,
}

/// The characters of new passwords: no look-alikes such as 0/o or 1/l/i.
pub open spec fn alphabet() -> Seq<char> {
    "abcdefghjkmnpqrstuvwxyz23456789"@
}

/// Characters in groups of five, joined by `-`.
pub open spec fn grouped(cs: Seq<char>) -> Seq<char>
    decreases cs.len(),
{
    if cs.len() == 0 {
        seq![]
    } else {
        let n = cs.len() - 1;
        if n > 0 && n % 5 == 0 {
            grouped(cs.drop_last()).push('-').push(cs.last())
        } else {
            grouped(cs.drop_last()).push(cs.last())
        }
    }
}

/// One byte from the system's random source (`getrandom::fill`); `None`
/// when the source fails. Nothing is stated of the value.
#[verifier::external_body]
fn random_byte() -> (r: Option<u8>) {
    let mut buf = [0u8; 1];
    match getrandom::fill(&mut buf) {
        Ok(()) => Some(buf[0]),
        Err(_) => None,
    }
}

/// The character for an accepted random byte.
fn pick_char(b: u8) -> (c: char)
    ensures
        c == alphabet()[(b as int) % 31],
{
    let a = chars_of("abcdefghjkmnpqrstuvwxyz23456789");
    proof {
        reveal_strlit("abcdefghjkmnpqrstuvwxyz23456789");
    }
    a[(b as usize) % 31]
}

/// Four groups of five from an alphabet without look-alikes (about 99 bits),
/// easy to type on a phone: `k7mq2-xh4pt-9vwc3-rj8nd`. Each character is
/// drawn by rejection sampling so that all are equally likely; after
/// `u64::MAX` rejected or failed draws in a row a draw is taken as it is.
pub fn generate() -> (r: String)
    ensures
        exists|cs: Seq<char>|
            cs.len() == 20 && (forall|i: int| 0 <= i < 20 ==> alphabet().contains(#[trigger] cs[i]))
                && r@ == #[trigger] grouped(cs),
{
    let mut out = String::new();
    let ghost mut cs: Seq<char> = seq![];
    let mut n: usize = 0;
    while n < 20
        invariant
            n <= 20,
            cs.len() == n,
            forall|i: int| 0 <= i < n ==> alphabet().contains(#[trigger] cs[i]),
            out@ == grouped(cs),
        decreases 20 - n,
    {
        let mut tries: u64 = 0;
        let mut got: u8 = 0;
        loop
            invariant
                tries <= u64::MAX,
            decreases u64::MAX - tries,
        {
            match random_byte() {
                Some(b) => {
                    if (b as usize) < 256 - 256 % 31 || tries == u64::MAX {
                        got = b;
                        break;
                    }
                },
                None => {
                    if tries == u64::MAX {
                        break;
                    }
                },
            }
            tries += 1;
        }
        if n > 0 && n % 5 == 0 {
            push_char(&mut out, '-');
        }
        let c = pick_char(got);
        push_char(&mut out, c);
        proof {
            let old_cs = cs;
            cs = cs.push(c);
            assert(cs.drop_last() == old_cs);
            assert(alphabet().contains(c)) by {
                reveal_strlit("abcdefghjkmnpqrstuvwxyz23456789");
                assert(alphabet()[(got as int) % 31] == c);
            }
        }
        n += 1;
    }
    assert(out@ == grouped(cs));
    out
}

proof fn lemma_index_step(i: int, k: int)
    requires
        k >= 1,
        0 <= i < 6 * k - 1,
    ensures
        i % 6 == 5 || i - i / 6 < 5 * k,
{
    assert(i - i / 6 < 5 * k || i % 6 == 5) by (nonlinear_arith)
        requires
            k >= 1,
            0 <= i < 6 * k - 1,
    ;
}

/// Where each character of grouped text comes from: every sixth is a `-`,
/// the others are the characters in order.
pub proof fn lemma_grouped(cs: Seq<char>)
    ensures
        cs.len() > 0 ==> grouped(cs).len() == cs.len() + (cs.len() - 1) / 5,
        cs.len() == 0 ==> grouped(cs).len() == 0,
        forall|i: int|
            0 <= i < grouped(cs).len() ==> #[trigger] grouped(cs)[i] == if i % 6 == 5 {
                '-'
            } else {
                cs[i - i / 6]
            },
    decreases cs.len(),
{
    if cs.len() > 0 {
        let p = cs.drop_last();
        lemma_grouped(p);
        let m = cs.len() - 1;
        let gp = grouped(p);
        let g = grouped(cs);
        let l = gp.len();
        assert forall|j: int| 0 <= j < m implies #[trigger] p[j] == cs[j] by {}
        if m > 0 && m % 5 == 0 {
            let k = m / 5;
            assert(m == 5 * k && k >= 1) by (nonlinear_arith)
                requires
                    m > 0,
                    m % 5 == 0,
                    k == m / 5,
            ;
            assert(l == 6 * k - 1) by (nonlinear_arith)
                requires
                    l == m + (m - 1) / 5,
                    m == 5 * k,
                    k >= 1,
            ;
            assert(g.len() == cs.len() + (cs.len() - 1) / 5) by (nonlinear_arith)
                requires
                    g.len() == l + 2,
                    l == 6 * k - 1,
                    cs.len() == 5 * k + 1,
            ;
            assert(l % 6 == 5 && (l + 1) % 6 == 0 && (l + 1) - (l + 1) / 6 == m) by (nonlinear_arith)
                requires
                    l == 6 * k - 1,
                    m == 5 * k,
            ;
            assert forall|i: int| 0 <= i < g.len() implies #[trigger] g[i] == if i % 6 == 5 {
                '-'
            } else {
                cs[i - i / 6]
            } by {
                if i < l {
                    assert(g[i] == gp[i]);
                    lemma_index_step(i, k);
                    if i % 6 != 5 {
                        assert(0 <= i - i / 6) by (nonlinear_arith)
                            requires
                                0 <= i,
                        ;
                    }
                }
            }
        } else {
            if m == 0 {
                assert(l == 0);
                assert(g.len() == 1);
            } else {
                let k = m / 5;
                let r = m % 5;
                assert(m == 5 * k + r && 1 <= r <= 4) by (nonlinear_arith)
                    requires
                        m > 0,
                        m % 5 != 0,
                        k == m / 5,
                        r == m % 5,
                ;
                assert(l == 6 * k + r) by (nonlinear_arith)
                    requires
                        l == m + (m - 1) / 5,
                        m == 5 * k + r,
                        1 <= r <= 4,
                        k >= 0,
                ;
                assert(g.len() == cs.len() + (cs.len() - 1) / 5) by (nonlinear_arith)
                    requires
                        g.len() == l + 1,
                        l == 6 * k + r,
                        cs.len() == 5 * k + r + 1,
                        1 <= r <= 4,
                        k >= 0,
                ;
                assert(l % 6 != 5 && l - l / 6 == m) by (nonlinear_arith)
                    requires
                        l == 6 * k + r,
                        m == 5 * k + r,
                        1 <= r <= 4,
                        k >= 0,
                ;
                assert forall|i: int| 0 <= i < g.len() implies #[trigger] g[i] == if i % 6 == 5 {
                    '-'
                } else {
                    cs[i - i / 6]
                } by {
                    if i < l {
                        assert(g[i] == gp[i]);
                        if i % 6 != 5 {
                            assert(0 <= i - i / 6 < m) by (nonlinear_arith)
                                requires
                                    0 <= i < l,
                                    l == 6 * k + r,
                                    m == 5 * k + r,
                                    1 <= r <= 4,
                                    k >= 0,
                                    i % 6 != 5,
                            ;
                        }
                    }
                }
            }
        }
    }
}

/// A new password has 23 characters: four groups of five characters from
/// the alphabet, joined by `-`.
pub proof fn lemma_password_shape(cs: Seq<char>)
    requires
        cs.len() == 20,
        forall|i: int| 0 <= i < 20 ==> alphabet().contains(#[trigger] cs[i]),
    ensures
        grouped(cs).len() == 23,
        grouped(cs)[5] == '-' && grouped(cs)[11] == '-' && grouped(cs)[17] == '-',
        forall|i: int|
            0 <= i < 23 && i != 5 && i != 11 && i != 17 ==> alphabet().contains(#[trigger] grouped(cs)[i]),
{
    lemma_grouped(cs);
    assert forall|i: int|
        0 <= i < 23 && i != 5 && i != 11 && i != 17 implies alphabet().contains(#[trigger] grouped(cs)[i]) by {
        assert(i % 6 != 5 && 0 <= i - i / 6 < 20) by (nonlinear_arith)
            requires
                0 <= i < 23,
                i != 5,
                i != 11,
                i != 17,
        ;
        assert(grouped(cs)[i] == cs[i - i / 6]);
    }
}

/// The SHA-256 digest of some bytes, as `sha2` computes it.
pub uninterp spec fn sha256(data: Seq<u8>) -> Seq<u8>;

/// `sha2::Sha256::digest`. Stated: the 32 bytes are the named digest of
/// the input.
#[verifier::external_body]
pub(crate) fn sha256_of(data: &[u8]) -> (r: [u8; 32])
    ensures
        r@ == sha256(data@),
{
    sha2::Sha256::digest(data).into()
}

/// The SHA-256 digest of a text's UTF-8 bytes.
pub fn digest(s: &str) -> (r: [u8; 32])
    ensures
        r@ == sha256(encode_utf8(s@)),
{
    let b = s.as_bytes();
    sha256_of(b)
}

/// Compares in constant time; hashing first hides the length too.
pub fn same_secret(a: &str, b: &str) -> (r: bool)
    ensures
        r == (sha256(encode_utf8(a@)) == sha256(encode_utf8(b@))),
{
    let x = digest(a);
    let y = digest(b);
    let mut acc: u8 = 0;
    let mut i: usize = 0;
    while i < 32
        invariant
            i <= 32,
            x@.len() == 32,
            y@.len() == 32,
            (acc == 0) == (forall|k: int| 0 <= k < i ==> x@[k] == y@[k]),
        decreases 32 - i,
    {
        let a = x[i];
        let b = y[i];
        let next = acc | (a ^ b);
        assert((next == 0) == (acc == 0 && a == b)) by (bit_vector)
            requires
                next == acc | (a ^ b),
        ;
        acc = next;
        i += 1;
    }
    assert((acc == 0) == (x@ =~= y@));
    acc == 0
}

/// A secret always matches itself.
pub proof fn lemma_secret_matches_itself(a: Seq<char>)
    ensures
        sha256(encode_utf8(a)) == sha256(encode_utf8(a)),
{
}

pub open spec fn hex_digit(n: int) -> char {
    if n < 10 {
        ((n + 48) as u32) as char
    } else {
        ((n + 87) as u32) as char
    }
}

/// Bytes as lower-case hex, two digits each.
pub open spec fn hex_text(b: Seq<u8>) -> Seq<char>
    decreases b.len(),
{
    if b.len() == 0 {
        seq![]
    } else {
        hex_text(b.drop_last()) + seq![hex_digit((b.last() / 16) as int), hex_digit((b.last() % 16) as int)]
    }
}

fn hex_char(n: u8) -> (c: char)
    requires
        n < 16,
    ensures
        c == hex_digit(n as int),
{
    let a = chars_of("0123456789abcdef");
    proof {
        reveal_strlit("0123456789abcdef");
    }
    a[n as usize]
}

/// Bytes as lower-case hex, two digits each (`{:02x}`).
pub fn hex(bytes: &[u8]) -> (r: String)
    ensures
        r@ == hex_text(bytes@),
{
    let mut s = String::new();
    let mut i: usize = 0;
    while i < bytes.len()
        invariant
            i <= bytes@.len(),
            s@ == hex_text(bytes@.take(i as int)),
        decreases bytes@.len() - i,
    {
        let b = bytes[i];
        push_char(&mut s, hex_char(b / 16));
        push_char(&mut s, hex_char(b % 16));
        proof {
            assert(bytes@.take(i + 1).drop_last() =~= bytes@.take(i as int));
            assert(bytes@.take(i + 1).last() == b);
        }
        i += 1;
    }
    assert(bytes@.take(bytes@.len() as int) == bytes@);
    s
}

/// The password that applies: a given one wins, then none on loopback,
/// then the stored one; `None` for the last means a new one is needed.
pub open spec fn chosen_password(given: Option<Seq<char>>, loopback: bool, stored: Option<Seq<char>>) -> Option<Option<(Seq<char>, Origin)>> {
    if given matches Some(p) && p.len() > 0 {
        Some(Some((given.unwrap(), Origin::Given)))
    } else if loopback {
        Some(None)
    } else if stored matches Some(p) && p.len() > 0 {
        Some(Some((stored.unwrap(), Origin::Stored)))
    } else {
        None
    }
}

/// Picks the password: given > stored > new. `None` means no login, which
/// is only allowed when nobody else can reach the server. `stored` is what
/// `web.toml` holds; a new password comes back as `Generated` and is to be
/// written there.
pub fn resolve(given: Option<String>, loopback: bool, stored: Option<String>) -> (r: Option<(String, Origin)>)
    ensures
        match chosen_password(crate::jobs::opt_text(given), loopback, crate::jobs::opt_text(stored)) {
            Some(None) => r is None,
            Some(Some((p, o))) => r matches Some((q, x)) && q@ == p && x == o,
            None => r matches Some((q, x)) && x == Origin::Generated && exists|cs: Seq<char>|
                cs.len() == 20 && (forall|i: int| 0 <= i < 20 ==> alphabet().contains(#[trigger] cs[i]))
                    && q@ == #[trigger] grouped(cs),
        },
{
    if let Some(p) = given {
        if !p.as_str().is_empty() {
            return Some((p, Origin::Given));
        }
    }
    if loopback {
        return None;
    }
    if let Some(p) = stored {
        if !p.as_str().is_empty() {
            return Some((p, Origin::Stored));
        }
    }
    Some((generate(), Origin::Generated))
}

pub open spec fn cookie_text(token: Seq<char>, secure: bool) -> Seq<char> {
    "omnidl_session="@ + token + "; Path=/; Max-Age="@ + decimal((SESSION_DAYS * 86400) as nat)
        + "; HttpOnly; SameSite=Strict"@ + if secure {
        "; Secure"@
    } else {
        ""@
    }
}

/// `Set-Cookie` for a new session; `secure` asks for HTTPS only.
pub fn cookie(token: &str, secure: bool) -> (r: String)
    ensures
        r@ == cookie_text(token@, secure),
{
    let mut s = String::from_str("omnidl_session=");
    push_str(&mut s, token);
    push_str(&mut s, "; Path=/; Max-Age=");
    crate::text::push_decimal(&mut s, SESSION_DAYS * 86_400);
    push_str(&mut s, "; HttpOnly; SameSite=Strict");
    if secure {
        push_str(&mut s, "; Secure");
    } else {
        proof {
            reveal_strlit("");
        }
        assert(s@ + ""@ =~= s@);
    }
    s
}

/// `Set-Cookie` that ends the session.
pub fn clear_cookie() -> (r: String)
    ensures
        r@ == "omnidl_session=; Path=/; Max-Age=0; HttpOnly; SameSite=Strict"@,
{
    String::from_str("omnidl_session=; Path=/; Max-Age=0; HttpOnly; SameSite=Strict")
}

/// The session token among the pairs of one `Cookie` header.
pub open spec fn token_in(pairs: Seq<Seq<char>>) -> Option<Seq<char>>
    decreases pairs.len(),
{
    if pairs.len() == 0 {
        None
    } else {
        match split_once(trim_spaces(pairs[0]), seq!['=']) {
            Some((n, v)) => if n == "omnidl_session"@ {
                Some(v)
            } else {
                token_in(pairs.drop_first())
            },
            None => token_in(pairs.drop_first()),
        }
    }
}

/// The session token over all `Cookie` headers, in order.
pub open spec fn token_of(values: Seq<Seq<char>>) -> Option<Seq<char>>
    decreases values.len(),
{
    if values.len() == 0 {
        None
    } else {
        match token_in(crate::text::split_on(values[0], ';')) {
            Some(v) => Some(v),
            None => token_of(values.drop_first()),
        }
    }
}

fn token_among(pairs: &Vec<Vec<char>>) -> (r: Option<Vec<char>>)
    ensures
        match token_in(views(pairs@)) {
            Some(v) => r matches Some(x) && x@ == v,
            None => r is None,
        },
{
    let eq: [char; 1] = ['='];
    assert(eq@ == seq!['=']);
    let mut i: usize = 0;
    assert(views(pairs@).skip(0) == views(pairs@));
    while i < pairs.len()
        invariant
            i <= pairs@.len(),
            eq@ == seq!['='],
            token_in(views(pairs@)) == token_in(views(pairs@).skip(i as int)),
        decreases pairs@.len() - i,
    {
        assert(views(pairs@).skip(i as int)[0] == pairs@[i as int]@);
        assert(views(pairs@).skip(i as int).drop_first() =~= views(pairs@).skip(i + 1));
        let t = trim_chars(pairs[i].as_slice());
        if let Some((n, v)) = split_first(t.as_slice(), eq.as_slice()) {
            if same_chars(n.as_slice(), "omnidl_session") {
                return Some(v);
            }
        }
        i += 1;
    }
    None
}

/// The session token a request carries in its `Cookie` headers (`values`),
/// if it is not empty.
pub fn session_cookie(values: &[String]) -> (r: Option<String>)
    ensures
        crate::jobs::opt_text(r) == match token_of(string_views(values@)) {
            Some(v) => if v.len() > 0 {
                Some(v)
            } else {
                None
            },
            None => None,
        },
{
    let mut i: usize = 0;
    assert(string_views(values@).skip(0) == string_views(values@));
    while i < values.len()
        invariant
            i <= values@.len(),
            token_of(string_views(values@)) == token_of(string_views(values@).skip(i as int)),
        decreases values@.len() - i,
    {
        assert(string_views(values@).skip(i as int)[0] == values@[i as int]@);
        assert(string_views(values@).skip(i as int).drop_first() =~= string_views(values@).skip(i + 1));
        let v = chars_of(values[i].as_str());
        let pairs = split_char(v.as_slice(), ';');
        if let Some(t) = token_among(&pairs) {
            if t.len() == 0 {
                return None;
            }
            return Some(string_of(t.as_slice()));
        }
        i += 1;
    }
    None
}

// ---------------------------------------------------------------- sessions

/// How many logins are kept at once; a new one beyond that pushes out the
/// oldest.
pub const MAX_SESSIONS: usize = 256;

/// How long a login lasts, in seconds.
pub const SESSION_SECS: u64 = SESSION_DAYS * 86_400;

/// A login as the store keeps it: the SHA-256 digest of its token and the
/// second it expires.
pub type SessionView = (Seq<u8>, u64);

/// The logins that have not expired at `now`, in order.
pub open spec fn unexpired(s: Seq<SessionView>, now: u64) -> Seq<SessionView>
    decreases s.len(),
{
    if s.len() == 0 {
        seq![]
    } else if s.last().1 > now {
        unexpired(s.drop_last(), now).push(s.last())
    } else {
        unexpired(s.drop_last(), now)
    }
}

/// The logins of other tokens than `key`.
pub open spec fn without_key(s: Seq<SessionView>, key: Seq<u8>) -> Seq<SessionView>
    decreases s.len(),
{
    if s.len() == 0 {
        seq![]
    } else if s.last().0 != key {
        without_key(s.drop_last(), key).push(s.last())
    } else {
        without_key(s.drop_last(), key)
    }
}

/// A login of `key` that is still valid at `now`.
pub open spec fn live_in(s: Seq<SessionView>, key: Seq<u8>, now: u64) -> bool {
    exists|i: int| 0 <= i < s.len() && #[trigger] s[i].0 == key && s[i].1 > now
}

/// `kept` is `live` after making room: when the store is full, one login
/// that expires first is dropped (which one among equals is open).
pub open spec fn makes_room(live: Seq<SessionView>, kept: Seq<SessionView>) -> bool {
    if live.len() >= MAX_SESSIONS {
        exists|j: int|
            0 <= j < live.len() && (forall|k: int| 0 <= k < live.len() ==> live[j].1 <= #[trigger] live[k].1)
                && kept == live.remove(j)
    } else {
        kept == live
    }
}

/// The store after a login of `key` at `now`: expired logins are gone, room
/// is made, and `key` is valid until `now + SESSION_SECS`.
pub open spec fn opened(kept: Seq<SessionView>, key: Seq<u8>, now: u64) -> Seq<SessionView> {
    without_key(kept, key).push((key, (now + SESSION_SECS) as u64))
}

/// Live logins. Only digests of the tokens are kept, so the store reveals
/// no token.
pub struct Sessions {
    list: Vec<([u8; 32], u64)>,
}

pub open spec fn session_views(v: Seq<([u8; 32], u64)>) -> Seq<SessionView> {
    v.map_values(|e: ([u8; 32], u64)| (e.0@, e.1))
}

impl View for Sessions {
    type V = Seq<SessionView>;

    closed spec fn view(&self) -> Seq<SessionView> {
        session_views(self.list@)
    }
}

fn same_key(a: &[u8; 32], b: &[u8; 32]) -> (r: bool)
    ensures
        r == (a@ == b@),
{
    let mut i: usize = 0;
    while i < 32
        invariant
            i <= 32,
            a@.len() == 32,
            b@.len() == 32,
            forall|k: int| 0 <= k < i ==> a@[k] == b@[k],
        decreases 32 - i,
    {
        if a[i] != b[i] {
            return false;
        }
        i += 1;
    }
    assert(a@ =~= b@);
    true
}

impl Sessions {
    /// At most `MAX_SESSIONS` logins are kept.
    pub open spec fn wf(&self) -> bool {
        self@.len() <= MAX_SESSIONS
    }

    pub fn new() -> (r: Sessions)
        ensures
            r.wf(),
            r@ == Seq::<SessionView>::empty(),
    {
        let r = Sessions { list: Vec::new() };
        assert(r@ =~= Seq::<SessionView>::empty());
        r
    }

    /// A login of `key` is valid at `now`.
    pub fn allows(&self, key: &[u8; 32], now: u64) -> (r: bool)
        ensures
            r == live_in(self@, key@, now),
    {
        let n: usize = self.list.len();
        let mut i: usize = 0;
        while i < n
            invariant
                i <= n == self.list@.len(),
                self@ == session_views(self.list@),
                forall|k: int| 0 <= k < i ==> !(#[trigger] self@[k].0 == key@ && self@[k].1 > now),
            decreases n - i,
        {
            let (k, e) = self.list[i];
            assert(self@[i as int] == (k@, e));
            if e > now && same_key(&k, key) {
                assert(0 <= i < self@.len() && self@[i as int].0 == key@ && self@[i as int].1 > now);
                return true;
            }
            i += 1;
        }
        false
    }

    /// Ends the logins of `key`.
    pub fn forget(&mut self, key: &[u8; 32])
        requires
            old(self).wf(),
        ensures
            final(self).wf(),
            final(self)@ == without_key(old(self)@, key@),
    {
        let n: usize = self.list.len();
        let mut out: Vec<([u8; 32], u64)> = Vec::new();
        let mut i: usize = 0;
        assert(session_views(self.list@).take(0) =~= seq![]);
        while i < n
            invariant
                i <= n == self.list@.len(),
                out@.len() <= i,
                session_views(out@) == without_key(session_views(self.list@).take(i as int), key@),
            decreases n - i,
        {
            let e = self.list[i];
            assert(session_views(self.list@).take(i + 1).drop_last() =~= session_views(self.list@).take(i as int));
            if !same_key(&e.0, key) {
                let ghost before = session_views(out@);
                out.push(e);
                assert(session_views(out@) =~= before.push((e.0@, e.1)));
            }
            i += 1;
        }
        assert(session_views(self.list@).take(n as int) =~= session_views(self.list@));
        self.list = out;
    }

    /// Records a login of `key` at `now`, valid for `SESSION_SECS`.
    pub fn open(&mut self, key: &[u8; 32], now: u64)
        requires
            old(self).wf(),
            now + SESSION_SECS <= u64::MAX,
        ensures
            final(self).wf(),
            exists|kept: Seq<SessionView>|
                #[trigger] makes_room(unexpired(old(self)@, now), kept) && final(self)@ == opened(kept, key@, now),
    {
        let n: usize = self.list.len();
        let ghost old_view = self@;
        // the logins still valid
        let mut live: Vec<([u8; 32], u64)> = Vec::new();
        let mut i: usize = 0;
        assert(session_views(self.list@).take(0) =~= seq![]);
        while i < n
            invariant
                i <= n == self.list@.len(),
                old_view == session_views(self.list@),
                live@.len() <= i,
                session_views(live@) == unexpired(session_views(self.list@).take(i as int), now),
            decreases n - i,
        {
            let e = self.list[i];
            assert(session_views(self.list@).take(i + 1).drop_last() =~= session_views(self.list@).take(i as int));
            if e.1 > now {
                let ghost before = session_views(live@);
                live.push(e);
                assert(session_views(live@) =~= before.push((e.0@, e.1)));
            }
            i += 1;
        }
        assert(session_views(self.list@).take(n as int) =~= old_view);
        let ghost live_view = session_views(live@);
        // room for one more
        if live.len() >= MAX_SESSIONS {
            let m: usize = live.len();
            let mut j: usize = 0;
            let mut k: usize = 1;
            while k < m
                invariant
                    1 <= k <= m == live@.len(),
                    j < m,
                    forall|x: int| 0 <= x < k ==> live@[j as int].1 <= #[trigger] live@[x].1,
                decreases m - k,
            {
                if live[k].1 < live[j].1 {
                    j = k;
                }
                k += 1;
            }
            live.remove(j);
            assert(session_views(live@) =~= live_view.remove(j as int));
            assert(forall|x: int| 0 <= x < live_view.len() ==> live_view[j as int].1 <= #[trigger] live_view[x].1);
        }
        let ghost kept = session_views(live@);
        assert(makes_room(live_view, kept));
        // the new login replaces any of the same token
        let m: usize = live.len();
        let mut out: Vec<([u8; 32], u64)> = Vec::new();
        let mut x: usize = 0;
        assert(kept.take(0) =~= seq![]);
        while x < m
            invariant
                x <= m == live@.len(),
                m <= MAX_SESSIONS - 1,
                kept == session_views(live@),
                out@.len() <= x,
                session_views(out@) == without_key(kept.take(x as int), key@),
            decreases m - x,
        {
            let e = live[x];
            assert(kept.take(x + 1).drop_last() =~= kept.take(x as int));
            if !same_key(&e.0, key) {
                let ghost before = session_views(out@);
                out.push(e);
                assert(session_views(out@) =~= before.push((e.0@, e.1)));
            }
            x += 1;
        }
        assert(kept.take(m as int) =~= kept);
        let ghost before = session_views(out@);
        out.push((*key, now + SESSION_SECS));
        assert(session_views(out@) =~= before.push((key@, (now + SESSION_SECS) as u64)));
        self.list = out;
        assert(makes_room(unexpired(old_view, now), kept) && self@ == opened(kept, key@, now));
    }
}

/// After a login of `key` at `now`, `key` is let in at every second before
/// the login expires, whatever other logins the store held.
pub proof fn lemma_login_lets_in(kept: Seq<SessionView>, key: Seq<u8>, now: u64, t: u64)
    requires
        now + SESSION_SECS <= u64::MAX,
        t < now + SESSION_SECS,
    ensures
        live_in(opened(kept, key, now), key, t),
{
    let s = opened(kept, key, now);
    assert(s[s.len() - 1].0 == key);
}

/// Once the logins of `key` are forgotten, `key` is let in at no time.
pub proof fn lemma_logout_locks_out(s: Seq<SessionView>, key: Seq<u8>, t: u64)
    ensures
        !live_in(without_key(s, key), key, t),
    decreases s.len(),
{
    if s.len() > 0 {
        lemma_logout_locks_out(s.drop_last(), key, t);
        let r = without_key(s.drop_last(), key);
        if s.last().0 != key {
            assert forall|i: int| 0 <= i < r.len() + 1 implies !(#[trigger] r.push(s.last())[i].0 == key
                && r.push(s.last())[i].1 > t) by {
                if i < r.len() {
                    assert(r.push(s.last())[i] == r[i]);
                }
            }
        }
    }
}

/// A login of another token neither gives nor takes away `key`'s access:
/// the store after opening `other` lets `key` in exactly when the logins
/// kept from before do.
pub proof fn lemma_other_logins_keep_access(kept: Seq<SessionView>, key: Seq<u8>, other: Seq<u8>, now: u64, t: u64)
    requires
        key != other,
    ensures
        live_in(opened(kept, other, now), key, t) == live_in(kept, key, t),
{
    lemma_without_other_key(kept, key, other, t);
    let r = without_key(kept, other);
    let s = opened(kept, other, now);
    if live_in(s, key, t) {
        let i = choose|i: int| 0 <= i < s.len() && #[trigger] s[i].0 == key && s[i].1 > t;
        assert(i < r.len());
        assert(r[i] == s[i]);
    }
    if live_in(r, key, t) {
        let i = choose|i: int| 0 <= i < r.len() && #[trigger] r[i].0 == key && r[i].1 > t;
        assert(s[i] == r[i]);
    }
}

proof fn lemma_without_other_key(s: Seq<SessionView>, key: Seq<u8>, other: Seq<u8>, t: u64)
    requires
        key != other,
    ensures
        live_in(without_key(s, other), key, t) == live_in(s, key, t),
    decreases s.len(),
{
    if s.len() > 0 {
        let p = s.drop_last();
        lemma_without_other_key(p, key, other, t);
        let r = without_key(p, other);
        let w = without_key(s, other);
        if live_in(s, key, t) {
            let i = choose|i: int| 0 <= i < s.len() && #[trigger] s[i].0 == key && s[i].1 > t;
            if i < p.len() {
                assert(p[i] == s[i]);
                assert(live_in(p, key, t));
                let k = choose|k: int| 0 <= k < r.len() && #[trigger] r[k].0 == key && r[k].1 > t;
                if s.last().0 != other {
                    assert(w[k] == r[k]);
                } else {
                    assert(w == r);
                }
            } else {
                assert(s.last().0 == key);
                assert(w == r.push(s.last()));
                assert(w[r.len() as int] == s.last());
            }
        }
        if live_in(w, key, t) {
            let i = choose|i: int| 0 <= i < w.len() && #[trigger] w[i].0 == key && w[i].1 > t;
            if s.last().0 != other {
                assert(w == r.push(s.last()));
                if i < r.len() {
                    assert(w[i] == r[i]);
                    assert(live_in(r, key, t));
                    let k = choose|k: int| 0 <= k < p.len() && #[trigger] p[k].0 == key && p[k].1 > t;
                    assert(s[k] == p[k]);
                } else {
                    assert(s[s.len() - 1] == s.last());
                }
            } else {
                assert(w == r);
                assert(live_in(r, key, t));
                let k = choose|k: int| 0 <= k < p.len() && #[trigger] p[k].0 == key && p[k].1 > t;
                assert(s[k] == p[k]);
            }
        }
    }
}

/// Two hex digits per byte.
pub proof fn lemma_hex_length(b: Seq<u8>)
    ensures
        hex_text(b).len() == 2 * b.len(),
    decreases b.len(),
{
    if b.len() > 0 {
        lemma_hex_length(b.drop_last());
    }
}

/// One byte from the system's random source, drawn again while the source
/// fails; after `u64::MAX` failures in a row it is 0.
fn random_or_zero() -> (r: u8) {
    let mut tries: u64 = 0;
    loop
        invariant
            tries <= u64::MAX,
        decreases u64::MAX - tries,
    {
        if let Some(b) = random_byte() {
            return b;
        }
        if tries == u64::MAX {
            return 0;
        }
        tries += 1;
    }
}

/// A new session token: 32 bytes from the system's random source, as hex.
pub fn new_token() -> (r: String)
    ensures
        exists|b: Seq<u8>| b.len() == 32 && r@ == #[trigger] hex_text(b),
        r@.len() == 64,
{
    let mut bytes: [u8; 32] = [0u8; 32];
    let mut i: usize = 0;
    while i < 32
        invariant
            i <= 32,
            bytes@.len() == 32,
        decreases 32 - i,
    {
        bytes.set(i, random_or_zero());
        i += 1;
    }
    let r = hex(&bytes);
    proof {
        lemma_hex_length(bytes@);
    }
    r
}

/// The password and the logins of the web interface.
pub struct Auth {
    /// `None`: no login needed (only possible on loopback).
    pub password: Option<String>,
    pub sessions: Sessions,
    /// Send the cookie over HTTPS only.
    pub secure: bool,
}

/// The store key of a session token.
pub open spec fn key_of(token: Seq<char>) -> Seq<u8> {
    sha256(encode_utf8(token))
}

impl Auth {
    pub fn new(password: Option<String>, secure: bool) -> (a: Auth)
        ensures
            a.password == password,
            a.secure == secure,
            a.sessions.wf(),
            a.sessions@ == Seq::<SessionView>::empty(),
    {
        Auth { password, sessions: Sessions::new(), secure }
    }

    /// A password is asked for.
    pub fn enabled(&self) -> (b: bool)
        ensures
            b == self.password is Some,
    {
        self.password.is_some()
    }

    /// Checks the password (none set lets everybody in); on success a new
    /// session opens and its token comes back. How failed attempts wait
    /// their turn, and the pause after a wrong one, are the caller's
    /// business, so `Busy` never comes from here.
    pub fn login(&mut self, given: &str, now: u64) -> (r: Login)
        requires
            old(self).sessions.wf(),
            now + SESSION_SECS <= u64::MAX,
        ensures
            final(self).password == old(self).password,
            final(self).secure == old(self).secure,
            final(self).sessions.wf(),
            !(r is Busy),
            r is Accepted <==> (match old(self).password {
                None => true,
                Some(p) => key_of(given@) == key_of(p@),
            }),
            r is Wrong ==> final(self).sessions@ == old(self).sessions@,
            r matches Login::Accepted(t) ==> t@.len() == 64 && exists|kept: Seq<SessionView>|
                #[trigger] makes_room(unexpired(old(self).sessions@, now), kept) && final(self).sessions@ == opened(
                    kept,
                    key_of(t@),
                    now,
                ),
    {
        let ok = match &self.password {
            None => true,
            Some(p) => same_secret(given, p.as_str()),
        };
        if !ok {
            return Login::Wrong;
        }
        let token = new_token();
        let key = digest(token.as_str());
        self.sessions.open(&key, now);
        Login::Accepted(token)
    }

    /// No password, or a session token that is still valid at `now`.
    pub fn allows(&self, token: Option<&str>, now: u64) -> (b: bool)
        ensures
            b == (self.password is None || (token matches Some(t) && live_in(
                self.sessions@,
                key_of(t@),
                now,
            ))),
    {
        if self.password.is_none() {
            return true;
        }
        match token {
            Some(t) => {
                let key = digest(t);
                self.sessions.allows(&key, now)
            },
            None => false,
        }
    }

    /// Ends the session of `token`.
    pub fn logout(&mut self, token: Option<&str>)
        requires
            old(self).sessions.wf(),
        ensures
            final(self).password == old(self).password,
            final(self).secure == old(self).secure,
            final(self).sessions.wf(),
            final(self).sessions@ == match token {
                Some(t) => without_key(old(self).sessions@, key_of(t@)),
                None => old(self).sessions@,
            },
    {
        if let Some(t) = token {
            let key = digest(t);
            self.sessions.forget(&key);
        }
    }

    /// `Set-Cookie` for a new session; `https`: the request came through an
    /// HTTPS proxy.
    pub fn cookie(&self, token: &str, https: bool) -> (r: String)
        ensures
            r@ == cookie_text(token@, self.secure || https),
    {
        cookie(token, self.secure || https)
    }
}

} // verus!
