//! Rules of the self-updater: which release file belongs to which platform,
//! how versions compare, how a checksum file and the head of a program file
//! are read, and the names of the files kept beside the running program.

use crate::text::{
    chars_of, drop_front_in, drop_front_set, in_set, split_char, split_on, split_words,
    string_of, trim_spaces, trimmed, until, until_index, slice_vec, views, words, parse_u64,
    parsed_u64, lemma_split_nonempty, same_str, push_str, push_char, ends_with, finishes_with,
};
use crate::auth::{hex, hex_text, sha256, sha256_of};
use vstd::prelude::*;

verus! {

/// Where releases are published.
pub const REPO: &'static str = "Hattinga/omnidl";

/// Release assets for one platform: the desktop app and `omnidl-cli`, each
/// published with a `<name>.sha256` next to it.
#[derive(Clone, Copy, Debug, PartialEq)]
pub struct AssetNames {
    pub app: &'static str,
    pub cli: &'static str,
}

/// The asset names for `os`/`arch` (`std::env::consts` values), app first.
pub open spec fn platform_assets(os: Seq<char>, arch: Seq<char>) -> Option<(Seq<char>, Seq<char>)> {
    if os == "windows"@ {
        Some(("omnidl.exe"@, "omnidl-cli.exe"@))
    } else if os == "macos"@ {
        Some(("omnidl-macos-universal"@, "omnidl-cli-macos-universal"@))
    } else if os == "linux"@ && arch == "x86_64"@ {
        Some(("omnidl-linux-x86_64"@, "omnidl-cli-linux-x86_64"@))
    } else if os == "linux"@ && arch == "aarch64"@ {
        Some(("omnidl-linux-aarch64"@, "omnidl-cli-linux-aarch64"@))
    } else {
        None
    }
}

/// What a release has to contain for `os`/`arch`. Windows keeps the plain
/// `omnidl.exe`: older clients look for exactly that name.
pub fn asset_names(os: &str, arch: &str) -> (r: Option<AssetNames>)
    ensures
        r is Some <==> platform_assets(os@, arch@) is Some,
        r matches Some(n) ==> platform_assets(os@, arch@) == Some((n.app@, n.cli@)),
{
    let (app, cli) = if same_str(os, "windows") {
        // x64 build; Windows on ARM runs it emulated.
        ("omnidl.exe", "omnidl-cli.exe")
    } else if same_str(os, "macos") {
        // One universal binary for Apple Silicon and Intel.
        ("omnidl-macos-universal", "omnidl-cli-macos-universal")
    } else if same_str(os, "linux") && same_str(arch, "x86_64") {
        ("omnidl-linux-x86_64", "omnidl-cli-linux-x86_64")
    } else if same_str(os, "linux") && same_str(arch, "aarch64") {
        ("omnidl-linux-aarch64", "omnidl-cli-linux-aarch64")
    } else {
        return None;
    };
    Some(AssetNames { app, cli })
}

/// The part of a version tag that holds the numbers: white space and leading
/// `v`s removed, pre-release and build suffixes cut off.
pub open spec fn version_core(s: Seq<char>) -> Seq<char> {
    until(drop_front_in(trim_spaces(s), seq!['v', 'V']), seq!['-', '+'])
}

/// `v0.3.1` → (0, 3, 1); missing minor or patch numbers count as 0, further
/// numbers are ignored.
pub open spec fn parsed_version(s: Seq<char>) -> Option<(u64, u64, u64)> {
    let ps = split_on(version_core(s), '.');
    let major = parsed_u64(ps[0]);
    let minor = if ps.len() > 1 {
        parsed_u64(ps[1])
    } else {
        Some(0u64)
    };
    let patch = if ps.len() > 2 {
        parsed_u64(ps[2])
    } else {
        Some(0u64)
    };
    match (major, minor, patch) {
        (Some(a), Some(b), Some(c)) => Some((a, b, c)),
        _ => None,
    }
}

/// `v0.3.1` → (0, 3, 1). Pre-release suffixes are ignored.
pub fn parse_version(s: &str) -> (r: Option<(u64, u64, u64)>)
    ensures
        r == parsed_version(s@),
{
    let t = trimmed(s);
    let vs: [char; 2] = ['v', 'V'];
    let t2 = drop_front_set(t.as_slice(), vs.as_slice());
    let stops: [char; 2] = ['-', '+'];
    let end = until_index(t2.as_slice(), stops.as_slice());
    let core = slice_vec(t2.as_slice(), 0, end);
    assert(core@ == version_core(s@)) by {
        assert(vs@ == seq!['v', 'V']);
        assert(stops@ == seq!['-', '+']);
    }
    let ps = split_char(core.as_slice(), '.');
    assert(views(ps@)[0] == ps@[0]@);
    let major = match parse_u64(ps[0].as_slice()) {
        Some(n) => n,
        None => return None,
    };
    let minor = if ps.len() > 1 {
        assert(views(ps@)[1] == ps@[1]@);
        match parse_u64(ps[1].as_slice()) {
            Some(n) => n,
            None => return None,
        }
    } else {
        0
    };
    let patch = if ps.len() > 2 {
        assert(views(ps@)[2] == ps@[2]@);
        match parse_u64(ps[2].as_slice()) {
            Some(n) => n,
            None => return None,
        }
    } else {
        0
    };
    Some((major, minor, patch))
}

/// Versions ordered by their numbers, major first.
pub open spec fn version_gt(a: (u64, u64, u64), b: (u64, u64, u64)) -> bool {
    a.0 > b.0 || (a.0 == b.0 && (a.1 > b.1 || (a.1 == b.1 && a.2 > b.2)))
}

pub open spec fn newer(candidate: Seq<char>, current: Seq<char>) -> bool {
    match (parsed_version(candidate), parsed_version(current)) {
        (Some(a), Some(b)) => version_gt(a, b),
        _ => false,
    }
}

/// Whether `candidate` names a later version than `current`; a tag that is
/// no version is never newer.
pub fn is_newer(candidate: &str, current: &str) -> (r: bool)
    ensures
        r == newer(candidate@, current@),
{
    match (parse_version(candidate), parse_version(current)) {
        (Some(a), Some(b)) => a.0 > b.0 || (a.0 == b.0 && (a.1 > b.1 || (a.1 == b.1 && a.2 > b.2))),
        _ => false,
    }
}

/// No version is newer than itself, and of two versions at most one is newer.
pub proof fn lemma_newer_is_strict(a: Seq<char>, b: Seq<char>)
    ensures
        !newer(a, a),
        !(newer(a, b) && newer(b, a)),
{
}

/// Newer is transitive.
pub proof fn lemma_newer_transitive(a: Seq<char>, b: Seq<char>, c: Seq<char>)
    requires
        newer(a, b),
        newer(b, c),
    ensures
        newer(a, c),
{
}

/// Versions compare by major number first, then minor, then patch: a
/// higher major number is newer whatever follows, a lower one never is.
pub proof fn lemma_newer_by_parts(a: Seq<char>, b: Seq<char>)
    requires
        parsed_version(a) is Some,
        parsed_version(b) is Some,
    ensures
        ({
            let x = parsed_version(a).unwrap();
            let y = parsed_version(b).unwrap();
            &&& x.0 > y.0 ==> newer(a, b)
            &&& x.0 < y.0 ==> !newer(a, b)
            &&& x.0 == y.0 && x.1 > y.1 ==> newer(a, b)
            &&& x.0 == y.0 && x.1 < y.1 ==> !newer(a, b)
            &&& x.0 == y.0 && x.1 == y.1 ==> (newer(a, b) <==> x.2 > y.2)
        }),
{
}

/// Why the updater may not replace a program.
#[derive(Clone, Debug, PartialEq, Eq)]
pub enum Refusal {
    /// The terminal program updates together with the app only.
    Cli,
    /// The program's folder is not known.
    NoFolder,
    /// The folder (given) cannot be written.
    ReadOnly(String),
}

impl Refusal {
    /// The message shown to the user.
    pub fn message(&self) -> (r: String)
        ensures
            match self {
                Refusal::Cli => r@ == "omnidl-cli aktualisiert sich nicht selbst, sondern zusammen mit der App, über den Paketmanager oder Docker."@,
                Refusal::NoFolder => r@ == "Programmordner unbekannt"@,
                Refusal::ReadOnly(d) => r@ == "omnidl darf "@ + d@ + " nicht ändern. Bitte über den Paketmanager aktualisieren oder die neue Version von github.com/Hattinga/omnidl laden."@,
            },
    {
        match self {
            Refusal::Cli => String::from_str(
                "omnidl-cli aktualisiert sich nicht selbst, sondern zusammen mit der App, über den Paketmanager oder Docker.",
            ),
            Refusal::NoFolder => String::from_str("Programmordner unbekannt"),
            Refusal::ReadOnly(d) => {
                let mut s = String::from_str("omnidl darf ");
                push_str(&mut s, d.as_str());
                push_str(
                    &mut s,
                    " nicht ändern. Bitte über den Paketmanager aktualisieren oder die neue Version von github.com/Hattinga/omnidl laden.",
                );
                s
            },
        }
    }
}

/// Whether the updater may swap a program: it must be the desktop app, in a
/// folder this user can write to. `stem` is the program file's name without
/// extension, `dir` its folder, and `writable` whether a file could be
/// created in that folder.
pub fn can_replace(stem: Option<&str>, dir: Option<&str>, writable: bool) -> (r: Result<(), Refusal>)
    ensures
        stem matches Some(s) && s@ == "omnidl-cli"@ ==> r == Err::<(), Refusal>(Refusal::Cli),
        !(stem matches Some(s) && s@ == "omnidl-cli"@) ==> match dir {
            None => r == Err::<(), Refusal>(Refusal::NoFolder),
            Some(d) => if writable {
                r is Ok
            } else {
                r matches Err(Refusal::ReadOnly(x)) && x@ == d@
            },
        },
{
    if let Some(s) = stem {
        if same_str(s, "omnidl-cli") {
            return Err(Refusal::Cli);
        }
    }
    match dir {
        None => Err(Refusal::NoFolder),
        Some(d) => {
            if writable {
                Ok(())
            } else {
                Err(Refusal::ReadOnly(String::from_str(d)))
            }
        },
    }
}

pub open spec fn is_hex(c: char) -> bool {
    ('0' <= c <= '9') || ('a' <= c <= 'f') || ('A' <= c <= 'F')
}

pub open spec fn hex_word(w: Seq<char>) -> bool {
    w.len() == 64 && forall|i: int| 0 <= i < w.len() ==> is_hex(#[trigger] w[i])
}

/// The first word that, without leading `*`, is 64 hex digits.
pub open spec fn first_hex_word(ws: Seq<Seq<char>>) -> Option<Seq<char>>
    decreases ws.len(),
{
    if ws.len() == 0 {
        None
    } else if hex_word(drop_front_in(ws[0], seq!['*'])) {
        Some(drop_front_in(ws[0], seq!['*']))
    } else {
        first_hex_word(ws.drop_first())
    }
}

pub open spec fn lower_hex(c: char) -> char {
    if 'A' <= c <= 'F' {
        ((c as u32) + 32) as char
    } else {
        c
    }
}

pub open spec fn checksum_of(text: Seq<char>) -> Option<Seq<char>> {
    match first_hex_word(words(text)) {
        Some(w) => Some(w.map_values(|c: char| lower_hex(c))),
        None => None,
    }
}

fn hex_char(c: char) -> (b: bool)
    ensures
        b == is_hex(c),
{
    ('0' <= c && c <= '9') || ('a' <= c && c <= 'f') || ('A' <= c && c <= 'F')
}

fn is_hex_word(w: &[char]) -> (b: bool)
    ensures
        b == hex_word(w@),
{
    if w.len() != 64 {
        return false;
    }
    let mut i: usize = 0;
    while i < w.len()
        invariant
            i <= w@.len(),
            forall|k: int| 0 <= k < i ==> is_hex(#[trigger] w@[k]),
        decreases w@.len() - i,
    {
        if !hex_char(w[i]) {
            return false;
        }
        i += 1;
    }
    true
}

/// `sha256sum` style: the first 64-digit hex word, in lower case.
pub fn parse_checksum(text: &str) -> (r: Option<String>)
    ensures
        match checksum_of(text@) {
            Some(w) => r matches Some(s) && s@ == w,
            None => r is None,
        },
{
    let ws = split_words(text);
    let star: [char; 1] = ['*'];
    assert(star@ == seq!['*']);
    assert(views(ws@).skip(0) == views(ws@));
    let mut i: usize = 0;
    while i < ws.len()
        invariant
            i <= ws@.len(),
            star@ == seq!['*'],
            views(ws@) == words(text@),
            first_hex_word(words(text@)) == first_hex_word(views(ws@).skip(i as int)),
        decreases ws@.len() - i,
    {
        let w = drop_front_set(ws[i].as_slice(), star.as_slice());
        assert(views(ws@).skip(i as int)[0] == ws@[i as int]@);
        if is_hex_word(w.as_slice()) {
            let mut out = String::new();
            let mut k: usize = 0;
            while k < w.len()
                invariant
                    k <= w@.len(),
                    out@ == w@.take(k as int).map_values(|c: char| lower_hex(c)),
                decreases w@.len() - k,
            {
                let c = w[k];
                let l = if 'A' <= c && c <= 'F' {
                    crate::text::ascii_lower(c)
                } else {
                    c
                };
                push_char(&mut out, l);
                k += 1;
                assert(w@.take(k as int).map_values(|c: char| lower_hex(c)) =~= w@.take(k - 1).map_values(
                    |c: char| lower_hex(c),
                ).push(lower_hex(c)));
            }
            assert(w@.take(w@.len() as int) == w@);
            return Some(out);
        }
        assert(views(ws@).skip(i as int).drop_first() == views(ws@).skip(i + 1));
        i += 1;
    }
    None
}

pub open spec fn mach_o_magic(h: Seq<u8>) -> bool {
    h.len() >= 4 && ((h[0] == 0xcf && h[1] == 0xfa && h[2] == 0xed && h[3] == 0xfe)
        || (h[0] == 0xce && h[1] == 0xfa && h[2] == 0xed && h[3] == 0xfe)
        || (h[0] == 0xfe && h[1] == 0xed && h[2] == 0xfa && h[3] == 0xcf)
        || (h[0] == 0xfe && h[1] == 0xed && h[2] == 0xfa && h[3] == 0xce)
        || (h[0] == 0xca && h[1] == 0xfe && h[2] == 0xba && h[3] == 0xbe)
        || (h[0] == 0xca && h[1] == 0xfe && h[2] == 0xba && h[3] == 0xbf))
}

/// `e_machine` of an ELF header, in the byte order the header states.
pub open spec fn elf_machine(h: Seq<u8>) -> Option<int> {
    if h[5] == 1 {
        Some(h[18] + h[19] * 256)
    } else if h[5] == 2 {
        Some(h[18] * 256 + h[19])
    } else {
        None
    }
}

pub open spec fn native_program(h: Seq<u8>, os: Seq<char>, arch: Seq<char>) -> bool {
    if os == "windows"@ {
        h.len() >= 2 && h[0] == 0x4d && h[1] == 0x5a
    } else if os == "macos"@ {
        mach_o_magic(h)
    } else if !(h.len() >= 20 && h[0] == 0x7f && h[1] == 0x45 && h[2] == 0x4c && h[3] == 0x46) {
        false
    } else {
        match elf_machine(h) {
            None => false,
            Some(m) => if arch == "x86_64"@ {
                m == 62
            } else if arch == "aarch64"@ {
                m == 183
            } else {
                true
            },
        }
    }
}

/// Whether `head` (the first bytes of a file) starts a program that runs on
/// `os`/`arch`: PE on Windows, Mach-O (thin or universal) on macOS, ELF for
/// the right processor elsewhere. Catches HTML error pages and wrong
/// downloads that happen to match their checksum file.
pub fn is_native_executable(head: &[u8], os: &str, arch: &str) -> (r: bool)
    ensures
        r == native_program(head@, os@, arch@),
{
    if same_str(os, "windows") {
        head.len() >= 2 && head[0] == 0x4d && head[1] == 0x5a
    } else if same_str(os, "macos") {
        head.len() >= 4 && ((head[0] == 0xcf && head[1] == 0xfa && head[2] == 0xed && head[3]
            == 0xfe) || (head[0] == 0xce && head[1] == 0xfa && head[2] == 0xed && head[3] == 0xfe)
            || (head[0] == 0xfe && head[1] == 0xed && head[2] == 0xfa && head[3] == 0xcf) || (
        head[0] == 0xfe && head[1] == 0xed && head[2] == 0xfa && head[3] == 0xce) || (head[0]
            == 0xca && head[1] == 0xfe && head[2] == 0xba && head[3] == 0xbe) || (head[0] == 0xca
            && head[1] == 0xfe && head[2] == 0xba && head[3] == 0xbf))
    } else {
        if !(head.len() >= 20 && head[0] == 0x7f && head[1] == 0x45 && head[2] == 0x4c && head[3]
            == 0x46) {
            return false;
        }
        let machine: u32 = if head[5] == 1 {
            head[18] as u32 + head[19] as u32 * 256
        } else if head[5] == 2 {
            head[18] as u32 * 256 + head[19] as u32
        } else {
            return false;
        };
        if same_str(arch, "x86_64") {
            machine == 62
        } else if same_str(arch, "aarch64") {
            machine == 183
        } else {
            true
        }
    }
}

/// `omnidl.exe` → `omnidl.exe.new`, `omnidl` → `omnidl.new`.
pub fn new_path(exe: &str) -> (r: String)
    ensures
        r@ == exe@ + ".new"@,
{
    let mut s = String::from_str(exe);
    push_str(&mut s, ".new");
    s
}

/// `omnidl.exe` → `omnidl.exe.old`: where the replaced program waits.
pub fn old_path(exe: &str) -> (r: String)
    ensures
        r@ == exe@ + ".old"@,
{
    let mut s = String::from_str(exe);
    push_str(&mut s, ".old");
    s
}

pub open spec fn strip_suffix(s: Seq<char>, suffix: Seq<char>) -> Seq<char> {
    if ends_with(s, suffix) {
        s.take(s.len() - suffix.len())
    } else {
        s
    }
}

pub open spec fn original_name(exe: Seq<char>) -> Seq<char> {
    strip_suffix(strip_suffix(exe, " (deleted)"@), ".old"@)
}

fn without_suffix(s: &[char], suffix: &str) -> (r: Vec<char>)
    ensures
        r@ == strip_suffix(s@, suffix@),
{
    let p = chars_of(suffix);
    if finishes_with(s, p.as_slice()) {
        slice_vec(s, 0, s.len() - p.len())
    } else {
        slice_vec(s, 0, s.len())
    }
}

/// Linux reports the running binary under its new name after the swap
/// (`omnidl.old`, or `omnidl.old (deleted)` once the new instance cleaned
/// up); the program to start is the one under its first name.
pub fn original_exe(exe: &str) -> (r: String)
    ensures
        r@ == original_name(exe@),
{
    let v = chars_of(exe);
    let a = without_suffix(v.as_slice(), " (deleted)");
    let b = without_suffix(a.as_slice(), ".old");
    string_of(b.as_slice())
}

/// The name a program is renamed to when replaced leads back to it, also
/// once the system reports the renamed file as deleted.
pub proof fn lemma_old_path_leads_back(exe: Seq<char>)
    ensures
        original_name(exe + ".old"@) == exe,
        original_name(exe + ".old"@ + " (deleted)"@) == exe,
{
    reveal_strlit(".old");
    reveal_strlit(" (deleted)");
    let o = exe + ".old"@;
    assert(!ends_with(o, " (deleted)"@)) by {
        if ends_with(o, " (deleted)"@) {
            let t = o.skip(o.len() - 10);
            assert(t[9] == ')');
            assert(t[9] == o[o.len() - 1]);
            assert(o[o.len() - 1] == 'd');
        }
    }
    assert(o.skip(o.len() - 4) =~= ".old"@);
    assert(o.take(o.len() - 4) =~= exe);
    let d = o + " (deleted)"@;
    assert(d.skip(d.len() - 10) =~= " (deleted)"@);
    assert(d.take(d.len() - 10) =~= o);
}

/// A downloadable file of a release and its checksum file.
#[derive(Clone, Debug, PartialEq)]
pub struct Asset {
    pub url: String,
    pub sha_url: String,
}

/// A release offered for this platform.
#[derive(Clone, Debug, PartialEq)]
pub struct Release {
    pub version: String,
    pub page: String,
    pub app: Asset,
    /// Missing in releases that do not ship `omnidl-cli` for this platform.
    pub cli: Option<Asset>,
}

/// What the release JSON says, field by field: `None` where a field is
/// missing or not text; `assets` holds each asset's name and download link.
pub struct ReleaseInfo {
    pub draft: bool,
    pub prerelease: bool,
    pub tag: Option<String>,
    pub page: Option<String>,
    pub assets: Vec<(Option<String>, Option<String>)>,
}

pub open spec fn asset_texts(v: Seq<(Option<String>, Option<String>)>) -> Seq<(Option<Seq<char>>, Option<Seq<char>>)> {
    v.map_values(|a: (Option<String>, Option<String>)| (crate::jobs::opt_text(a.0), crate::jobs::opt_text(a.1)))
}

/// The link of the first asset named `name` that has one.
pub open spec fn asset_link(assets: Seq<(Option<Seq<char>>, Option<Seq<char>>)>, name: Seq<char>) -> Option<Seq<char>>
    decreases assets.len(),
{
    if assets.len() == 0 {
        None
    } else if assets[0].0 == Some(name) && assets[0].1 is Some {
        assets[0].1
    } else {
        asset_link(assets.drop_first(), name)
    }
}

pub struct AssetView {
    pub url: Seq<char>,
    pub sha_url: Seq<char>,
}

/// A file and its `.sha256`, both needed.
pub open spec fn asset_of(assets: Seq<(Option<Seq<char>>, Option<Seq<char>>)>, name: Seq<char>) -> Option<AssetView> {
    match (asset_link(assets, name), asset_link(assets, name + ".sha256"@)) {
        (Some(u), Some(s)) => Some(AssetView { url: u, sha_url: s }),
        _ => None,
    }
}

pub struct ReleaseView {
    pub version: Seq<char>,
    pub page: Seq<char>,
    pub app: AssetView,
    pub cli: Option<AssetView>,
}

/// Drafts, pre-releases, tags that are no version and releases without the
/// app for this platform and its checksum are not offered.
pub open spec fn release_of(info: ReleaseInfo, app: Seq<char>, cli: Seq<char>) -> Option<ReleaseView> {
    let assets = asset_texts(info.assets@);
    if info.draft || info.prerelease {
        None
    } else {
        match info.tag {
            None => None,
            Some(tag) => if parsed_version(tag@) is None {
                None
            } else {
                match asset_of(assets, app) {
                    None => None,
                    Some(a) => Some(
                        ReleaseView {
                            version: drop_front_in(tag@, seq!['v', 'V']),
                            page: match info.page {
                                Some(p) => p@,
                                None => seq![],
                            },
                            app: a,
                            cli: asset_of(assets, cli),
                        },
                    ),
                }
            },
        }
    }
}

impl Asset {
    pub open spec fn view_of(self) -> AssetView {
        AssetView { url: self.url@, sha_url: self.sha_url@ }
    }
}

impl Release {
    pub open spec fn view_of(self) -> ReleaseView {
        ReleaseView {
            version: self.version@,
            page: self.page@,
            app: self.app.view_of(),
            cli: match self.cli {
                Some(a) => Some(a.view_of()),
                None => None,
            },
        }
    }
}

fn link_of(assets: &Vec<(Option<String>, Option<String>)>, name: &str) -> (r: Option<String>)
    ensures
        crate::jobs::opt_text(r) == asset_link(asset_texts(assets@), name@),
{
    let mut i: usize = 0;
    assert(asset_texts(assets@).skip(0) == asset_texts(assets@));
    while i < assets.len()
        invariant
            i <= assets@.len(),
            asset_link(asset_texts(assets@), name@) == asset_link(asset_texts(assets@).skip(i as int), name@),
        decreases assets@.len() - i,
    {
        assert(asset_texts(assets@).skip(i as int)[0] == (crate::jobs::opt_text(assets@[i as int].0), crate::jobs::opt_text(assets@[i as int].1)));
        assert(asset_texts(assets@).skip(i as int).drop_first() =~= asset_texts(assets@).skip(i + 1));
        let named = match &assets[i].0 {
            Some(n) => same_str(n.as_str(), name),
            None => false,
        };
        if named {
            if let Some(u) = &assets[i].1 {
                return Some(u.clone());
            }
        }
        i += 1;
    }
    None
}

fn asset(assets: &Vec<(Option<String>, Option<String>)>, name: &str) -> (r: Option<Asset>)
    ensures
        match asset_of(asset_texts(assets@), name@) {
            Some(a) => r matches Some(x) && x.view_of() == a,
            None => r is None,
        },
{
    let url = match link_of(assets, name) {
        Some(u) => u,
        None => return None,
    };
    let mut sha_name = String::from_str(name);
    push_str(&mut sha_name, ".sha256");
    let sha_url = match link_of(assets, sha_name.as_str()) {
        Some(u) => u,
        None => return None,
    };
    Some(Asset { url, sha_url })
}

/// The release the JSON describes for the asset names `names`, if it is to
/// be offered.
pub fn release_from(info: &ReleaseInfo, names: AssetNames) -> (r: Option<Release>)
    ensures
        match release_of(*info, names.app@, names.cli@) {
            Some(v) => r matches Some(x) && x.view_of() == v,
            None => r is None,
        },
{
    if info.draft || info.prerelease {
        return None;
    }
    let tag = match &info.tag {
        Some(t) => t,
        None => return None,
    };
    if parse_version(tag.as_str()).is_none() {
        return None;
    }
    let app = match asset(&info.assets, names.app) {
        Some(a) => a,
        None => return None,
    };
    let cli = asset(&info.assets, names.cli);
    let vs: [char; 2] = ['v', 'V'];
    assert(vs@ == seq!['v', 'V']);
    let version = string_of(drop_front_set(chars_of(tag.as_str()).as_slice(), vs.as_slice()).as_slice());
    let page = match &info.page {
        Some(p) => p.clone(),
        None => String::new(),
    };
    Some(Release { version, page, app, cli })
}

/// Where an update of the app stands.
#[derive(Debug)]
pub enum Status {
    Idle,
    Checking,
    UpToDate,
    Available(Release),
    /// `frac` in ten-thousandths of the download.
    Downloading { version: String, frac: Option<u32> },
    /// Installed; starts with the next restart.
    Ready(String),
    Failed(String),
}

/// The first bytes of a download, enough to tell the file type.
pub const HEAD_LEN: usize = 64;

/// Keeps the start of a download: the first [`HEAD_LEN`] bytes over all
/// chunks.
pub fn keep_head(head: &mut Vec<u8>, chunk: &[u8])
    ensures
        final(head)@ == (if old(head)@.len() < HEAD_LEN {
            old(head)@ + chunk@.take(
                if chunk@.len() < HEAD_LEN - old(head)@.len() {
                    chunk@.len() as int
                } else {
                    HEAD_LEN - old(head)@.len()
                },
            )
        } else {
            old(head)@
        }),
{
    let have = head.len();
    if have >= HEAD_LEN {
        return;
    }
    let n: usize = chunk.len();
    let want: usize = if n < HEAD_LEN - have { n } else { HEAD_LEN - have };
    let ghost before = head@;
    let mut i: usize = 0;
    while i < want
        invariant
            i <= want <= n,
            n == chunk@.len(),
            head@ == before + chunk@.take(i as int),
        decreases want - i,
    {
        head.push(chunk[i]);
        i += 1;
        assert(head@ =~= before + chunk@.take(i as int));
    }
}

/// Why a downloaded file is not used.
#[derive(Clone, Copy, Debug, PartialEq, Eq, Structural)]
pub enum Rejected {
    /// The checksum does not match.
    Corrupt,
    /// Not a program for this system.
    NotProgram,
}

impl Rejected {
    pub fn message(&self) -> (r: &'static str)
        ensures
            r@ == match *self {
                Rejected::Corrupt => "Die geladene Datei ist beschädigt (Prüfsumme stimmt nicht)"@,
                Rejected::NotProgram => "Die geladene Datei ist kein Programm für dieses System"@,
            },
    {
        match self {
            Rejected::Corrupt => "Die geladene Datei ist beschädigt (Prüfsumme stimmt nicht)",
            Rejected::NotProgram => "Die geladene Datei ist kein Programm für dieses System",
        }
    }
}

/// Whether a downloaded file may be used: its SHA-256 (`actual`, in hex)
/// is the published one and its first bytes are a program for `os`/`arch`.
pub fn check_download(expected: &str, actual: &str, head: &[u8], os: &str, arch: &str) -> (r: Result<(), Rejected>)
    ensures
        actual@ != expected@ ==> r == Err::<(), Rejected>(Rejected::Corrupt),
        actual@ == expected@ && !native_program(head@, os@, arch@) ==> r == Err::<(), Rejected>(
            Rejected::NotProgram,
        ),
        actual@ == expected@ && native_program(head@, os@, arch@) ==> r is Ok,
{
    if !same_str(actual, expected) {
        return Err(Rejected::Corrupt);
    }
    if !is_native_executable(head, os, arch) {
        return Err(Rejected::NotProgram);
    }
    Ok(())
}


/// The start of a file that tells its type: its first [`HEAD_LEN`] bytes,
/// or all of a shorter one.
pub open spec fn head_of(data: Seq<u8>) -> Seq<u8> {
    if data.len() < HEAD_LEN {
        data
    } else {
        data.take(HEAD_LEN as int)
    }
}

/// Whether a downloaded file may be used, judged on its bytes: the hex of
/// its SHA-256 digest must be the published checksum `expected`, and its
/// start a program for `os`/`arch`.
pub fn check_file(expected: &str, data: &[u8], os: &str, arch: &str) -> (r: Result<(), Rejected>)
    ensures
        hex_text(sha256(data@)) != expected@ ==> r == Err::<(), Rejected>(Rejected::Corrupt),
        hex_text(sha256(data@)) == expected@ ==> (r is Ok <==> native_program(head_of(data@), os@, arch@)),
        hex_text(sha256(data@)) == expected@ && r is Err ==> r == Err::<(), Rejected>(Rejected::NotProgram),
{
    let sum = sha256_of(data);
    let actual = hex(&sum);
    let mut head: Vec<u8> = Vec::new();
    keep_head(&mut head, data);
    assert(head@ == head_of(data@)) by {
        assert(Seq::<u8>::empty() + data@.take(data@.len() as int) =~= data@);
        assert(Seq::<u8>::empty() + data@.take(HEAD_LEN as int) =~= data@.take(HEAD_LEN as int));
    }
    check_download(expected, actual.as_str(), head.as_slice(), os, arch)
}
} // verus!
