//! Quick title lookup through oEmbed, so a job shows its real name while it
//! waits (scheduled, queued, starting) instead of the bare link. yt-dlp only
//! reports the title once the download begins.

use crate::detect::{detect, detected, Source, SourceView};
use crate::text::{
    after_first, ascii_lowercase, begins_with, chars_of, lower_all, push_str, split_first,
    starts_with, string_of, trim_chars, trim_spaces,
};
use vstd::prelude::*;

verus! {

/// The UTF-8 bytes of one character.
pub open spec fn utf8_of(c: char) -> Seq<u8> {
    let u = c as nat;
    if u < 0x80 {
        seq![u as u8]
    } else if u < 0x800 {
        seq![(0xC0 + u / 64) as u8, (0x80 + u % 64) as u8]
    } else if u < 0x10000 {
        seq![(0xE0 + u / 4096) as u8, (0x80 + (u / 64) % 64) as u8, (0x80 + u % 64) as u8]
    } else {
        seq![
            (0xF0 + u / 262144) as u8,
            (0x80 + (u / 4096) % 64) as u8,
            (0x80 + (u / 64) % 64) as u8,
            (0x80 + u % 64) as u8,
        ]
    }
}

pub open spec fn utf8(s: Seq<char>) -> Seq<u8>
    decreases s.len(),
{
    if s.len() == 0 {
        seq![]
    } else {
        utf8(s.drop_last()) + utf8_of(s.last())
    }
}

/// The bytes a URL keeps as they are: ASCII letters and digits, `-`, `.`,
/// `_` and `~`.
pub open spec fn unreserved(b: u8) -> bool {
    (48 <= b <= 57) || (65 <= b <= 90) || (97 <= b <= 122) || b == 45 || b == 46 || b == 95
        || b == 126
}

pub open spec fn hex_upper(d: nat) -> char {
    if d < 10 {
        (48 + d) as char
    } else {
        (55 + d) as char
    }
}

pub open spec fn encoded_byte(b: u8) -> Seq<char> {
    if unreserved(b) {
        seq![b as char]
    } else {
        seq!['%', hex_upper(b as nat / 16), hex_upper(b as nat % 16)]
    }
}

pub open spec fn encoded_bytes(bs: Seq<u8>) -> Seq<char>
    decreases bs.len(),
{
    if bs.len() == 0 {
        seq![]
    } else {
        encoded_bytes(bs.drop_last()) + encoded_byte(bs.last())
    }
}

/// Percent encoding: every UTF-8 byte but the unreserved ones becomes `%`
/// and two upper-case hex digits.
pub open spec fn percent_encoded(s: Seq<char>) -> Seq<char> {
    encoded_bytes(utf8(s))
}

/// `urlencoding::encode`. Stated, as its documentation says: every byte of
/// the text's UTF-8 form except ASCII letters, digits, `-`, `_`, `.` and `~`
/// is written as `%` and two upper-case hex digits.
#[verifier::external_body]
pub(crate) fn url_encode(s: &str) -> (r: String)
    ensures
        r@ == percent_encoded(s@),
{
    urlencoding::encode(s).into_owned()
}

/// Vimeo, whose links the site detection does not know by name.
pub open spec fn vimeo(url: Seq<char>) -> bool {
    let rest = lower_all(after_first(url, "://"@));
    starts_with(rest, "vimeo.com/"@) || starts_with(rest, "www.vimeo.com/"@)
}

fn is_vimeo(url: &str) -> (b: bool)
    ensures
        b == vimeo(url@),
{
    let v = chars_of(url);
    let sep = chars_of("://");
    let rest = match split_first(v.as_slice(), sep.as_slice()) {
        Some((_, r)) => r,
        None => v,
    };
    let low = ascii_lowercase(string_of(rest.as_slice()).as_str());
    let a = chars_of("vimeo.com/");
    let b = chars_of("www.vimeo.com/");
    begins_with(low.as_slice(), a.as_slice()) || begins_with(low.as_slice(), b.as_slice())
}

/// The oEmbed service asked for a link: single items of the big sites only.
/// Lists get their name from the list itself.
pub open spec fn endpoint_base(url: Seq<char>) -> Option<Seq<char>> {
    match detected(url) {
        SourceView::YouTube { playlist: false } => Some(
            "https://www.youtube.com/oembed?format=json&url="@,
        ),
        SourceView::TikTok => Some("https://www.tiktok.com/oembed?url="@),
        SourceView::SoundCloud { set: false } => Some(
            "https://soundcloud.com/oembed?format=json&url="@,
        ),
        SourceView::Spotify(_, _) => Some("https://open.spotify.com/oembed?url="@),
        SourceView::Generic => if vimeo(url) {
            Some("https://vimeo.com/api/oembed.json?url="@)
        } else {
            None
        },
        _ => None,
    }
}

/// oEmbed endpoint for a single item on the big sites; `None` for lists and
/// for sites without one.
pub fn endpoint(url: &str) -> (r: Option<String>)
    ensures
        match endpoint_base(url@) {
            Some(b) => r matches Some(e) && e@ == b + percent_encoded(url@),
            None => r is None,
        },
{
    let base = match detect(url) {
        Source::YouTube { playlist: false } => "https://www.youtube.com/oembed?format=json&url=",
        Source::TikTok => "https://www.tiktok.com/oembed?url=",
        Source::SoundCloud { set: false } => "https://soundcloud.com/oembed?format=json&url=",
        Source::Spotify(..) => "https://open.spotify.com/oembed?url=",
        Source::Generic => if is_vimeo(url) {
            "https://vimeo.com/api/oembed.json?url="
        } else {
            return None;
        },
        _ => return None,
    };
    let mut s = String::from_str(base);
    let enc = url_encode(url);
    push_str(&mut s, enc.as_str());
    Some(s)
}

/// The title of an oEmbed answer, given its `title` field when that is text:
/// trimmed, at most 300 characters, none when empty.
pub fn parse_title(title: Option<&str>) -> (r: Option<String>)
    ensures
        match title {
            Some(t) => if trim_spaces(t@).len() > 0 {
                r matches Some(x) && x@ == trim_spaces(t@).take(
                    if trim_spaces(t@).len() < 300 {
                        trim_spaces(t@).len() as int
                    } else {
                        300
                    },
                )
            } else {
                r is None
            },
            None => r is None,
        },
{
    match title {
        Some(t) => {
            let v = chars_of(t);
            let w = trim_chars(v.as_slice());
            if w.len() == 0 {
                return None;
            }
            let n: usize = if w.len() < 300 { w.len() } else { 300 };
            let mut out: Vec<char> = Vec::new();
            let mut i: usize = 0;
            while i < n
                invariant
                    i <= n <= w@.len(),
                    out@ == w@.take(i as int),
                decreases n - i,
            {
                out.push(w[i]);
                i += 1;
                assert(out@ =~= w@.take(i as int));
            }
            Some(string_of(out.as_slice()))
        },
        None => None,
    }
}

} // verus!
