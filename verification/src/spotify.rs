//! Spotify tracks as the app reads them from public metadata: who sang, and
//! the search text used to find the song elsewhere.

use crate::text::{
    after_last, after_last_index, chars_of, find, find_in, join, join_strings, lemma_find_bounds,
    push_char, push_str, same_str, slice_vec, split_char, split_on, string_of, string_of_range,
    string_views, trim_chars, trim_spaces, trimmed, views,
};
use vstd::prelude::*;

verus! {

/// A track read from Spotify's public metadata.
#[derive(Debug)]
pub struct Track {
    pub id: String,
    pub title: String,
    pub artists: Vec<String>,
    /// Length in milliseconds, 0 when unknown.
    pub duration_ms: u64,
    pub album: Option<String>,
    pub cover: Option<String>,
    pub number: Option<u32>,
}

impl Track {
    /// "Artist, Artist".
    pub fn artist_line(&self) -> (r: String)
        ensures
            r@ == join(string_views(self.artists@), ", "@),
    {
        join_strings(self.artists.as_slice(), ", ")
    }

    /// Search query for YouTube / YouTube Music: the first artist and the
    /// title.
    pub fn query(&self) -> (r: String)
        ensures
            r@ == trim_spaces((if self.artists@.len() > 0 {
                self.artists@[0]@
            } else {
                seq![]
            }) + seq![' '] + self.title@),
    {
        let mut s = if self.artists.len() > 0 {
            self.artists[0].clone()
        } else {
            String::new()
        };
        let ghost first = s@;
        push_char(&mut s, ' ');
        push_str(&mut s, self.title.as_str());
        assert(s@ =~= first + seq![' '] + self.title@);
        string_of(trimmed(s.as_str()).as_slice())
    }
}

/// The names in a comma-separated artist line, trimmed, empty ones left out.
pub open spec fn artist_names(s: Seq<char>) -> Seq<Seq<char>> {
    split_on(s, ',').map_values(|p: Seq<char>| trim_spaces(p)).filter(|p: Seq<char>| p.len() > 0)
}

proof fn lemma_names_push(ps: Seq<Seq<char>>, x: Seq<char>)
    ensures
        ps.push(x).map_values(|p: Seq<char>| trim_spaces(p)).filter(|p: Seq<char>| p.len() > 0) == if trim_spaces(x).len() > 0 {
            ps.map_values(|p: Seq<char>| trim_spaces(p)).filter(|p: Seq<char>| p.len() > 0).push(trim_spaces(x))
        } else {
            ps.map_values(|p: Seq<char>| trim_spaces(p)).filter(|p: Seq<char>| p.len() > 0)
        },
{
    reveal(Seq::filter);
    let m = ps.push(x).map_values(|p: Seq<char>| trim_spaces(p));
    assert(m.drop_last() =~= ps.map_values(|p: Seq<char>| trim_spaces(p)));
    assert(m.last() == trim_spaces(x));
}

/// `"Pitbull, Sensato"` -> two artists. Names containing a comma (e.g.
/// "Tyler, The Creator") are fixed later from the per-track details.
pub fn split_artists(s: &str) -> (r: Vec<String>)
    ensures
        string_views(r@) == artist_names(s@),
{
    let v = chars_of(s);
    let ps = split_char(v.as_slice(), ',');
    let mut out: Vec<String> = Vec::new();
    let mut i: usize = 0;
    assert(string_views(out@) =~= views(ps@).take(0).map_values(|p: Seq<char>| trim_spaces(p)).filter(
        |p: Seq<char>| p.len() > 0,
    ));
    while i < ps.len()
        invariant
            i <= ps@.len(),
            views(ps@) == split_on(s@, ','),
            string_views(out@) == views(ps@).take(i as int).map_values(|p: Seq<char>| trim_spaces(p)).filter(
                |p: Seq<char>| p.len() > 0,
            ),
        decreases ps@.len() - i,
    {
        proof {
            assert(views(ps@).take(i + 1) =~= views(ps@).take(i as int).push(ps@[i as int]@));
            lemma_names_push(views(ps@).take(i as int), ps@[i as int]@);
        }
        let t = trim_chars(ps[i].as_slice());
        if t.len() > 0 {
            let ghost before = string_views(out@);
            out.push(string_of(t.as_slice()));
            assert(string_views(out@) =~= before.push(t@));
        }
        i += 1;
    }
    assert(views(ps@).take(ps@.len() as int) == views(ps@));
    out
}


// ---------------------------------------------------------------- the embed page

/// The JSON the embed page carries: the text between the `>` that follows
/// `__NEXT_DATA__` and the next `</script>`, trimmed.
pub open spec fn embedded(html: Seq<char>) -> Result<Seq<char>, Seq<char>> {
    match find(html, "__NEXT_DATA__"@) {
        None => Err("Spotify-Seite hat ein unbekanntes Format"@),
        Some(i) => match find(html.skip(i), ">"@) {
            None => Err("Spotify-Seite hat ein unbekanntes Format"@),
            Some(j) => {
                let rest = html.skip(i + j + 1);
                match find(rest, "</script>"@) {
                    None => Err("Spotify-Seite unvollständig"@),
                    Some(e) => Ok(trim_spaces(rest.take(e))),
                }
            },
        },
    }
}

/// Cuts the page's JSON out of the embed page's HTML.
pub fn embedded_json(html: &str) -> (r: Result<String, &'static str>)
    ensures
        match (r, embedded(html@)) {
            (Ok(j), Ok(k)) => j@ == k,
            (Err(m), Err(k)) => m@ == k,
            _ => false,
        },
{
    let v = chars_of(html);
    let n = v.len();
    let marker = chars_of("__NEXT_DATA__");
    let close = chars_of(">");
    let end_tag = chars_of("</script>");
    proof {
        lemma_find_bounds(v@, marker@);
    }
    let i = match find_in(v.as_slice(), marker.as_slice()) {
        Some(i) => i,
        None => return Err("Spotify-Seite hat ein unbekanntes Format"),
    };
    let tail = slice_vec(v.as_slice(), i, n);
    assert(tail@ =~= html@.skip(i as int));
    proof {
        reveal_strlit(">");
        lemma_find_bounds(tail@, close@);
    }
    let j = match find_in(tail.as_slice(), close.as_slice()) {
        Some(j) => j,
        None => return Err("Spotify-Seite hat ein unbekanntes Format"),
    };
    assert(tail@.len() == n - i);
    assert(j + 1 <= n - i);
    let start = i + j + 1;
    let rest = slice_vec(v.as_slice(), start, n);
    assert(rest@ =~= html@.skip(start as int));
    proof {
        lemma_find_bounds(rest@, end_tag@);
    }
    let e = match find_in(rest.as_slice(), end_tag.as_slice()) {
        Some(e) => e,
        None => return Err("Spotify-Seite unvollständig"),
    };
    let body = slice_vec(rest.as_slice(), 0, e);
    assert(body@ =~= rest@.take(e as int));
    let t = trim_chars(body.as_slice());
    Ok(string_of(t.as_slice()))
}

/// One entry of an album's or playlist's track list, as the embed page
/// lists it: `None` where a field is missing or of another kind.
pub struct EmbedItem {
    pub uri: Option<String>,
    pub title: Option<String>,
    /// The artists, comma separated.
    pub subtitle: Option<String>,
    pub duration_ms: Option<u64>,
}

/// The embed page's entity, field by field: `None` where a field is missing
/// or of another kind.
pub struct Entity {
    /// `type`: "track", "album" or "playlist".
    pub kind: Option<String>,
    pub name: Option<String>,
    pub id: Option<String>,
    pub title: Option<String>,
    /// The `name` of each entry of `artists`.
    pub artists: Option<Vec<Option<String>>>,
    pub duration_ms: Option<u64>,
    /// `visualIdentity.image`: each image's `maxWidth` and `url`.
    pub images: Option<Vec<(Option<u64>, Option<String>)>>,
    /// `coverArt.sources[0].url`.
    pub cover_art: Option<String>,
    pub track_list: Option<Vec<EmbedItem>>,
}

/// A track as characters.
pub struct TrackView {
    pub id: Seq<char>,
    pub title: Seq<char>,
    pub artists: Seq<Seq<char>>,
    pub duration_ms: u64,
    pub album: Option<Seq<char>>,
    pub cover: Option<Seq<char>>,
    pub number: Option<u32>,
}

pub open spec fn opt_view(o: Option<String>) -> Option<Seq<char>> {
    match o {
        Some(s) => Some(s@),
        None => None,
    }
}

pub open spec fn text_or(o: Option<String>, d: Seq<char>) -> Seq<char> {
    match o {
        Some(s) => s@,
        None => d,
    }
}

impl View for Track {
    type V = TrackView;

    open spec fn view(&self) -> TrackView {
        TrackView {
            id: self.id@,
            title: self.title@,
            artists: string_views(self.artists@),
            duration_ms: self.duration_ms,
            album: opt_view(self.album),
            cover: opt_view(self.cover),
            number: self.number,
        }
    }
}

/// A list of tracks as characters.
pub open spec fn track_views(v: Seq<Track>) -> Seq<TrackView> {
    v.map_values(|t: Track| t@)
}

/// A release as Spotify shows it: one track, an album or a playlist.
#[derive(Debug)]
pub struct Collection {
    pub name: String,
    pub kind: &'static str,
    pub tracks: Vec<Track>,
    pub cover: Option<String>,
    /// The embed page caps lists at 100 entries.
    pub truncated: bool,
}

pub struct CollectionView {
    pub name: Seq<char>,
    pub kind: Seq<char>,
    pub tracks: Seq<TrackView>,
    pub cover: Option<Seq<char>>,
    pub truncated: bool,
}

impl View for Collection {
    type V = CollectionView;

    open spec fn view(&self) -> CollectionView {
        CollectionView {
            name: self.name@,
            kind: self.kind@,
            tracks: track_views(self.tracks@),
            cover: opt_view(self.cover),
            truncated: self.truncated,
        }
    }
}

/// The names present in a list of optional names.
pub open spec fn present(s: Seq<Option<String>>) -> Seq<Seq<char>>
    decreases s.len(),
{
    if s.len() == 0 {
        seq![]
    } else {
        match s.last() {
            Some(x) => present(s.drop_last()).push(x@),
            None => present(s.drop_last()),
        }
    }
}

fn present_names(v: &Vec<Option<String>>) -> (r: Vec<String>)
    ensures
        string_views(r@) == present(v@),
{
    let mut out: Vec<String> = Vec::new();
    let mut i: usize = 0;
    while i < v.len()
        invariant
            i <= v@.len(),
            string_views(out@) == present(v@.take(i as int)),
        decreases v@.len() - i,
    {
        assert(v@.take(i + 1).drop_last() =~= v@.take(i as int));
        match &v[i] {
            Some(x) => {
                let ghost before = string_views(out@);
                out.push(x.clone());
                assert(string_views(out@) =~= before.push(x@));
            },
            None => {},
        }
        i += 1;
    }
    assert(v@.take(v@.len() as int) =~= v@);
    out
}

/// An image's width; 0 when it gives none.
pub open spec fn width(x: (Option<u64>, Option<String>)) -> nat {
    match x.0 {
        Some(w) => w as nat,
        None => 0,
    }
}

/// The widest image's place, the last of equally wide ones, as `max_by_key`
/// picks it.
pub open spec fn widest(imgs: Seq<(Option<u64>, Option<String>)>) -> int
    decreases imgs.len(),
{
    if imgs.len() <= 1 {
        0
    } else {
        let b = widest(imgs.drop_last());
        if width(imgs.last()) >= width(imgs[b]) {
            imgs.len() - 1
        } else {
            b
        }
    }
}

proof fn lemma_widest_bounds(imgs: Seq<(Option<u64>, Option<String>)>)
    requires
        imgs.len() >= 1,
    ensures
        0 <= widest(imgs) < imgs.len(),
    decreases imgs.len(),
{
    if imgs.len() > 1 {
        lemma_widest_bounds(imgs.drop_last());
    }
}

/// The largest image's link, else the plain cover art. A list of images that
/// is present but empty gives none.
pub open spec fn cover_of(e: Entity) -> Option<Seq<char>> {
    match e.images {
        Some(v) => if v@.len() == 0 {
            None
        } else {
            opt_view(v@[widest(v@)].1)
        },
        None => opt_view(e.cover_art),
    }
}

fn best_image(e: &Entity) -> (r: Option<String>)
    ensures
        opt_view(r) == cover_of(*e),
{
    match &e.images {
        Some(imgs) => {
            if imgs.len() == 0 {
                return None;
            }
            let mut best: usize = 0;
            let mut bw: u64 = match imgs[0].0 {
                Some(w) => w,
                None => 0,
            };
            let mut k: usize = 1;
            assert(imgs@.take(1).len() == 1);
            while k < imgs.len()
                invariant
                    1 <= k <= imgs@.len(),
                    best as int == widest(imgs@.take(k as int)),
                    best < k,
                    bw as nat == width(imgs@[best as int]),
                decreases imgs@.len() - k,
            {
                let ghost pre = imgs@.take(k as int);
                assert(imgs@.take(k + 1).drop_last() =~= pre);
                assert(pre[best as int] == imgs@[best as int]);
                let w: u64 = match imgs[k].0 {
                    Some(w) => w,
                    None => 0,
                };
                if w >= bw {
                    best = k;
                    bw = w;
                }
                k += 1;
            }
            assert(imgs@.take(imgs@.len() as int) =~= imgs@);
            match &imgs[best].1 {
                Some(u) => Some(u.clone()),
                None => None,
            }
        },
        None => match &e.cover_art {
            Some(u) => Some(u.clone()),
            None => None,
        },
    }
}

/// The track a "track" entity describes.
pub open spec fn entity_track(e: Entity) -> TrackView {
    TrackView {
        id: text_or(e.id, seq![]),
        title: text_or(e.title, seq![]),
        artists: match e.artists {
            Some(a) => present(a@),
            None => seq![],
        },
        duration_ms: match e.duration_ms {
            Some(d) => d,
            None => 0,
        },
        album: None,
        cover: cover_of(e),
        number: None,
    }
}

fn text_of(o: &Option<String>) -> (r: String)
    ensures
        r@ == text_or(*o, seq![]),
{
    match o {
        Some(s) => s.clone(),
        None => String::new(),
    }
}

fn copy_opt(o: &Option<String>) -> (r: Option<String>)
    ensures
        opt_view(r) == opt_view(*o),
{
    match o {
        Some(s) => Some(s.clone()),
        None => None,
    }
}

/// Entry `i` of a track list; an album's entries carry its name and cover.
pub open spec fn item_track(
    it: EmbedItem,
    i: int,
    album: Option<Seq<char>>,
    cover: Option<Seq<char>>,
) -> TrackView {
    TrackView {
        id: match it.uri {
            Some(u) => after_last(u@, ':'),
            None => seq![],
        },
        title: text_or(it.title, seq![]),
        artists: match it.subtitle {
            Some(s) => artist_names(s@),
            None => seq![],
        },
        duration_ms: match it.duration_ms {
            Some(d) => d,
            None => 0,
        },
        album,
        cover,
        number: Some((i + 1) as u32),
    }
}

fn item_to_track(it: &EmbedItem, i: usize, album: &Option<String>, cover: &Option<String>) -> (t: Track)
    requires
        i < u32::MAX,
    ensures
        t@ == item_track(*it, i as int, opt_view(*album), opt_view(*cover)),
{
    let id = match &it.uri {
        Some(u) => {
            let v = chars_of(u.as_str());
            let k = after_last_index(v.as_slice(), ':');
            let n = v.len();
            let r = string_of_range(v.as_slice(), k, n);
            assert(v@.subrange(k as int, n as int) =~= v@.skip(k as int));
            r
        },
        None => String::new(),
    };
    let artists = match &it.subtitle {
        Some(s) => split_artists(s.as_str()),
        None => Vec::new(),
    };
    let t = Track {
        id,
        title: text_of(&it.title),
        artists,
        duration_ms: match it.duration_ms {
            Some(d) => d,
            None => 0,
        },
        album: copy_opt(album),
        cover: copy_opt(cover),
        number: Some(i as u32 + 1),
    };
    assert(t@.artists =~= item_track(*it, i as int, opt_view(*album), opt_view(*cover)).artists);
    t
}

/// The tracks of a list: every entry, numbered by its place, without the
/// ones that have no title.
pub open spec fn list_tracks(
    items: Seq<EmbedItem>,
    album: Option<Seq<char>>,
    cover: Option<Seq<char>>,
) -> Seq<TrackView> {
    items.map(|i: int, it: EmbedItem| item_track(it, i, album, cover)).filter(
        |t: TrackView| t.title.len() > 0,
    )
}

proof fn lemma_titled_push(s: Seq<TrackView>, x: TrackView)
    ensures
        s.push(x).filter(|t: TrackView| t.title.len() > 0) == if x.title.len() > 0 {
            s.filter(|t: TrackView| t.title.len() > 0).push(x)
        } else {
            s.filter(|t: TrackView| t.title.len() > 0)
        },
{
    reveal(Seq::filter);
    assert(s.push(x).drop_last() =~= s);
}

/// What the embed page's entity describes; `None` for a list without its
/// track list.
pub open spec fn collection_of(e: Entity) -> Option<CollectionView> {
    let name = text_or(e.name, "Spotify"@);
    let cover = cover_of(e);
    let kind = text_or(e.kind, seq![]);
    if kind == "track"@ {
        let t = entity_track(e);
        Some(
            CollectionView {
                name: t.title,
                kind: "track"@,
                tracks: seq![t],
                cover,
                truncated: false,
            },
        )
    } else {
        match e.track_list {
            None => None,
            Some(list) => {
                let album = kind == "album"@;
                let tracks = list_tracks(
                    list@,
                    if album {
                        Some(name)
                    } else {
                        None
                    },
                    if album {
                        cover
                    } else {
                        None
                    },
                );
                Some(
                    CollectionView {
                        name,
                        kind: if album {
                            "album"@
                        } else {
                            "playlist"@
                        },
                        tracks,
                        cover,
                        truncated: tracks.len() >= 100,
                    },
                )
            },
        }
    }
}

fn list_of(list: &Vec<EmbedItem>, album: &Option<String>, cover: &Option<String>) -> (r: Vec<Track>)
    requires
        list@.len() < u32::MAX,
    ensures
        track_views(r@) == list_tracks(list@, opt_view(*album), opt_view(*cover)),
{
    let ghost f = |i: int, it: EmbedItem| item_track(it, i, opt_view(*album), opt_view(*cover));
    let mut out: Vec<Track> = Vec::new();
    let mut i: usize = 0;
    while i < list.len()
        invariant
            i <= list@.len() < u32::MAX,
            f == (|i: int, it: EmbedItem| item_track(it, i, opt_view(*album), opt_view(*cover))),
            track_views(out@) == list@.take(i as int).map(f).filter(|t: TrackView| t.title.len() > 0),
        decreases list@.len() - i,
    {
        let t = item_to_track(&list[i], i, album, cover);
        proof {
            assert(list@.take(i + 1).map(f) =~= list@.take(i as int).map(f).push(f(i as int, list@[i as int])));
            lemma_titled_push(list@.take(i as int).map(f), t@);
        }
        if !t.title.as_str().is_empty() {
            let ghost before = track_views(out@);
            out.push(t);
            assert(track_views(out@) =~= before.push(out@.last()@));
        }
        i += 1;
    }
    assert(list@.take(list@.len() as int) =~= list@);
    out
}

/// The collection the embed page's entity describes: the track itself, or
/// the titled entries of an album or playlist.
pub fn collection_from(e: &Entity) -> (r: Result<Collection, &'static str>)
    requires
        e.track_list matches Some(l) ==> l@.len() < u32::MAX,
    ensures
        match (r, collection_of(*e)) {
            (Ok(c), Some(v)) => c@ == v,
            (Err(m), None) => m@ == "keine Trackliste gefunden"@,
            _ => false,
        },
{
    let name = match &e.name {
        Some(n) => n.clone(),
        None => String::from_str("Spotify"),
    };
    let cover = best_image(e);
    let kind = text_of(&e.kind);
    if same_str(kind.as_str(), "track") {
        let artists = match &e.artists {
            Some(a) => present_names(a),
            None => Vec::new(),
        };
        let t = Track {
            id: text_of(&e.id),
            title: text_of(&e.title),
            artists,
            duration_ms: match e.duration_ms {
                Some(d) => d,
                None => 0,
            },
            album: None,
            cover: copy_opt(&cover),
            number: None,
        };
        assert(t@.artists =~= entity_track(*e).artists);
        assert(t@ == entity_track(*e));
        let title = t.title.clone();
        let mut tracks: Vec<Track> = Vec::new();
        tracks.push(t);
        let c = Collection { name: title, kind: "track", tracks, cover, truncated: false };
        assert(c@.tracks =~= seq![entity_track(*e)]);
        return Ok(c);
    }
    let list = match &e.track_list {
        Some(l) => l,
        None => return Err("keine Trackliste gefunden"),
    };
    let album = same_str(kind.as_str(), "album");
    let album_name = if album { Some(name.clone()) } else { None };
    let album_cover = if album { copy_opt(&cover) } else { None };
    let tracks = list_of(list, &album_name, &album_cover);
    let n = tracks.len();
    let c = Collection {
        name,
        kind: if album { "album" } else { "playlist" },
        tracks,
        cover,
        truncated: n >= 100,
    };
    Ok(c)
}

} // verus!
