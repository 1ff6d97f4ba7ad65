//! Reading the faces of a TrueType/OpenType file or collection, so the
//! window can pick the system's UI font in regular and semibold.

use vstd::prelude::*;
use vstd::slice::slice_subrange;

verus! {

/// A big-endian `u16` at `at`.
pub open spec fn be16_at(b: Seq<u8>, at: int) -> Option<u16> {
    if 0 <= at && at + 2 <= b.len() {
        Some((b[at] as int * 256 + b[at + 1] as int) as u16)
    } else {
        None
    }
}

/// A big-endian `u32` at `at`.
pub open spec fn be32_at(b: Seq<u8>, at: int) -> Option<nat> {
    if 0 <= at && at + 4 <= b.len() {
        Some((b[at] as nat * 16777216 + b[at + 1] as nat * 65536 + b[at + 2] as nat * 256 + b[at + 3] as nat) as nat)
    } else {
        None
    }
}

fn be16(b: &[u8], at: u64) -> (r: Option<u16>)
    ensures
        r == be16_at(b@, at as int),
{
    let n = b.len() as u64;
    if at > n || n - at < 2 {
        return None;
    }
    let i = at as usize;
    Some(b[i] as u16 * 256 + b[i + 1] as u16)
}

fn be32(b: &[u8], at: u64) -> (r: Option<u64>)
    ensures
        match be32_at(b@, at as int) {
            Some(v) => r == Some(v as u64),
            None => r is None,
        },
{
    let n = b.len() as u64;
    if at > n || n - at < 4 {
        return None;
    }
    let i = at as usize;
    Some(b[i] as u64 * 16777216 + b[i + 1] as u64 * 65536 + b[i + 2] as u64 * 256 + b[i + 3] as u64)
}

/// Table record `i` of the font whose table directory starts at `font`:
/// where its table lies, if its tag is `tag` and the table is inside the
/// file.
pub open spec fn record_table(b: Seq<u8>, font: nat, tag: Seq<u8>, i: nat) -> Option<(nat, nat)> {
    let rec: int = (font + 12 + 16 * i) as int;
    if rec + 4 <= b.len() && b.subrange(rec, rec + 4) == tag {
        match (be32_at(b, rec + 8), be32_at(b, rec + 12)) {
            (Some(s), Some(l)) => if s + l <= b.len() {
                Some((s, l))
            } else {
                None
            },
            _ => None,
        }
    } else {
        None
    }
}

/// The first of records `i` and on, below `count`, that holds table `tag`.
pub open spec fn find_table(b: Seq<u8>, font: nat, tag: Seq<u8>, count: nat, i: nat) -> Option<(nat, nat)>
    decreases count - i,
{
    if i >= count {
        None
    } else {
        match record_table(b, font, tag, i) {
            Some(t) => Some(t),
            None => find_table(b, font, tag, count, i + 1),
        }
    }
}

/// Where table `tag` of the font at `font` lies: start and length.
pub open spec fn table_of(b: Seq<u8>, font: nat, tag: Seq<u8>) -> Option<(nat, nat)> {
    match be16_at(b, font + 4int) {
        Some(c) => find_table(b, font, tag, c as nat, 0),
        None => None,
    }
}

fn same_tag(b: &[u8], at: usize, tag: &[u8; 4]) -> (r: bool)
    requires
        at + 4 <= b@.len(),
    ensures
        r == (b@.subrange(at as int, at + 4) == tag@),
{
    let r = b[at] == tag[0] && b[at + 1] == tag[1] && b[at + 2] == tag[2] && b[at + 3] == tag[3];
    assert(r ==> b@.subrange(at as int, at + 4) =~= tag@);
    proof {
        if b@.subrange(at as int, at + 4) == tag@ {
            assert(b@.subrange(at as int, at + 4)[0] == b@[at as int]);
            assert(b@.subrange(at as int, at + 4)[1] == b@[at + 1]);
            assert(b@.subrange(at as int, at + 4)[2] == b@[at + 2]);
            assert(b@.subrange(at as int, at + 4)[3] == b@[at + 3]);
        }
    }
    r
}

/// A table of the font whose table directory starts at `font`.
fn table(b: &[u8], font: u64, tag: &[u8; 4]) -> (r: Option<(usize, usize)>)
    requires
        font <= u32::MAX,
    ensures
        r matches Some((s, l)) ==> s + l <= b@.len(),
        match table_of(b@, font as nat, tag@) {
            Some((s, l)) => s + l <= b@.len() && r == Some((s as usize, l as usize)),
            None => r is None,
        },
{
    let count = match be16(b, font + 4) {
        Some(c) => c as u64,
        None => return None,
    };
    let len: usize = b.len();
    let n = len as u64;
    let mut i: u64 = 0;
    while i < count
        invariant
            font <= u32::MAX,
            count <= u16::MAX,
            n == b@.len(),
            n <= usize::MAX,
            i <= count,
            table_of(b@, font as nat, tag@) == find_table(b@, font as nat, tag@, count as nat, i as nat),
        decreases count - i,
    {
        let rec = font + 12 + 16 * i;
        assert(rec as int == (font as nat + 12 + 16 * (i as nat)) as int);
        let mut found: Option<(usize, usize)> = None;
        let ghost ri = rec as int;
        if rec + 4 <= n {
            assert(rec < n);
            assert(n <= usize::MAX);
            assert((rec as usize) as int == ri);
            let ok = same_tag(b, rec as usize, tag);
            if ok {
                let s = be32(b, rec + 8);
                let l = be32(b, rec + 12);
                match (s, l) {
                    (Some(s), Some(l)) => {
                        if s + l <= n {
                            found = Some((s as usize, l as usize));
                        }
                        assert(be32_at(b@, ri + 8) == Some(s as nat));
                        assert(be32_at(b@, ri + 12) == Some(l as nat));
                        assert(ri + 4 <= b@.len());
                        assert(b@.subrange(ri, ri + 4) == tag@);
                        assert(record_table(b@, font as nat, tag@, i as nat) == (if s + l <= n {
                            Some((s as nat, l as nat))
                        } else {
                            None
                        }));
                    },
                    _ => {
                        assert(be32_at(b@, ri + 8) is None || be32_at(b@, ri + 12) is None);
                    },
                }
            }
        }
        assert(match record_table(b@, font as nat, tag@, i as nat) {
            Some((s, l)) => found == Some((s as usize, l as usize)),
            None => found is None,
        });
        if found.is_some() {
            return found;
        }
        i += 1;
    }
    None
}

/// A 16.16 fixed-point value at `at`, as its raw signed number.
pub open spec fn fixed_at(f: Seq<u8>, at: int) -> Option<i32> {
    match be32_at(f, at) {
        Some(v) => Some(
            if v < 0x8000_0000 {
                v as i32
            } else {
                (v - 0x1_0000_0000) as i32
            },
        ),
        None => None,
    }
}

fn fixed(f: &[u8], at: u64) -> (r: Option<i32>)
    ensures
        r == fixed_at(f@, at as int),
{
    match be32(f, at) {
        Some(v) => if v < 0x8000_0000 {
            Some(v as i32)
        } else {
            Some((v as i64 - 0x1_0000_0000i64) as i32)
        },
        None => None,
    }
}

/// Variation axis record `i` of an `fvar` table: the axis range, if the
/// record is inside the table and names `tag`.
pub open spec fn axis_record(f: Seq<u8>, tag: Seq<u8>, offset: nat, size: nat, i: nat) -> Option<(i32, i32)> {
    let rec: int = (offset + size * i) as int;
    if rec + 4 <= f.len() {
        match (fixed_at(f, rec + 4), fixed_at(f, rec + 12)) {
            (Some(lo), Some(hi)) => if f.subrange(rec, rec + 4) == tag {
                Some((lo, hi))
            } else {
                None
            },
            _ => None,
        }
    } else {
        None
    }
}

pub open spec fn find_axis(f: Seq<u8>, tag: Seq<u8>, offset: nat, size: nat, count: nat, i: nat) -> Option<(i32, i32)>
    decreases count - i,
{
    if i >= count {
        None
    } else {
        match axis_record(f, tag, offset, size, i) {
            Some(a) => Some(a),
            None => find_axis(f, tag, offset, size, count, i + 1),
        }
    }
}

/// The range of variation axis `tag` in an `fvar` table, as raw 16.16
/// fixed-point numbers.
pub open spec fn axis_of(f: Seq<u8>, tag: Seq<u8>) -> Option<(i32, i32)> {
    match (be16_at(f, 4), be16_at(f, 8), be16_at(f, 10)) {
        (Some(o), Some(c), Some(s)) => find_axis(f, tag, o as nat, s as nat, c as nat, 0),
        _ => None,
    }
}

fn axis(f: &[u8], tag: &[u8; 4]) -> (r: Option<(i32, i32)>)
    ensures
        r == axis_of(f@, tag@),
{
    let (offset, count, size) = match (be16(f, 4), be16(f, 8), be16(f, 10)) {
        (Some(o), Some(c), Some(s)) => (o as u64, c as u64, s as u64),
        _ => return None,
    };
    let len: usize = f.len();
    let n = len as u64;
    let mut i: u64 = 0;
    while i < count
        invariant
            offset <= u16::MAX,
            size <= u16::MAX,
            count <= u16::MAX,
            n == f@.len(),
            n <= usize::MAX,
            i <= count,
            axis_of(f@, tag@) == find_axis(f@, tag@, offset as nat, size as nat, count as nat, i as nat),
        decreases count - i,
    {
        assert(size * i <= 65535 * 65535) by (nonlinear_arith)
            requires
                size <= 65535,
                i <= 65535,
        ;
        let rec = offset + size * i;
        if rec + 4 <= n {
            let lo = fixed(f, rec + 4);
            let hi = fixed(f, rec + 12);
            if let (Some(lo), Some(hi)) = (lo, hi) {
                if same_tag(f, rec as usize, tag) {
                    return Some((lo, hi));
                }
            }
        }
        i += 1;
    }
    None
}

/// One font in a file (a .ttc holds several).
#[derive(Clone, Copy, Debug, PartialEq, Eq)]
pub struct Face {
    pub index: u32,
    /// `usWeightClass`: 400 regular, 600 semibold.
    pub weight: u16,
    /// Neither italic nor condensed/expanded.
    pub upright: bool,
    /// Ranges of the `wght` and `opsz` axes of a variable font, as raw
    /// 16.16 fixed-point numbers.
    pub wght: Option<(i32, i32)>,
    pub opsz: Option<(i32, i32)>,
}

pub open spec fn tag_os2() -> Seq<u8> {
    seq![79u8, 83u8, 47u8, 50u8]
}

pub open spec fn tag_fvar() -> Seq<u8> {
    seq![102u8, 118u8, 97u8, 114u8]
}

pub open spec fn tag_wght() -> Seq<u8> {
    seq![119u8, 103u8, 104u8, 116u8]
}

pub open spec fn tag_opsz() -> Seq<u8> {
    seq![111u8, 112u8, 115u8, 122u8]
}

/// A font collection starts with `ttcf`.
pub open spec fn is_collection(b: Seq<u8>) -> bool {
    b.len() >= 4 && b[0] == 116 && b[1] == 116 && b[2] == 99 && b[3] == 102
}

/// The offsets of the first `k` fonts a collection lists, skipping those
/// past the end of the file.
pub open spec fn offsets_upto(b: Seq<u8>, k: nat) -> Seq<nat>
    decreases k,
{
    if k == 0 {
        seq![]
    } else {
        let p = offsets_upto(b, (k - 1) as nat);
        match be32_at(b, 12 + 4 * (k - 1)) {
            Some(o) => p.push(o),
            None => p,
        }
    }
}

/// Where the fonts of a file start: those a collection lists (at most 64),
/// or the file's start.
pub open spec fn font_offsets(b: Seq<u8>) -> Seq<nat> {
    if is_collection(b) {
        let c = match be32_at(b, 8) {
            Some(c) => c,
            None => 0,
        };
        offsets_upto(
            b,
            if c < 64 {
                c
            } else {
                64
            },
        )
    } else {
        seq![0]
    }
}

/// The range of axis `tag` of the font at `offset`, from its `fvar` table.
pub open spec fn fvar_axis(b: Seq<u8>, offset: nat, tag: Seq<u8>) -> Option<(i32, i32)> {
    match table_of(b, offset, tag_fvar()) {
        Some((s, l)) => axis_of(b.subrange(s as int, (s + l) as int), tag),
        None => None,
    }
}

/// The face at `offset`, numbered `index`; none without a readable `OS/2`
/// table.
pub open spec fn face_at(b: Seq<u8>, offset: nat, index: nat) -> Option<Face> {
    match table_of(b, offset, tag_os2()) {
        None => None,
        Some((s, l)) => {
            let os2 = b.subrange(s as int, (s + l) as int);
            match (be16_at(os2, 62), be16_at(os2, 4), be16_at(os2, 6)) {
                (Some(sel), Some(w), Some(wd)) => Some(
                    Face {
                        index: index as u32,
                        weight: w,
                        upright: wd == 5 && sel & 0x201 == 0,
                        wght: fvar_axis(b, offset, tag_wght()),
                        opsz: fvar_axis(b, offset, tag_opsz()),
                    },
                ),
                _ => None,
            }
        },
    }
}

pub open spec fn faces_from(b: Seq<u8>, offs: Seq<nat>) -> Seq<Face>
    decreases offs.len(),
{
    if offs.len() == 0 {
        seq![]
    } else {
        let p = faces_from(b, offs.drop_last());
        match face_at(b, offs.last(), (offs.len() - 1) as nat) {
            Some(f) => p.push(f),
            None => p,
        }
    }
}

/// The faces of a TrueType/OpenType file or collection, numbered by their
/// place among the fonts it lists.
pub open spec fn faces_of(b: Seq<u8>) -> Seq<Face> {
    faces_from(b, font_offsets(b))
}

fn axis_in(b: &[u8], offset: u64, tag: &[u8; 4]) -> (r: Option<(i32, i32)>)
    requires
        offset <= u32::MAX,
    ensures
        r == fvar_axis(b@, offset as nat, tag@),
{
    let len: usize = b.len();
    let fvar: [u8; 4] = [102, 118, 97, 114];
    assert(fvar@ =~= tag_fvar());
    match table(b, offset, &fvar) {
        Some((s, l)) => {
            let f = slice_subrange(b, s, s + l);
            axis(f, tag)
        },
        None => None,
    }
}

fn face_at_offset(b: &[u8], offset: u64, index: u32) -> (r: Option<Face>)
    requires
        offset <= u32::MAX,
    ensures
        r == face_at(b@, offset as nat, index as nat),
{
    let len: usize = b.len();
    let os2_tag: [u8; 4] = [79, 83, 47, 50];
    assert(os2_tag@ =~= tag_os2());
    let (s, l) = match table(b, offset, &os2_tag) {
        Some(t) => t,
        None => return None,
    };
    let os2 = slice_subrange(b, s, s + l);
    let (sel, w, wd) = match (be16(os2, 62), be16(os2, 4), be16(os2, 6)) {
        (Some(sel), Some(w), Some(wd)) => (sel, w, wd),
        _ => return None,
    };
    let wght_tag: [u8; 4] = [119, 103, 104, 116];
    let opsz_tag: [u8; 4] = [111, 112, 115, 122];
    assert(wght_tag@ =~= tag_wght());
    assert(opsz_tag@ =~= tag_opsz());
    Some(
        Face {
            index,
            weight: w,
            upright: wd == 5 && sel & 0x201 == 0,
            wght: axis_in(b, offset, &wght_tag),
            opsz: axis_in(b, offset, &opsz_tag),
        },
    )
}

/// Reads the faces of a TrueType/OpenType file or collection.
pub fn faces(b: &[u8]) -> (r: Vec<Face>)
    ensures
        r@ == faces_of(b@),
{
    let len: usize = b.len();
    let mut offsets: Vec<u64> = Vec::new();
    let coll = len >= 4 && b[0] == 116 && b[1] == 116 && b[2] == 99 && b[3] == 102;
    if coll {
        let c: u64 = match be32(b, 8) {
            Some(c) => c,
            None => 0,
        };
        let k: u64 = if c < 64 { c } else { 64 };
        let mut i: u64 = 0;
        while i < k
            invariant
                i <= k <= 64,
                offsets@.len() <= i,
                offsets@.map_values(|o: u64| o as nat) == offsets_upto(b@, i as nat),
                forall|j: int| 0 <= j < offsets@.len() ==> #[trigger] offsets@[j] <= u32::MAX,
            decreases k - i,
        {
            let ghost before = offsets@;
            match be32(b, 12 + 4 * i) {
                Some(o) => {
                    offsets.push(o);
                    assert(offsets@.map_values(|o: u64| o as nat) =~= before.map_values(|o: u64| o as nat).push(o as nat));
                },
                None => {},
            }
            i += 1;
        }
    } else {
        offsets.push(0);
        assert(offsets@.map_values(|o: u64| o as nat) =~= seq![0nat]);
    }
    let ghost offs = offsets@.map_values(|o: u64| o as nat);
    assert(offs == font_offsets(b@));
    let mut out: Vec<Face> = Vec::new();
    let mut j: usize = 0;
    while j < offsets.len()
        invariant
            j <= offsets@.len() <= 64,
            offs == offsets@.map_values(|o: u64| o as nat),
            forall|x: int| 0 <= x < offsets@.len() ==> #[trigger] offsets@[x] <= u32::MAX,
            out@ == faces_from(b@, offs.take(j as int)),
        decreases offsets@.len() - j,
    {
        assert(offs.take(j + 1).drop_last() =~= offs.take(j as int));
        assert(offs.take(j + 1).last() == offsets@[j as int] as nat);
        match face_at_offset(b, offsets[j], j as u32) {
            Some(f) => out.push(f),
            None => {},
        }
        j += 1;
    }
    assert(offs.take(offsets@.len() as int) =~= offs);
    out
}

/// How far a face is from `weight`: 0 when it is a variable font whose
/// `wght` axis covers the weight, else the difference of the weights.
pub open spec fn distance(f: Face, weight: u16) -> nat {
    let exact = match f.wght {
        Some((lo, hi)) => lo as int <= weight as int * 65536 <= hi as int,
        None => false,
    };
    if exact {
        0
    } else if f.weight >= weight {
        (f.weight - weight) as nat
    } else {
        (weight - f.weight) as nat
    }
}

/// Face `a` fits `weight` better than `b`: closer; then the lighter one;
/// then a static file before a variable font.
pub open spec fn fits_better(a: Face, b: Face, weight: u16) -> bool {
    let (da, db) = (distance(a, weight), distance(b, weight));
    let (ha, hb) = (a.weight > weight, b.weight > weight);
    let (va, vb) = (a.wght is Some, b.wght is Some);
    da < db || (da == db && ((!ha && hb) || (ha == hb && !va && vb)))
}

/// The upright face that fits `weight` best, the first of equally good
/// ones, with the file it is in.
pub open spec fn best(s: Seq<(usize, Face)>, weight: u16) -> Option<(usize, Face)>
    decreases s.len(),
{
    if s.len() == 0 {
        None
    } else {
        let r = best(s.drop_last(), weight);
        let x = s.last();
        if !x.1.upright {
            r
        } else {
            match r {
                None => Some(x),
                Some(y) => if fits_better(x.1, y.1, weight) {
                    Some(x)
                } else {
                    r
                },
            }
        }
    }
}

/// Every face of the files, with the file it is in, in order.
pub open spec fn all_faces(files: Seq<Seq<u8>>) -> Seq<(usize, Face)>
    decreases files.len(),
{
    if files.len() == 0 {
        seq![]
    } else {
        all_faces(files.drop_last()) + faces_of(files.last()).map_values(
            |f: Face| ((files.len() - 1) as usize, f),
        )
    }
}

fn distance_of(f: &Face, weight: u16) -> (r: u32)
    ensures
        r == distance(*f, weight),
{
    let exact = match f.wght {
        Some((lo, hi)) => lo as i64 <= weight as i64 * 65536 && weight as i64 * 65536 <= hi as i64,
        None => false,
    };
    if exact {
        0
    } else if f.weight >= weight {
        (f.weight - weight) as u32
    } else {
        (weight - f.weight) as u32
    }
}

fn better(a: &Face, b: &Face, weight: u16) -> (r: bool)
    ensures
        r == fits_better(*a, *b, weight),
{
    let (da, db) = (distance_of(a, weight), distance_of(b, weight));
    let (ha, hb) = (a.weight > weight, b.weight > weight);
    let (va, vb) = (a.wght.is_some(), b.wght.is_some());
    da < db || (da == db && ((!ha && hb) || (ha == hb && !va && vb)))
}

pub open spec fn file_views(v: Seq<Vec<u8>>) -> Seq<Seq<u8>> {
    v.map_values(|f: Vec<u8>| f@)
}

/// The upright face closest to `weight` among the files, with the place of
/// its file. A variable font whose range covers the weight counts as exact;
/// on a tie the lighter face wins, then static files.
pub fn pick(files: &Vec<Vec<u8>>, weight: u16) -> (r: Option<(usize, Face)>)
    ensures
        r == best(all_faces(file_views(files@)), weight),
{
    let ghost fv = file_views(files@);
    let mut chosen: Option<(usize, Face)> = None;
    let ghost mut seen: Seq<(usize, Face)> = seq![];
    let mut i: usize = 0;
    while i < files.len()
        invariant
            i <= files@.len(),
            fv == file_views(files@),
            seen == all_faces(fv.take(i as int)),
            chosen == best(seen, weight),
        decreases files@.len() - i,
    {
        let fs = faces(files[i].as_slice());
        let ghost tagged = fs@.map_values(|f: Face| (i as usize, f));
        assert(fv.take(i + 1).drop_last() =~= fv.take(i as int));
        assert(fv.take(i + 1).last() == files@[i as int]@);
        assert(all_faces(fv.take(i + 1)) == seen + tagged);
        let mut k: usize = 0;
        while k < fs.len()
            invariant
                k <= fs@.len(),
                tagged == fs@.map_values(|f: Face| (i as usize, f)),
                chosen == best(seen + tagged.take(k as int), weight),
            decreases fs@.len() - k,
        {
            let f = fs[k];
            assert((seen + tagged.take(k + 1)).drop_last() =~= seen + tagged.take(k as int));
            assert((seen + tagged.take(k + 1)).last() == (i, f));
            if f.upright {
                let take = match &chosen {
                    None => true,
                    Some((_, g)) => better(&f, g, weight),
                };
                if take {
                    chosen = Some((i, f));
                }
            }
            k += 1;
        }
        assert(tagged.take(fs@.len() as int) =~= tagged);
        proof {
            seen = seen + tagged;
        }
        i += 1;
    }
    assert(fv.take(files@.len() as int) =~= fv);
    chosen
}

/// The optical size for text, 14, in 16.16 fixed point.
pub const TEXT_OPSZ: i64 = 14 * 65536;

/// `v` held within `lo..=hi`.
pub open spec fn clamped_fixed(v: int, lo: i32, hi: i32) -> i32 {
    if v < lo {
        lo
    } else if v > hi {
        hi
    } else {
        v as i32
    }
}

/// How a variable face is set for `weight`, in 16.16 fixed point: its
/// `wght` axis to the weight, kept within the axis, and its `opsz` axis to
/// the optical size for text, 14, likewise. A static face is left alone.
pub open spec fn settings_for(face: Face, weight: u16) -> Seq<(Seq<u8>, i32)> {
    (match face.wght {
        Some((lo, hi)) => seq![(tag_wght(), clamped_fixed(weight as int * 65536, lo, hi))],
        None => seq![],
    }) + (match face.opsz {
        Some((lo, hi)) => seq![(tag_opsz(), clamped_fixed(TEXT_OPSZ as int, lo, hi))],
        None => seq![],
    })
}

fn clamp_fixed(v: i64, lo: i32, hi: i32) -> (r: i32)
    requires
        lo <= hi,
    ensures
        r == clamped_fixed(v as int, lo, hi),
{
    if v < lo as i64 {
        lo
    } else if v > hi as i64 {
        hi
    } else {
        v as i32
    }
}

/// The axis settings a picked face is loaded with (see `settings_for`).
/// An axis whose range is upside down is refused, as clamping to it would
/// fail.
pub fn axis_settings(face: &Face, weight: u16) -> (r: Vec<([u8; 4], i32)>)
    requires
        face.wght matches Some((lo, hi)) ==> lo <= hi,
        face.opsz matches Some((lo, hi)) ==> lo <= hi,
    ensures
        r@.map_values(|e: ([u8; 4], i32)| (e.0@, e.1)) == settings_for(*face, weight),
{
    let mut out: Vec<([u8; 4], i32)> = Vec::new();
    if let Some((lo, hi)) = face.wght {
        let tag: [u8; 4] = [119u8, 103u8, 104u8, 116u8];
        assert(tag@ =~= tag_wght());
        out.push((tag, clamp_fixed(weight as i64 * 65536, lo, hi)));
    }
    let ghost first = out@.map_values(|e: ([u8; 4], i32)| (e.0@, e.1));
    if let Some((lo, hi)) = face.opsz {
        let tag: [u8; 4] = [111u8, 112u8, 115u8, 122u8];
        assert(tag@ =~= tag_opsz());
        out.push((tag, clamp_fixed(TEXT_OPSZ, lo, hi)));
    }
    assert(out@.map_values(|e: ([u8; 4], i32)| (e.0@, e.1)) =~= settings_for(*face, weight));
    out
}

} // verus!
