use omnidl::fonts::{axis_settings, faces, pick, Face};

/// A font file reduced to what `faces` reads: OS/2 and, for variable
/// fonts, fvar. `base` is where it will sit inside a collection.
fn font(base: usize, weight: u16, width: u16, italic: bool, axes: &[(&[u8; 4], f32, f32)]) -> Vec<u8> {
    let mut os2 = vec![0u8; 64];
    os2[4..6].copy_from_slice(&weight.to_be_bytes());
    os2[6..8].copy_from_slice(&width.to_be_bytes());
    os2[62..64].copy_from_slice(&(u16::from(italic)).to_be_bytes());
    let mut tables: Vec<(&[u8; 4], Vec<u8>)> = vec![(b"OS/2", os2)];
    if !axes.is_empty() {
        let mut fvar = vec![0, 1, 0, 0, 0, 16, 0, 2];
        fvar.extend((axes.len() as u16).to_be_bytes());
        fvar.extend(20u16.to_be_bytes());
        fvar.extend([0; 4]);
        for (tag, lo, hi) in axes {
            fvar.extend(*tag);
            for v in [lo, lo, hi] {
                fvar.extend(((v * 65536.0) as i32).to_be_bytes());
            }
            fvar.extend([0; 4]);
        }
        tables.push((b"fvar", fvar));
    }
    let mut out = vec![0, 1, 0, 0];
    out.extend((tables.len() as u16).to_be_bytes());
    out.extend([0; 6]);
    let mut at = base + 12 + 16 * tables.len();
    for (tag, data) in &tables {
        out.extend(*tag);
        out.extend([0; 4]);
        out.extend((at as u32).to_be_bytes());
        out.extend((data.len() as u32).to_be_bytes());
        at += data.len();
    }
    for (_, data) in tables {
        out.extend(data);
    }
    out
}

/// An axis range as the window reads it.
fn range(r: Option<(i32, i32)>) -> Option<(f32, f32)> {
    r.map(|(lo, hi)| (lo as f32 / 65536.0, hi as f32 / 65536.0))
}

#[test]
fn reads_static_and_variable_faces() {
    let faces_of = |b: Vec<u8>| faces(&b);
    assert_eq!(
        faces_of(font(0, 600, 5, false, &[])),
        vec![Face { index: 0, weight: 600, upright: true, wght: None, opsz: None }]
    );
    let vf = faces_of(font(0, 400, 5, false, &[(b"wght", 100.0, 900.0), (b"opsz", 14.0, 32.0)]));
    assert_eq!(range(vf[0].wght), Some((100.0, 900.0)));
    assert_eq!(range(vf[0].opsz), Some((14.0, 32.0)));
    assert!(!faces_of(font(0, 400, 5, true, &[]))[0].upright, "kursiv");
    assert!(!faces_of(font(0, 700, 3, false, &[]))[0].upright, "schmal");
    assert!(faces(b"kaputt").is_empty());
    assert!(faces(&[]).is_empty());
}

/// Wie HelveticaNeue.ttc: Regular für Text, Medium als nächstes zu Semibold.
#[test]
fn picks_faces_from_a_collection() {
    let weights = [(700, 5, false), (400, 5, false), (400, 5, true), (500, 5, false), (700, 3, false)];
    let header = 12 + 4 * weights.len();
    let mut fonts = Vec::new();
    let mut at = header;
    for (w, width, italic) in weights {
        let f = font(at, w, width, italic, &[]);
        at += f.len();
        fonts.push(f);
    }
    let mut ttc = b"ttcf".to_vec();
    ttc.extend([0, 1, 0, 0]);
    ttc.extend((weights.len() as u32).to_be_bytes());
    let mut at = header as u32;
    for f in &fonts {
        ttc.extend(at.to_be_bytes());
        at += f.len() as u32;
    }
    ttc.extend(fonts.concat());
    let files = vec![ttc];
    assert_eq!(pick(&files, 400).unwrap().1.index, 1);
    assert_eq!(pick(&files, 600).unwrap().1.index, 3, "Medium vor Bold");
}

#[test]
fn variable_fonts_take_the_exact_weight() {
    let vf = font(0, 400, 5, false, &[(b"wght", 100.0, 900.0), (b"opsz", 14.0, 32.0)]);
    let files = vec![vf.clone()];
    let (file, semibold) = pick(&files, 600).unwrap();
    assert_eq!(file, 0);
    assert_eq!(axis_settings(&semibold, 600), vec![(*b"wght", 600 << 16), (*b"opsz", 14 << 16)]);
    // Static files beat the variable font where they match.
    let files = vec![vf, font(0, 400, 5, false, &[]), font(0, 700, 5, false, &[])];
    let (file, regular) = pick(&files, 400).unwrap();
    assert_eq!(file, 1);
    assert!(axis_settings(&regular, 400).is_empty());
    assert_eq!(pick(&files, 600).unwrap().0, 0, "nur die variable Schrift trifft 600 genau");
}

#[test]
fn axis_settings_stay_within_the_axes() {
    let face = Face { index: 0, weight: 400, upright: true, wght: Some((300 << 16, 700 << 16)), opsz: Some((18 << 16, 32 << 16)) };
    assert_eq!(axis_settings(&face, 900), vec![(*b"wght", 700 << 16), (*b"opsz", 18 << 16)]);
    assert_eq!(axis_settings(&face, 100)[0], (*b"wght", 300 << 16));
}
