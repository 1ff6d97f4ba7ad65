use omnidl::spotify::{collection_from, embedded_json, split_artists, EmbedItem, Entity, Track};

#[test]
fn splits_artists() {
    assert_eq!(split_artists("Pitbull, Sensato"), vec!["Pitbull", "Sensato"]);
    assert_eq!(split_artists(""), Vec::<String>::new());
}

fn entity(kind: &str) -> Entity {
    Entity {
        kind: Some(kind.into()),
        name: Some("Today’s Top Hits".into()),
        id: Some("4PTG3Z6ehGkBFwjybzWkR8".into()),
        title: Some("Bass Persuades".into()),
        artists: Some(vec![Some("Miley Cyrus".into()), None]),
        duration_ms: Some(202_460),
        images: Some(vec![(Some(300), Some("https://small".into())), (Some(640), Some("https://big".into())), (None, None)]),
        cover_art: Some("https://cover".into()),
        track_list: Some(vec![
            EmbedItem {
                uri: Some("spotify:track:abc".into()),
                title: Some("Bass Persuades".into()),
                subtitle: Some("Miley Cyrus".into()),
                duration_ms: Some(202_460),
            },
            EmbedItem { uri: None, title: Some(String::new()), subtitle: None, duration_ms: None },
            EmbedItem { uri: Some("xyz".into()), title: Some("Zwei".into()), subtitle: Some("A, B".into()), duration_ms: None },
        ]),
    }
}

#[test]
fn embed_pages_hand_out_their_json() {
    let html = "<html><script id=\"__NEXT_DATA__\" type=\"application/json\"> {\"a\":1} </script></html>";
    assert_eq!(embedded_json(html), Ok("{\"a\":1}".to_string()));
    assert_eq!(embedded_json("<html>nix</html>"), Err("Spotify-Seite hat ein unbekanntes Format"));
    assert_eq!(embedded_json("__NEXT_DATA__ x"), Err("Spotify-Seite hat ein unbekanntes Format"));
    assert_eq!(embedded_json("__NEXT_DATA__> {"), Err("Spotify-Seite unvollständig"));
}

#[test]
fn playlists_list_their_titled_entries() {
    let c = collection_from(&entity("playlist")).unwrap();
    assert_eq!(c.kind, "playlist");
    assert_eq!(c.name, "Today’s Top Hits");
    assert_eq!(c.tracks.len(), 2, "Einträge ohne Titel fallen weg");
    assert!(!c.truncated);
    let t = &c.tracks[0];
    assert_eq!(t.id, "abc");
    assert_eq!(t.title, "Bass Persuades");
    assert_eq!(t.artists, vec!["Miley Cyrus"]);
    assert_eq!(t.duration_ms, 202_460);
    assert_eq!(t.number, Some(1));
    assert!(t.album.is_none(), "playlist items have no per-track album");
    assert_eq!(c.tracks[1].number, Some(3), "Nummer nach Platz in der Liste");
    assert_eq!(c.tracks[1].id, "xyz");
    assert_eq!(c.tracks[1].artists, vec!["A", "B"]);
    assert_eq!(c.cover.as_deref(), Some("https://big"));
}

#[test]
fn albums_hand_their_name_and_cover_down() {
    let c = collection_from(&entity("album")).unwrap();
    assert_eq!(c.kind, "album");
    assert_eq!(c.tracks[0].album.as_deref(), Some("Today’s Top Hits"));
    assert_eq!(c.tracks[0].cover.as_deref(), Some("https://big"));
}

#[test]
fn a_track_is_its_own_collection() {
    let c = collection_from(&entity("track")).unwrap();
    assert_eq!(c.kind, "track");
    assert_eq!(c.name, "Bass Persuades");
    assert_eq!(c.tracks.len(), 1);
    let t: &Track = &c.tracks[0];
    assert_eq!(t.artists, vec!["Miley Cyrus"]);
    assert_eq!(t.query(), "Miley Cyrus Bass Persuades");
    assert!(t.cover.is_some());
}

#[test]
fn lists_need_their_track_list() {
    let mut e = entity("playlist");
    e.track_list = None;
    assert_eq!(collection_from(&e).err(), Some("keine Trackliste gefunden"));
    let mut e = entity("playlist");
    e.images = None;
    assert_eq!(collection_from(&e).unwrap().cover.as_deref(), Some("https://cover"));
    let mut e = entity("playlist");
    e.images = Some(vec![]);
    assert_eq!(collection_from(&e).unwrap().cover, None);
}

#[test]
fn long_lists_are_marked_truncated() {
    let mut e = entity("playlist");
    e.track_list = Some(
        (0..100)
            .map(|i| EmbedItem { uri: None, title: Some(format!("T{i}")), subtitle: None, duration_ms: None })
            .collect(),
    );
    let c = collection_from(&e).unwrap();
    assert_eq!(c.tracks.len(), 100);
    assert!(c.truncated);
}
