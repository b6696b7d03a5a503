use album_catalog::AppError;
use album_catalog::Catalog;
use album_catalog::Date;
use album_catalog::NewAlbum;
use album_catalog::NewArtist;
use album_catalog::NewTrack;

fn d(year: u16, month: u8, day: u8) -> Date {
    Date { year, month, day }
}

fn simple_album(url: &str, title: &str, genres: &[&str]) -> NewAlbum {
    NewAlbum {
        album: String::from(title),
        localized_title: None,
        artists: vec![NewArtist { name: String::from("Artist One"), localized_name: None }],
        date: d(2024, 1, 5),
        genres: genres.iter().map(|g| String::from(*g)).collect(),
        moods: vec![String::from("calm")],
        tracks: vec![
            NewTrack {
                track_number: 1,
                title: String::from("Opener"),
                localized_title: None,
                artist: None,
            },
            NewTrack {
                track_number: 2,
                title: String::from("Closer"),
                localized_title: None,
                artist: None,
            },
        ],
        url: String::from(url),
        rym_url: String::from("https://example.org/rym"),
        score: 350,
        voters: 12,
    }
}

#[test]
fn resolution_is_idempotent() {
    let mut c = Catalog::new();
    let g1 = c.get_or_create_genre(&String::from("rock"));
    let g2 = c.get_or_create_genre(&String::from("rock"));
    assert_eq!(g1.id, g2.id);
    assert_eq!(c.genres.len(), 1);
    let g3 = c.get_or_create_genre(&String::from("blues"));
    assert_ne!(g1.id, g3.id);
    assert_eq!(c.genres.len(), 2);
}

#[test]
fn mood_resolution_is_idempotent() {
    let mut c = Catalog::new();
    let m1 = c.get_or_create_mood(&String::from("calm"));
    let m2 = c.get_or_create_mood(&String::from("calm"));
    assert_eq!(m1.id, m2.id);
    assert_eq!(c.moods.len(), 1);
}

#[test]
fn artist_localized_name_last_write_wins() {
    let mut c = Catalog::new();
    let a1 = c.get_or_create_artist(&NewArtist {
        name: String::from("Ongaku"),
        localized_name: None,
    });
    let a2 = c.get_or_create_artist(&NewArtist {
        name: String::from("Ongaku"),
        localized_name: Some(String::from("Ongaku Gakudan")),
    });
    assert_eq!(a1.id, a2.id);
    assert_eq!(c.artists.len(), 1);
    assert_eq!(c.artists[0].localized_name, Some(String::from("Ongaku Gakudan")));
}

#[test]
fn linking_is_idempotent() {
    let mut c = Catalog::new();
    let g = c.get_or_create_genre(&String::from("rock"));
    let rows = vec![g];
    c.add_album_genres(77, &rows);
    c.add_album_genres(77, &rows);
    assert_eq!(c.album_genres.len(), 1);
    assert_eq!(c.album_genres[0], (77, rows[0].id));
}

#[test]
fn upsert_by_url_keeps_one_row_and_second_write_wins() {
    let mut c = Catalog::new();
    let first = simple_album("https://example.org/a", "First Title", &["rock"]);
    let mut second = simple_album("https://example.org/a", "Second Title", &["rock"]);
    second.date = d(2025, 3, 1);
    let r1 = c.register_album(&first, d(2024, 6, 1)).unwrap();
    let r2 = c.register_album(&second, d(2024, 6, 2)).unwrap();
    assert_eq!(c.albums.len(), 1);
    assert_eq!(r1.id, r2.id);
    assert_eq!(c.albums[0].title, String::from("Second Title"));
    assert_eq!(c.albums[0].date, d(2025, 3, 1));
    assert_eq!(c.albums[0].modified_date, d(2024, 6, 2));
    assert_eq!(r2.modified_date, d(2024, 6, 2));
}

#[test]
fn track_replacement_discards_the_old_listing() {
    let mut c = Catalog::new();
    let first = simple_album("https://example.org/a", "Album", &["rock"]);
    let mut second = simple_album("https://example.org/a", "Album", &["rock"]);
    second.tracks = vec![NewTrack {
        track_number: 7,
        title: String::from("Only Survivor"),
        localized_title: None,
        artist: None,
    }];
    c.register_album(&first, d(2024, 6, 1)).unwrap();
    let r2 = c.register_album(&second, d(2024, 6, 2)).unwrap();
    let own: Vec<_> = c.tracks.iter().filter(|t| t.album_id == r2.id).collect();
    assert_eq!(own.len(), 1);
    assert_eq!(own[0].track_number, 7);
    assert_eq!(own[0].title, String::from("Only Survivor"));
    assert_eq!(r2.tracks.len(), 1);
    assert_eq!(r2.tracks[0].title, String::from("Only Survivor"));
}

#[test]
fn duplicate_track_numbers_are_rejected() {
    let mut c = Catalog::new();
    let mut bad = simple_album("https://example.org/a", "Album", &["rock"]);
    bad.tracks = vec![
        NewTrack {
            track_number: 1,
            title: String::from("One"),
            localized_title: None,
            artist: None,
        },
        NewTrack {
            track_number: 1,
            title: String::from("One Again"),
            localized_title: None,
            artist: None,
        },
    ];
    assert_eq!(c.register_album(&bad, d(2024, 6, 1)), Err(AppError::Constraint));
}

#[test]
fn nonpositive_track_numbers_are_rejected() {
    let mut c = Catalog::new();
    let mut bad = simple_album("https://example.org/a", "Album", &["rock"]);
    bad.tracks = vec![NewTrack {
        track_number: 0,
        title: String::from("Zeroth"),
        localized_title: None,
        artist: None,
    }];
    assert_eq!(c.register_album(&bad, d(2024, 6, 1)), Err(AppError::Constraint));
}

#[test]
fn register_assembles_the_nested_view() {
    let mut c = Catalog::new();
    let na = simple_album("https://example.org/a", "Album", &["rock", "blues"]);
    let a = c.register_album(&na, d(2024, 6, 1)).unwrap();
    let mut genre_names: Vec<String> = a.genres.iter().map(|g| g.name.clone()).collect();
    genre_names.sort();
    assert_eq!(genre_names, vec![String::from("blues"), String::from("rock")]);
    assert_eq!(a.moods.len(), 1);
    assert_eq!(a.moods[0].name, String::from("calm"));
    assert_eq!(a.artists.len(), 1);
    assert_eq!(a.artists[0].name, String::from("Artist One"));
    assert_eq!(a.tracks.len(), 2);
    assert_eq!(a.tracks[0].title, String::from("Opener"));
    assert_eq!(a.tracks[1].title, String::from("Closer"));
    assert_eq!(a.url, String::from("https://example.org/a"));
    assert_eq!(a.rym_url, Some(String::from("https://example.org/rym")));
    assert_eq!(a.score, 350);
    assert_eq!(a.voters, 12);
}

#[test]
fn duplicate_names_in_one_request_resolve_to_one_row() {
    let mut c = Catalog::new();
    let na = simple_album("https://example.org/a", "Album", &["rock", "rock"]);
    let a = c.register_album(&na, d(2024, 6, 1)).unwrap();
    assert_eq!(c.genres.len(), 1);
    assert_eq!(a.genres.len(), 2);
    assert_eq!(a.genres[0].id, a.genres[1].id);
}

#[test]
fn per_track_artists_are_resolved() {
    let mut c = Catalog::new();
    let mut na = simple_album("https://example.org/a", "Album", &["rock"]);
    na.tracks = vec![NewTrack {
        track_number: 1,
        title: String::from("Feature"),
        localized_title: None,
        artist: Some(NewArtist { name: String::from("Guest"), localized_name: None }),
    }];
    let a = c.register_album(&na, d(2024, 6, 1)).unwrap();
    assert_eq!(a.tracks.len(), 1);
    let guest = a.tracks[0].artist.as_ref().unwrap();
    assert_eq!(guest.name, String::from("Guest"));
    assert!(c.artists.iter().any(|ar| ar.name == String::from("Guest")));
}

#[test]
fn relinking_a_smaller_set_keeps_old_links() {
    let mut c = Catalog::new();
    let first = simple_album("https://example.org/a", "Album", &["rock", "blues"]);
    let second = simple_album("https://example.org/a", "Album", &["rock"]);
    let r1 = c.register_album(&first, d(2024, 6, 1)).unwrap();
    c.register_album(&second, d(2024, 6, 2)).unwrap();
    let links: Vec<_> = c.album_genres.iter().filter(|p| p.0 == r1.id).collect();
    assert_eq!(links.len(), 2);
}
