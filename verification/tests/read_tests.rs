use album_catalog::AlbumFilter;
use album_catalog::AppError;
use album_catalog::Catalog;
use album_catalog::Date;
use album_catalog::NewAlbum;
use album_catalog::NewArtist;

fn d(year: u16, month: u8, day: u8) -> Date {
    Date { year, month, day }
}

fn no_filter() -> AlbumFilter {
    AlbumFilter { genres: vec![], moods: vec![], min_rating: None, since: None, to: None }
}

fn album(url: &str, title: &str, date: Date, score: i64, voters: i32) -> NewAlbum {
    NewAlbum {
        album: String::from(title),
        localized_title: None,
        artists: vec![NewArtist { name: String::from("Artist"), localized_name: None }],
        date,
        genres: vec![String::from("rock")],
        moods: vec![String::from("calm")],
        tracks: vec![],
        url: String::from(url),
        rym_url: String::from("https://example.org/rym"),
        score,
        voters,
    }
}

#[test]
fn all_of_genre_filter_requires_every_tag() {
    let mut c = Catalog::new();
    let mut a = album("https://example.org/a", "A", d(2024, 1, 1), 300, 5);
    a.genres = vec![String::from("rock")];
    let mut b = album("https://example.org/b", "B", d(2024, 1, 2), 300, 5);
    b.genres = vec![String::from("rock"), String::from("blues")];
    c.register_album(&a, d(2024, 6, 1)).unwrap();
    c.register_album(&b, d(2024, 6, 1)).unwrap();
    let mut f = no_filter();
    f.genres = vec![String::from("rock"), String::from("blues")];
    let out = c.get_albums(1, 25, &f);
    assert_eq!(out.len(), 1);
    assert_eq!(out[0].title, String::from("B"));
}

#[test]
fn voters_zero_is_excluded_everywhere() {
    let mut c = Catalog::new();
    let ghost_album = album("https://example.org/g", "Ghost", d(2024, 1, 1), 300, 0);
    let rated = album("https://example.org/r", "Rated", d(2024, 1, 1), 300, 5);
    let g = c.register_album(&ghost_album, d(2024, 6, 1)).unwrap();
    c.register_album(&rated, d(2024, 6, 1)).unwrap();
    let out = c.get_albums(1, 25, &no_filter());
    assert_eq!(out.len(), 1);
    assert_eq!(out[0].title, String::from("Rated"));
    let genre_id = g.genres[0].id;
    let mood_id = g.moods[0].id;
    let artist_id = g.artists[0].id;
    assert!(c.get_albums_for_genre(genre_id, 1, 25).iter().all(|x| x.voters != 0));
    assert!(c.get_albums_for_mood(mood_id, 1, 25).iter().all(|x| x.voters != 0));
    assert!(c.get_albums_for_artist(artist_id, 1, 25).iter().all(|x| x.voters != 0));
    assert!(c.get_albums_for_date(d(2024, 1, 1), 1, 25).iter().all(|x| x.voters != 0));
    assert_eq!(c.get_albums_for_genre(genre_id, 1, 25).len(), 1);
}

#[test]
fn pagination_returns_the_requested_window() {
    let mut c = Catalog::new();
    for i in 0..25u32 {
        // later days come first in the listing
        let day = (i + 1) as u8;
        let na = album(
            &format!("https://example.org/{}", i),
            &format!("T{:02}", day),
            d(2024, 1, day),
            300,
            5,
        );
        c.register_album(&na, d(2024, 6, 1)).unwrap();
    }
    let page2 = c.get_albums(2, 10, &no_filter());
    assert_eq!(page2.len(), 10);
    // ordering is date descending: day 25 first, so page 2 holds days 15..=6
    assert_eq!(page2[0].title, String::from("T15"));
    assert_eq!(page2[9].title, String::from("T06"));
    let page3 = c.get_albums(3, 10, &no_filter());
    assert_eq!(page3.len(), 5);
    let far = c.get_albums(9, 10, &no_filter());
    assert!(far.is_empty());
}

#[test]
fn ordering_is_date_then_score_descending() {
    let mut c = Catalog::new();
    c.register_album(&album("https://example.org/a", "OldHigh", d(2023, 5, 1), 900, 5), d(2024, 6, 1)).unwrap();
    c.register_album(&album("https://example.org/b", "NewLow", d(2024, 5, 1), 100, 5), d(2024, 6, 1)).unwrap();
    c.register_album(&album("https://example.org/c", "NewHigh", d(2024, 5, 1), 800, 5), d(2024, 6, 1)).unwrap();
    let out = c.get_albums(1, 25, &no_filter());
    let titles: Vec<String> = out.iter().map(|a| a.title.clone()).collect();
    assert_eq!(
        titles,
        vec![String::from("NewHigh"), String::from("NewLow"), String::from("OldHigh")],
    );
}

#[test]
fn score_and_date_filters_are_inclusive() {
    let mut c = Catalog::new();
    c.register_album(&album("https://example.org/a", "Low", d(2024, 1, 1), 200, 5), d(2024, 6, 1)).unwrap();
    c.register_album(&album("https://example.org/b", "High", d(2024, 2, 1), 400, 5), d(2024, 6, 1)).unwrap();
    let mut f = no_filter();
    f.min_rating = Some(400);
    let out = c.get_albums(1, 25, &f);
    assert_eq!(out.len(), 1);
    assert_eq!(out[0].title, String::from("High"));
    let mut f2 = no_filter();
    f2.since = Some(d(2024, 1, 1));
    f2.to = Some(d(2024, 1, 31));
    let out2 = c.get_albums(1, 25, &f2);
    assert_eq!(out2.len(), 1);
    assert_eq!(out2[0].title, String::from("Low"));
}

#[test]
fn absent_filters_restrict_nothing() {
    let mut c = Catalog::new();
    c.register_album(&album("https://example.org/a", "A", d(2024, 1, 1), 200, 5), d(2024, 6, 1)).unwrap();
    c.register_album(&album("https://example.org/b", "B", d(2024, 2, 1), 400, 5), d(2024, 6, 1)).unwrap();
    assert_eq!(c.get_albums(1, 25, &no_filter()).len(), 2);
}

#[test]
fn album_without_relations_has_empty_collections() {
    let mut c = Catalog::new();
    let mut bare = album("https://example.org/a", "Bare", d(2024, 1, 1), 300, 5);
    bare.artists = vec![];
    bare.genres = vec![];
    bare.moods = vec![];
    bare.tracks = vec![];
    c.register_album(&bare, d(2024, 6, 1)).unwrap();
    let out = c.get_albums(1, 25, &no_filter());
    assert_eq!(out.len(), 1);
    assert!(out[0].artists.is_empty());
    assert!(out[0].genres.is_empty());
    assert!(out[0].moods.is_empty());
    assert!(out[0].tracks.is_empty());
}

#[test]
fn unknown_ids_are_not_found() {
    let c = Catalog::new();
    assert_eq!(c.get_genre(42), Err(AppError::NotFound));
    assert_eq!(c.get_mood(42), Err(AppError::NotFound));
    assert!(c.get_genre_info(42, 1, 25).is_err());
    assert!(c.get_mood_info(42, 1, 25).is_err());
}

#[test]
fn genre_info_combines_row_ranking_and_albums() {
    let mut c = Catalog::new();
    let a = album("https://example.org/a", "A", d(2024, 1, 1), 300, 5);
    let reg = c.register_album(&a, d(2024, 6, 1)).unwrap();
    let genre_id = reg.genres[0].id;
    let info = c.get_genre_info(genre_id, 1, 25).unwrap();
    assert_eq!(info.genre.name, String::from("rock"));
    assert_eq!(info.albums.len(), 1);
    assert_eq!(info.similar_genres.len(), 1);
    assert_eq!(info.similar_genres[0].id, genre_id);
    assert_eq!(info.similar_genres[0].count, Some(1));
}

#[test]
fn tracks_in_views_are_ordered_by_number() {
    let mut c = Catalog::new();
    let mut na = album("https://example.org/a", "A", d(2024, 1, 1), 300, 5);
    na.tracks = vec![
        album_catalog::NewTrack {
            track_number: 3,
            title: String::from("Third"),
            localized_title: None,
            artist: None,
        },
        album_catalog::NewTrack {
            track_number: 1,
            title: String::from("First"),
            localized_title: None,
            artist: None,
        },
        album_catalog::NewTrack {
            track_number: 2,
            title: String::from("Second"),
            localized_title: None,
            artist: None,
        },
    ];
    let reg = c.register_album(&na, d(2024, 6, 1)).unwrap();
    let titles: Vec<String> = reg.tracks.iter().map(|t| t.title.clone()).collect();
    assert_eq!(
        titles,
        vec![String::from("First"), String::from("Second"), String::from("Third")],
    );
    let out = c.get_albums(1, 25, &no_filter());
    let view_titles: Vec<String> = out[0].tracks.iter().map(|t| t.title.clone()).collect();
    assert_eq!(view_titles, titles);
}
