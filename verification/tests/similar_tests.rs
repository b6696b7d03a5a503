use album_catalog::Catalog;
use album_catalog::Date;
use album_catalog::NewAlbum;

fn d(year: u16, month: u8, day: u8) -> Date {
    Date { year, month, day }
}

fn tagged_album(url: &str, genres: &[&str], moods: &[&str]) -> NewAlbum {
    NewAlbum {
        album: String::from("Album"),
        localized_title: None,
        artists: vec![],
        date: d(2024, 1, 1),
        genres: genres.iter().map(|g| String::from(*g)).collect(),
        moods: moods.iter().map(|m| String::from(*m)).collect(),
        tracks: vec![],
        url: String::from(url),
        rym_url: String::from("https://example.org/rym"),
        score: 300,
        voters: 5,
    }
}

#[test]
fn affinity_ranking_orders_by_shared_album_count() {
    let mut c = Catalog::new();
    // g1 and g2 share three albums; g1 and g3 share one.
    for i in 0..3 {
        let na = tagged_album(&format!("https://example.org/ab{}", i), &["g1", "g2"], &[]);
        c.register_album(&na, d(2024, 6, 1)).unwrap();
    }
    let na = tagged_album("https://example.org/ac", &["g1", "g3"], &[]);
    c.register_album(&na, d(2024, 6, 1)).unwrap();
    let g1 = c.get_or_create_genre(&String::from("g1"));
    let g2 = c.get_or_create_genre(&String::from("g2"));
    let g3 = c.get_or_create_genre(&String::from("g3"));
    let sim = c.get_similar_genres(g1.id);
    // the target itself co-occurs with itself on all four albums and is not filtered out
    assert_eq!(sim.len(), 3);
    let pos = |id: u128| sim.iter().position(|e| e.id == id).unwrap();
    assert!(pos(g2.id) < pos(g3.id));
    assert_eq!(sim[pos(g1.id)].count, Some(4));
    assert_eq!(sim[pos(g2.id)].count, Some(3));
    assert_eq!(sim[pos(g2.id)].name, Some(String::from("g2")));
    assert_eq!(sim[pos(g3.id)].count, Some(1));
    // counts never increase along the ranking
    for w in sim.windows(2) {
        assert!(w[0].count.unwrap_or(0) >= w[1].count.unwrap_or(0));
    }
}

#[test]
fn mood_affinity_counts_shared_albums() {
    let mut c = Catalog::new();
    let a = tagged_album("https://example.org/a", &[], &["calm", "dark"]);
    let b = tagged_album("https://example.org/b", &[], &["calm"]);
    c.register_album(&a, d(2024, 6, 1)).unwrap();
    c.register_album(&b, d(2024, 6, 1)).unwrap();
    let calm = c.get_or_create_mood(&String::from("calm"));
    let dark = c.get_or_create_mood(&String::from("dark"));
    let sim = c.get_similar_moods(calm.id);
    assert_eq!(sim.len(), 2);
    assert_eq!(sim[0].id, calm.id);
    assert_eq!(sim[0].count, Some(2));
    assert_eq!(sim[1].id, dark.id);
    assert_eq!(sim[1].count, Some(1));
    // an unrelated mood appears only in its own ranking
    let sim_dark = c.get_similar_moods(dark.id);
    assert_eq!(sim_dark.len(), 2);
    assert_eq!(sim_dark[0].count, Some(1));
}

#[test]
fn unrated_albums_feed_no_similarity_count() {
    let mut c = Catalog::new();
    // g1 and g2 share one rated album; g1 and g3 share only an unrated one
    let rated = tagged_album("https://example.org/r", &["g1", "g2"], &[]);
    let mut unrated = tagged_album("https://example.org/u", &["g1", "g3"], &[]);
    unrated.voters = 0;
    c.register_album(&rated, d(2024, 6, 1)).unwrap();
    c.register_album(&unrated, d(2024, 6, 1)).unwrap();
    let g1 = c.get_or_create_genre(&String::from("g1"));
    let g2 = c.get_or_create_genre(&String::from("g2"));
    let g3 = c.get_or_create_genre(&String::from("g3"));
    let sim = c.get_similar_genres(g1.id);
    assert_eq!(sim.len(), 2);
    assert!(sim.iter().all(|e| e.id != g3.id));
    assert!(sim.iter().any(|e| e.id == g1.id && e.count == Some(1)));
    assert!(sim.iter().any(|e| e.id == g2.id && e.count == Some(1)));
    // a genre tagged only on the unrated album has an empty ranking
    assert!(c.get_similar_genres(g3.id).is_empty());
}

#[test]
fn entity_without_albums_has_empty_ranking() {
    let mut c = Catalog::new();
    let lonely = c.get_or_create_genre(&String::from("lonely"));
    assert!(c.get_similar_genres(lonely.id).is_empty());
}
