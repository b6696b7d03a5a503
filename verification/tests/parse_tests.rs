use album_catalog::AppError;
use album_catalog::Date;
use album_catalog::InsertedAlbum;
use album_catalog::Pagination;
use album_catalog::apply_date_range_filter;
use album_catalog::apply_genre_filter;
use album_catalog::apply_pagination;
use album_catalog::apply_rating_filter;
use album_catalog::apply_url_filter;
use album_catalog::date_le;
use album_catalog::format_date;
use album_catalog::is_valid_date;
use album_catalog::parse_date;
use album_catalog::parse_id;

fn d(year: u16, month: u8, day: u8) -> Date {
    Date { year, month, day }
}

#[test]
fn parse_date_accepts_iso_dates() {
    assert_eq!(parse_date("2024-01-05"), Ok(d(2024, 1, 5)));
    assert_eq!(parse_date("0001-12-31"), Ok(d(1, 12, 31)));
    assert_eq!(parse_date("9999-06-15"), Ok(d(9999, 6, 15)));
}

#[test]
fn parse_date_knows_leap_years() {
    assert_eq!(parse_date("2024-02-29"), Ok(d(2024, 2, 29)));
    assert_eq!(parse_date("2023-02-29"), Err(AppError::Malformed));
    assert_eq!(parse_date("2000-02-29"), Ok(d(2000, 2, 29)));
    assert_eq!(parse_date("1900-02-29"), Err(AppError::Malformed));
}

#[test]
fn parse_date_rejects_malformed_tokens() {
    assert_eq!(parse_date(""), Err(AppError::Malformed));
    assert_eq!(parse_date("2024-1-05"), Err(AppError::Malformed));
    assert_eq!(parse_date("2024/01/05"), Err(AppError::Malformed));
    assert_eq!(parse_date("2024-13-01"), Err(AppError::Malformed));
    assert_eq!(parse_date("2024-00-01"), Err(AppError::Malformed));
    assert_eq!(parse_date("2024-04-31"), Err(AppError::Malformed));
    assert_eq!(parse_date("2024-04-00"), Err(AppError::Malformed));
    assert_eq!(parse_date("2024-01-05x"), Err(AppError::Malformed));
    assert_eq!(parse_date("abcd-01-05"), Err(AppError::Malformed));
}

#[test]
fn parse_id_reads_hex_groups() {
    assert_eq!(parse_id("00000000-0000-0000-0000-000000000000"), Ok(0));
    assert_eq!(parse_id("00000000-0000-0000-0000-000000000010"), Ok(16));
    assert_eq!(parse_id("00000000-0000-0000-0000-0000000000ff"), Ok(255));
    assert_eq!(parse_id("00000000-0000-0000-0000-0000000000FF"), Ok(255));
    assert_eq!(
        parse_id("ffffffff-ffff-ffff-ffff-ffffffffffff"),
        Ok(u128::MAX),
    );
    assert_eq!(
        parse_id("12345678-9abc-def0-1234-56789abcdef0"),
        Ok(0x12345678_9abc_def0_1234_56789abcdef0),
    );
}

#[test]
fn parse_id_rejects_malformed_tokens() {
    assert_eq!(parse_id(""), Err(AppError::Malformed));
    assert_eq!(parse_id("1234"), Err(AppError::Malformed));
    assert_eq!(parse_id("00000000000000000000000000000000"), Err(AppError::Malformed));
    assert_eq!(parse_id("0000000g-0000-0000-0000-000000000000"), Err(AppError::Malformed));
    assert_eq!(parse_id("00000000-0000-0000-0000_000000000000"), Err(AppError::Malformed));
    assert_eq!(parse_id("00000000-0000-0000-0000-00000000000"), Err(AppError::Malformed));
}

#[test]
fn format_date_writes_iso_tokens() {
    assert_eq!(format_date(&d(2024, 1, 5)), String::from("2024-01-05"));
    assert_eq!(format_date(&d(1, 12, 31)), String::from("0001-12-31"));
    assert_eq!(format_date(&d(9999, 6, 15)), String::from("9999-06-15"));
    assert_eq!(format_date(&d(2024, 2, 29)), String::from("2024-02-29"));
}

#[test]
fn format_and_parse_round_trip() {
    for day in [d(2024, 1, 5), d(1, 1, 1), d(9999, 12, 31), d(2000, 2, 29)] {
        assert_eq!(parse_date(&format_date(&day)), Ok(day));
    }
    let token = "2024-01-05";
    assert_eq!(format_date(&parse_date(token).unwrap()), String::from(token));
}

#[test]
fn date_validity_is_decidable() {
    assert!(is_valid_date(&d(2024, 2, 29)));
    assert!(!is_valid_date(&d(2023, 2, 29)));
    assert!(!is_valid_date(&d(2024, 0, 1)));
    assert!(!is_valid_date(&d(2024, 13, 1)));
    assert!(!is_valid_date(&d(2024, 4, 31)));
}

#[test]
fn pagination_defaults_fill_absent_values() {
    assert_eq!(Pagination { page: 0, limit: 0 }.normalized(), (1, 25));
    assert_eq!(Pagination { page: 3, limit: 50 }.normalized(), (3, 50));
    assert_eq!(Pagination { page: 0, limit: 10 }.normalized(), (1, 10));
}

#[test]
fn date_ordering_follows_the_calendar() {
    assert!(date_le(&d(2023, 12, 31), &d(2024, 1, 1)));
    assert!(date_le(&d(2024, 1, 1), &d(2024, 1, 1)));
    assert!(!date_le(&d(2024, 2, 1), &d(2024, 1, 31)));
}

#[test]
fn filter_helpers_decide_single_predicates() {
    let album_names = vec![String::from("rock"), String::from("blues")];
    assert!(apply_genre_filter(&album_names, &vec![]));
    assert!(apply_genre_filter(&album_names, &vec![String::from("rock")]));
    assert!(apply_genre_filter(
        &album_names,
        &vec![String::from("rock"), String::from("blues")],
    ));
    assert!(!apply_genre_filter(&album_names, &vec![String::from("jazz")]));
    assert!(!apply_genre_filter(
        &album_names,
        &vec![String::from("rock"), String::from("rock")],
    ));
    assert!(apply_rating_filter(300, None));
    assert!(apply_rating_filter(300, Some(300)));
    assert!(!apply_rating_filter(299, Some(300)));
    assert!(apply_date_range_filter(d(2024, 1, 5), Some(d(2024, 1, 5)), Some(d(2024, 1, 5))));
    assert!(!apply_date_range_filter(d(2024, 1, 4), Some(d(2024, 1, 5)), None));
    assert!(apply_url_filter(&String::from("u"), &None));
    assert!(apply_url_filter(&String::from("u"), &Some(String::from("u"))));
    assert!(!apply_url_filter(&String::from("u"), &Some(String::from("v"))));
}

#[test]
fn apply_pagination_cuts_windows() {
    let rows: Vec<InsertedAlbum> = (0..5u16)
        .map(|i| InsertedAlbum {
            id: i as u128,
            title: format!("T{}", i),
            localized_title: None,
            date: d(2024, 1, 1),
            url: format!("u{}", i),
            rym_url: None,
            score: 0,
            voters: 1,
            modified_date: d(2024, 1, 1),
        })
        .collect();
    let page1 = apply_pagination(rows.clone(), 1, 2);
    assert_eq!(page1.len(), 2);
    assert_eq!(page1[0].id, 0);
    let rows2: Vec<InsertedAlbum> = rows.clone();
    let page3 = apply_pagination(rows2, 3, 2);
    assert_eq!(page3.len(), 1);
    assert_eq!(page3[0].id, 4);
    let empty = apply_pagination(rows, 4, 2);
    assert!(empty.is_empty());
}
