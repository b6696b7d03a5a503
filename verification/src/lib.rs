//! A verified catalog of music albums and their related entities.
//!
//! The catalog stores albums (keyed by a unique external URL), the reference
//! vocabularies they point into (artists, genres, moods), the many-to-many
//! junctions between albums and those vocabularies, and each album's owned
//! track listing.  Registration is an idempotent multi-entity write pipeline;
//! reads reconstruct nested album views with filtering, ordering and
//! pagination; a co-occurrence ranker reports which genres or moods share
//! albums with a given one.

mod catalog;
mod date;
mod filters;
mod ident;
mod laws;
mod links;
mod lookup;
mod reads;
mod register;
mod similar;
mod sorting;
mod tracks;
mod types;
mod writes;

pub use catalog::Catalog;
pub use catalog::track_pairs;
pub use date::Date;
pub use date::date_key;
pub use date::date_le;
pub use date::date_text_valid;
pub use date::date_valid;
pub use date::days_in_month;
pub use date::format_date;
pub use date::is_leap_year;
pub use date::is_valid_date;
pub use date::lemma_date_token_unique;
pub use date::parse_date;
pub use filters::AlbumFilter;
pub use filters::all_of_passes;
pub use filters::apply_date_range_filter;
pub use filters::apply_genre_filter;
pub use filters::apply_mood_filter;
pub use filters::apply_pagination;
pub use filters::apply_rating_filter;
pub use filters::apply_url_filter;
pub use filters::date_range_passes;
pub use filters::matching_name_count;
pub use filters::paginate;
pub use filters::rating_passes;
pub use filters::seq_views;
pub use filters::url_passes;
pub use ident::id_text_valid;
pub use ident::id_value;
pub use ident::parse_id;
pub use laws::count_eq;
pub use laws::lemma_all_of_filter;
pub use laws::lemma_artist_resolution_idempotent;
pub use laws::lemma_link_pairs_idempotent;
pub use laws::lemma_linking_idempotent;
pub use laws::lemma_pagination;
pub use laws::lemma_resolution_idempotent;
pub use laws::lemma_track_replacement;
pub use laws::lemma_upsert_by_url;
pub use links::link_pairs;
pub use lookup::find_first;
pub use reads::album_artist_rows;
pub use reads::album_genre_rows;
pub use reads::album_mood_rows;
pub use reads::album_passes;
pub use reads::album_track_rows;
pub use reads::album_view_matches;
pub use reads::artist_albums;
pub use reads::date_albums;
pub use reads::filtered_albums;
pub use reads::genre_albums;
pub use reads::lemma_album_order;
pub use reads::mood_albums;
pub use similar::album_rated;
pub use similar::co_count;
pub use similar::similar_genres_spec;
pub use similar::similar_moods_spec;
pub use sorting::SortKey;
pub use sorting::key_sorted;
pub use sorting::sort_by_key_spec;
pub use tracks::insert_tracks_spec;
pub use tracks::other_album_tracks;
pub use tracks::track_views_spec;
pub use tracks::tracks_ok;
pub use types::Album;
pub use types::AppError;
pub use types::Artist;
pub use types::Genre;
pub use types::GenreInfo;
pub use types::InsertedAlbum;
pub use types::Mood;
pub use types::MoodInfo;
pub use types::NewAlbum;
pub use types::NewArtist;
pub use types::NewTrack;
pub use types::Pagination;
pub use types::SimilarGenre;
pub use types::SimilarMood;
pub use types::Track;
pub use types::TrackRow;
pub use types::clone_opt_string;
pub use writes::resolve_artist_spec;
pub use writes::resolve_artists_fold;
pub use writes::resolve_genre_spec;
pub use writes::resolve_genres_fold;
pub use writes::resolve_mood_spec;
pub use writes::resolve_moods_fold;
pub use writes::scalar_row_spec;
pub use writes::upsert_album_spec;
