use vstd::prelude::*;

use crate::catalog::Catalog;
use crate::catalog::track_pairs;
use crate::lookup::artist_ids;
use crate::lookup::artist_names;
use crate::lookup::find_artist_by_id;
use crate::lookup::find_first;
use crate::lookup::lemma_find_first;
use crate::sorting::SortKey;
use crate::sorting::sort_by_key;
use crate::sorting::sort_by_key_spec;
use crate::types::AppError;
use crate::types::Artist;
use crate::types::NewTrack;
use crate::types::Track;
use crate::types::TrackRow;
use crate::writes::resolve_artist_spec;

verus! {

/// The track numbers of a requested listing, in request order.
pub open spec fn track_numbers(ts: Seq<NewTrack>) -> Seq<i32> {
    ts.map_values(|t: NewTrack| t.track_number)
}

/// A requested track listing the catalog accepts: every track number is
/// positive and no two tracks share a number.
pub open spec fn tracks_ok(ts: Seq<NewTrack>) -> bool {
    &&& forall|i: int| 0 <= i < ts.len() ==> ts[i].track_number >= 1
    &&& track_numbers(ts).no_duplicates()
}

/// The track rows that do not belong to the given album, in table order.
pub open spec fn other_album_tracks(ts: Seq<TrackRow>, album_id: u128) -> Seq<TrackRow> {
    ts.filter(|t: TrackRow| t.album_id != album_id)
}

/// One step of per-track artist resolution: an attached artist goes
/// through the get-or-create transition of the artist table; a track
/// without one leaves the table alone.
pub open spec fn resolve_track_artist_spec(
    ars: Seq<Artist>,
    fresh: u128,
    ot: Option<crate::types::NewArtist>,
) -> (Seq<Artist>, u128, Option<u128>) {
    match ot {
        Some(na) => {
            let out = resolve_artist_spec(ars, na, fresh);
            let f2 = if find_first(artist_names(ars), na.name@) is Some {
                fresh
            } else {
                (fresh + 1) as u128
            };
            (out.0, f2, Some(out.1.id))
        },
        None => (ars, fresh, None),
    }
}

/// The stored row for one requested track of the given album.
pub open spec fn track_row_spec(album_id: u128, t: NewTrack, artist: Option<u128>) -> TrackRow {
    TrackRow {
        album_id,
        track_number: t.track_number,
        title: t.title,
        localized_title: t.localized_title,
        artist,
    }
}

/// The insertion phase of track replacement: each requested track resolves
/// its artist (growing the artist table and the id counter as needed) and
/// becomes a stored row of the album, in request order.  Returns the final
/// artist table, the final counter, and the inserted rows.
pub open spec fn insert_tracks_spec(
    ars: Seq<Artist>,
    fresh: u128,
    album_id: u128,
    ts: Seq<NewTrack>,
) -> (Seq<Artist>, u128, Seq<TrackRow>)
    decreases ts.len(),
{
    if ts.len() == 0 {
        (ars, fresh, Seq::<TrackRow>::empty())
    } else {
        let step = resolve_track_artist_spec(ars, fresh, ts[0].artist);
        let rest = insert_tracks_spec(step.0, step.1, album_id, ts.drop_first());
        (rest.0, rest.1, seq![track_row_spec(album_id, ts[0], step.2)] + rest.2)
    }
}

/// Inserting one more track is one more resolution step and one more row.
pub proof fn lemma_insert_tracks_snoc(
    ars: Seq<Artist>,
    fresh: u128,
    album_id: u128,
    ts: Seq<NewTrack>,
    x: NewTrack,
)
    ensures
        insert_tracks_spec(ars, fresh, album_id, ts.push(x)) == ({
            let mid = insert_tracks_spec(ars, fresh, album_id, ts);
            let step = resolve_track_artist_spec(mid.0, mid.1, x.artist);
            (step.0, step.1, mid.2.push(track_row_spec(album_id, x, step.2)))
        }),
    decreases ts.len(),
{
    if ts.len() == 0 {
        assert(ts.push(x)[0] == x);
        assert(ts.push(x).drop_first() =~= ts);
        let step = resolve_track_artist_spec(ars, fresh, x.artist);
        assert(insert_tracks_spec(step.0, step.1, album_id, ts) == (
            step.0,
            step.1,
            Seq::<TrackRow>::empty(),
        ));
        assert(seq![track_row_spec(album_id, x, step.2)] + Seq::<TrackRow>::empty()
            =~= Seq::<TrackRow>::empty().push(track_row_spec(album_id, x, step.2)));
    } else {
        assert(ts.push(x)[0] == ts[0]);
        assert(ts.push(x).drop_first() =~= ts.drop_first().push(x));
        let step0 = resolve_track_artist_spec(ars, fresh, ts[0].artist);
        lemma_insert_tracks_snoc(step0.0, step0.1, album_id, ts.drop_first(), x);
        let mid = insert_tracks_spec(step0.0, step0.1, album_id, ts.drop_first());
        let stepn = resolve_track_artist_spec(mid.0, mid.1, x.artist);
        let row0 = track_row_spec(album_id, ts[0], step0.2);
        let rowx = track_row_spec(album_id, x, stepn.2);
        assert(insert_tracks_spec(ars, fresh, album_id, ts.push(x)) == (
            stepn.0,
            stepn.1,
            seq![row0] + mid.2.push(rowx),
        ));
        assert(insert_tracks_spec(ars, fresh, album_id, ts) == (
            mid.0,
            mid.1,
            seq![row0] + mid.2,
        ));
        assert(seq![row0] + mid.2.push(rowx) =~= (seq![row0] + mid.2).push(rowx));
    }
}

/// The inserted rows are one per requested track, in order, all owned by
/// the album, carrying the requested numbers, titles and localized titles.
pub proof fn lemma_insert_tracks_shape(
    ars: Seq<Artist>,
    fresh: u128,
    album_id: u128,
    ts: Seq<NewTrack>,
)
    ensures
        ({
            let rows = insert_tracks_spec(ars, fresh, album_id, ts).2;
            &&& rows.len() == ts.len()
            &&& forall|k: int| 0 <= k < ts.len() ==> (#[trigger] rows[k]).album_id == album_id
            &&& forall|k: int|
                0 <= k < ts.len() ==> (#[trigger] rows[k]).track_number == ts[k].track_number
            &&& forall|k: int| 0 <= k < ts.len() ==> (#[trigger] rows[k]).title == ts[k].title
            &&& forall|k: int|
                0 <= k < ts.len() ==> (#[trigger] rows[k]).localized_title == ts[k].localized_title
        }),
    decreases ts.len(),
{
    if ts.len() > 0 {
        let step = resolve_track_artist_spec(ars, fresh, ts[0].artist);
        lemma_insert_tracks_shape(step.0, step.1, album_id, ts.drop_first());
        let rest = insert_tracks_spec(step.0, step.1, album_id, ts.drop_first());
        let rows = insert_tracks_spec(ars, fresh, album_id, ts).2;
        assert forall|k: int| 0 <= k < ts.len() implies (#[trigger] rows[k]).album_id == album_id
            && rows[k].track_number == ts[k].track_number && rows[k].title == ts[k].title
            && rows[k].localized_title == ts[k].localized_title by {
            if k > 0 {
                assert(rows[k] == rest.2[k - 1]);
                assert(ts.drop_first()[k - 1] == ts[k]);
            }
        }
    }
}

/// Filtering after an append keeps or drops exactly the appended element.
pub proof fn lemma_filter_push<T>(s: Seq<T>, x: T, pred: spec_fn(T) -> bool)
    ensures
        s.push(x).filter(pred) == if pred(x) {
            s.filter(pred).push(x)
        } else {
            s.filter(pred)
        },
{
    assert(s.push(x).drop_last() =~= s);
    assert(s.push(x).last() == x);
    reveal_with_fuel(Seq::filter, 2);
}

/// What survives the deletion phase: rows of other albums only, still
/// duplicate-free on their `(album, number)` pairs, each drawn from the
/// original table.
pub proof fn lemma_other_album_tracks_props(ts: Seq<TrackRow>, album_id: u128)
    requires
        track_pairs(ts).no_duplicates(),
    ensures
        ({
            let kept = other_album_tracks(ts, album_id);
            &&& track_pairs(kept).no_duplicates()
            &&& forall|k: int| 0 <= k < kept.len() ==> (#[trigger] kept[k]).album_id != album_id
            &&& forall|p: (u128, i32)|
                track_pairs(kept).contains(p) ==> track_pairs(ts).contains(p)
            &&& forall|k: int| 0 <= k < kept.len() ==> ts.contains(#[trigger] kept[k])
        }),
    decreases ts.len(),
{
    broadcast use vstd::seq_lib::group_seq_properties;

    let pred = |t: TrackRow| t.album_id != album_id;
    if ts.len() == 0 {
        assert(ts.filter(pred) =~= Seq::<TrackRow>::empty());
    } else {
        let dl = ts.drop_last();
        let x = ts.last();
        assert(track_pairs(dl) =~= track_pairs(ts).take(ts.len() - 1));
        assert forall|i: int, j: int|
            0 <= i < track_pairs(dl).len() && 0 <= j < track_pairs(dl).len() && i
                != j implies track_pairs(dl)[i] != track_pairs(dl)[j] by {
            assert(track_pairs(ts)[i] != track_pairs(ts)[j]);
        }
        lemma_other_album_tracks_props(dl, album_id);
        lemma_filter_push(dl, x, pred);
        assert(dl.push(x) =~= ts);
        let kept_dl = other_album_tracks(dl, album_id);
        let kept = other_album_tracks(ts, album_id);
        assert forall|k: int| 0 <= k < kept_dl.len() implies ts.contains(#[trigger] kept_dl[k]) by {
            assert(dl.contains(kept_dl[k]));
            let w = choose|w: int| 0 <= w < dl.len() && dl[w] == kept_dl[k];
            assert(ts[w] == kept_dl[k]);
        }
        assert forall|p: (u128, i32)|
            track_pairs(kept_dl).contains(p) implies track_pairs(ts).contains(p) by {
            assert(track_pairs(dl).contains(p));
            let w = choose|w: int| 0 <= w < track_pairs(dl).len() && track_pairs(dl)[w] == p;
            assert(track_pairs(ts)[w] == p);
        }
        if pred(x) {
            assert(kept =~= kept_dl.push(x));
            let px = (x.album_id, x.track_number);
            assert(track_pairs(ts)[ts.len() - 1] == px);
            assert(!track_pairs(kept_dl).contains(px)) by {
                if track_pairs(kept_dl).contains(px) {
                    assert(track_pairs(dl).contains(px));
                    let w = choose|w: int|
                        0 <= w < track_pairs(dl).len() && track_pairs(dl)[w] == px;
                    assert(track_pairs(ts)[w] == px);
                    assert(track_pairs(ts)[w] != track_pairs(ts)[ts.len() - 1]);
                }
            }
            crate::writes::lemma_map_values_push(
                kept_dl,
                x,
                |t: TrackRow| (t.album_id, t.track_number),
            );
            crate::catalog::lemma_push_no_dup(track_pairs(kept_dl), px);
        } else {
            assert(kept =~= kept_dl);
        }
    }
}

impl SortKey for TrackRow {
    /// Tracks order by their number, ascending.
    open spec fn key(self) -> int {
        self.track_number as int
    }

    fn le_key(&self, other: &Self) -> (r: bool) {
        self.track_number <= other.track_number
    }
}

/// The presentation of a stored track row: its scalar fields plus the
/// artist row its optional artist id resolves to.
pub open spec fn track_view_spec(ars: Seq<Artist>, t: TrackRow) -> Track {
    Track {
        track_number: t.track_number,
        title: t.title,
        localized_title: t.localized_title,
        artist: match t.artist {
            Some(id) => match find_first(artist_ids(ars), id) {
                Some(i) => Some(ars[i]),
                None => None,
            },
            None => None,
        },
    }
}

/// The presentation of a sequence of stored rows, in order.
pub open spec fn track_views_spec(ars: Seq<Artist>, rows: Seq<TrackRow>) -> Seq<Track> {
    rows.map_values(|t: TrackRow| track_view_spec(ars, t))
}

/// Builds the presentation of each row, resolving artist ids against the
/// artist table.
pub fn track_views(ars: &Vec<Artist>, rows: &Vec<TrackRow>) -> (r: Vec<Track>)
    ensures
        r@ == track_views_spec(ars@, rows@),
{
    let mut out: Vec<Track> = Vec::new();
    let n = rows.len();
    proof {
        assert(out@ =~= track_views_spec(ars@, rows@).take(0));
    }
    for i in 0..n
        invariant
            n == rows@.len(),
            out@ =~= track_views_spec(ars@, rows@).take(i as int),
    {
        let row = &rows[i];
        let artist_view: Option<Artist> = match &row.artist {
            Some(id) => match find_artist_by_id(ars, *id) {
                Some(k) => {
                    proof {
                        lemma_find_first(artist_ids(ars@), *id);
                    }
                    Some(ars[k].clone())
                },
                None => None,
            },
            None => None,
        };
        let t = Track {
            track_number: row.track_number,
            title: row.title.clone(),
            localized_title: crate::types::clone_opt_string(&row.localized_title),
            artist: artist_view,
        };
        proof {
            assert(t == track_view_spec(ars@, rows@[i as int]));
            assert(track_views_spec(ars@, rows@).take(i as int).push(
                track_views_spec(ars@, rows@)[i as int],
            ) =~= track_views_spec(ars@, rows@).take(i as int + 1));
        }
        out.push(t);
    }
    proof {
        assert(track_views_spec(ars@, rows@).take(n as int) =~= track_views_spec(ars@, rows@));
    }
    out
}

impl Catalog {
    /// Replaces the album's track listing wholesale: every stored track of
    /// the album is deleted, then the requested tracks are inserted in
    /// order, resolving each attached artist through the artist table.
    /// Returns the freshly stored rows, ordered by track number, with
    /// resolved artist details.  A listing with a non-positive or repeated
    /// track number is rejected whole and nothing changes.
    pub fn add_tracks(&mut self, album_id: u128, tracks: &Vec<NewTrack>) -> (r: Result<
        Vec<Track>,
        AppError,
    >)
        requires
            old(self).wf(),
        ensures
            final(self).wf(),
            r is Ok <==> tracks_ok(tracks@),
            r is Err ==> {
                &&& final(self).albums@ == old(self).albums@
                &&& final(self).artists@ == old(self).artists@
                &&& final(self).genres@ == old(self).genres@
                &&& final(self).moods@ == old(self).moods@
                &&& final(self).tracks@ == old(self).tracks@
                &&& final(self).album_artists@ == old(self).album_artists@
                &&& final(self).album_genres@ == old(self).album_genres@
                &&& final(self).album_moods@ == old(self).album_moods@
                &&& final(self).next_id == old(self).next_id
            },
            r matches Err(e) ==> e == AppError::Constraint,
            r matches Ok(out) ==> ({
                let fold = insert_tracks_spec(
                    old(self).artists@,
                    old(self).next_id,
                    album_id,
                    tracks@,
                );
                &&& final(self).artists@ == fold.0
                &&& final(self).next_id == fold.1
                &&& final(self).tracks@ == other_album_tracks(old(self).tracks@, album_id) + fold.2
                &&& final(self).albums@ == old(self).albums@
                &&& final(self).genres@ == old(self).genres@
                &&& final(self).moods@ == old(self).moods@
                &&& final(self).album_artists@ == old(self).album_artists@
                &&& final(self).album_genres@ == old(self).album_genres@
                &&& final(self).album_moods@ == old(self).album_moods@
                &&& out@ == track_views_spec(fold.0, sort_by_key_spec(fold.2))
            }),
    {
        if !check_tracks(tracks) {
            return Err(AppError::Constraint);
        }
        let ghost ts0 = self.tracks@;
        let mut kept: Vec<TrackRow> = Vec::new();
        let n = self.tracks.len();
        proof {
            assert(ts0.take(0) =~= Seq::<TrackRow>::empty());
            assert(kept@ =~= other_album_tracks(ts0.take(0), album_id));
        }
        for i in 0..n
            invariant
                n == ts0.len(),
                *self == *old(self),
                self.tracks@ == ts0,
                kept@ =~= other_album_tracks(ts0.take(i as int), album_id),
        {
            proof {
                lemma_filter_push(
                    ts0.take(i as int),
                    ts0[i as int],
                    |t: TrackRow| t.album_id != album_id,
                );
                assert(ts0.take(i as int).push(ts0[i as int]) =~= ts0.take(i as int + 1));
            }
            if self.tracks[i].album_id != album_id {
                kept.push(self.tracks[i].clone());
            }
        }
        proof {
            assert(ts0.take(n as int) =~= ts0);
            lemma_other_album_tracks_props(ts0, album_id);
        }
        self.tracks = kept;
        let ghost ars0 = self.artists@;
        let ghost next0 = self.next_id;
        let ghost base = self.tracks@;
        proof {
            assert forall|k: int| 0 <= k < base.len() implies (#[trigger] base[k]).track_number
                >= 1 by {
                assert(ts0.contains(base[k]));
                let w = choose|w: int| 0 <= w < ts0.len() && ts0[w] == base[k];
                assert(old(self).tracks@[w].track_number >= 1);
            }
            assert(self.wf());
            assert(tracks@.take(0) =~= Seq::<NewTrack>::empty());
            assert(insert_tracks_spec(self.artists@, self.next_id, album_id, tracks@.take(0)) == (
                self.artists@,
                self.next_id,
                Seq::<TrackRow>::empty(),
            ));
        }
        let mut new_rows: Vec<TrackRow> = Vec::new();
        let m = tracks.len();
        for i in 0..m
            invariant
                m == tracks@.len(),
                tracks_ok(tracks@),
                self.wf(),
                base == other_album_tracks(ts0, album_id),
                ts0 == old(self).tracks@,
                track_pairs(ts0).no_duplicates(),
                ({
                    let fold = insert_tracks_spec(ars0, next0, album_id, tracks@.take(i as int));
                    &&& self.artists@ == fold.0
                    &&& self.next_id == fold.1
                    &&& new_rows@ == fold.2
                }),
                self.tracks@ =~= base + new_rows@,
                ars0 == old(self).artists@,
                next0 == old(self).next_id,
                self.albums@ == old(self).albums@,
                self.genres@ == old(self).genres@,
                self.moods@ == old(self).moods@,
                self.album_artists@ == old(self).album_artists@,
                self.album_genres@ == old(self).album_genres@,
                self.album_moods@ == old(self).album_moods@,
        {
            let ghost fold_i = insert_tracks_spec(ars0, next0, album_id, tracks@.take(i as int));
            let t = &tracks[i];
            let artist_id: Option<u128> = match &t.artist {
                Some(na) => {
                    let arow = self.get_or_create_artist(na);
                    Some(arow.id)
                },
                None => None,
            };
            let ghost step = resolve_track_artist_spec(fold_i.0, fold_i.1, tracks@[i as int].artist);
            proof {
                assert(self.artists@ == step.0);
                assert(self.next_id == step.1);
                assert(artist_id == step.2);
            }
            let row = TrackRow {
                album_id,
                track_number: t.track_number,
                title: t.title.clone(),
                localized_title: crate::types::clone_opt_string(&t.localized_title),
                artist: artist_id,
            };
            proof {
                lemma_insert_tracks_snoc(
                    ars0,
                    next0,
                    album_id,
                    tracks@.take(i as int),
                    tracks@[i as int],
                );
                assert(tracks@.take(i as int).push(tracks@[i as int]) =~= tracks@.take(
                    i as int + 1,
                ));
                assert(row == track_row_spec(album_id, tracks@[i as int], step.2));
                // the fresh pair is absent from the stored table
                lemma_insert_tracks_shape(ars0, next0, album_id, tracks@.take(i as int));
                let pairf = |tr: TrackRow| (tr.album_id, tr.track_number);
                let p = (album_id, row.track_number);
                assert forall|k: int| 0 <= k < track_pairs(base).len() implies track_pairs(
                    base,
                )[k] != p by {
                    assert(base[k].album_id != album_id);
                }
                assert(!track_pairs(base).contains(p));
                assert forall|k: int| 0 <= k < track_pairs(new_rows@).len() implies track_pairs(
                    new_rows@,
                )[k] != p by {
                    assert(new_rows@[k].track_number == tracks@.take(i as int)[k].track_number);
                    assert(track_numbers(tracks@)[k] == tracks@[k].track_number);
                    assert(track_numbers(tracks@)[k] != track_numbers(tracks@)[i as int]);
                }
                assert(!track_pairs(new_rows@).contains(p));
                crate::catalog::lemma_map_values_add(base, new_rows@, pairf);
                crate::catalog::lemma_contains_add(
                    track_pairs(base),
                    track_pairs(new_rows@),
                    p,
                );
                assert(track_pairs(self.tracks@) =~= track_pairs(base) + track_pairs(new_rows@));
                assert(!track_pairs(self.tracks@).contains(p));
                crate::writes::lemma_map_values_push(self.tracks@, row, pairf);
                crate::catalog::lemma_push_no_dup(track_pairs(self.tracks@), p);
            }
            self.tracks.push(row.clone());
            new_rows.push(row);
            proof {
                assert(self.tracks@ =~= base + new_rows@);
            }
        }
        proof {
            assert(tracks@.take(m as int) =~= tracks@);
        }
        sort_by_key(&mut new_rows);
        let out = track_views(&self.artists, &new_rows);
        Ok(out)
    }
}

/// Checks a requested listing against the track numbering rules.
pub fn check_tracks(tracks: &Vec<NewTrack>) -> (r: bool)
    ensures
        r == tracks_ok(tracks@),
{
    let n = tracks.len();
    for i in 0..n
        invariant
            n == tracks@.len(),
            forall|k: int| 0 <= k < i ==> tracks@[k].track_number >= 1,
            forall|k1: int, k2: int|
                0 <= k1 < k2 < i ==> track_numbers(tracks@)[k1] != track_numbers(tracks@)[k2],
    {
        if tracks[i].track_number < 1 {
            return false;
        }
        let mut j: usize = 0;
        while j < i
            invariant
                0 <= j <= i < n,
                n == tracks@.len(),
                forall|k: int| 0 <= k < j ==> track_numbers(tracks@)[k] != track_numbers(
                    tracks@,
                )[i as int],
            decreases i - j,
        {
            if tracks[j].track_number == tracks[i].track_number {
                assert(track_numbers(tracks@)[j as int] == track_numbers(tracks@)[i as int]);
                assert(!track_numbers(tracks@).no_duplicates());
                return false;
            }
            j += 1;
        }
    }
    assert forall|k1: int, k2: int|
        0 <= k1 < track_numbers(tracks@).len() && 0 <= k2 < track_numbers(tracks@).len() && k1
            != k2 implies track_numbers(tracks@)[k1] != track_numbers(tracks@)[k2] by {}
    true
}

} // verus!
