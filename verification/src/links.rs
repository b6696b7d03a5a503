use vstd::prelude::*;

use crate::catalog::Catalog;
use crate::catalog::lemma_push_no_dup;
use crate::lookup::artist_ids;
use crate::lookup::genre_ids;
use crate::lookup::mood_ids;
use crate::types::Artist;
use crate::types::Genre;
use crate::types::Mood;

verus! {

/// The junction-linking transition: each `(album_id, entity)` pair is
/// appended unless the table already holds it, in input order.
pub open spec fn link_pairs(j: Seq<(u128, u128)>, album_id: u128, ids: Seq<u128>) -> Seq<(
    u128,
    u128,
)>
    decreases ids.len(),
{
    if ids.len() == 0 {
        j
    } else {
        let j1 = if j.contains((album_id, ids[0])) {
            j
        } else {
            j.push((album_id, ids[0]))
        };
        link_pairs(j1, album_id, ids.drop_first())
    }
}

/// Linking one more id performs one more conditional append.
pub proof fn lemma_link_pairs_snoc(j: Seq<(u128, u128)>, album_id: u128, ids: Seq<u128>, x: u128)
    ensures
        link_pairs(j, album_id, ids.push(x)) == ({
            let jn = link_pairs(j, album_id, ids);
            if jn.contains((album_id, x)) {
                jn
            } else {
                jn.push((album_id, x))
            }
        }),
    decreases ids.len(),
{
    if ids.len() == 0 {
        assert(ids.push(x)[0] == x);
        assert(ids.push(x).drop_first() =~= ids);
        let j1 = if j.contains((album_id, x)) {
            j
        } else {
            j.push((album_id, x))
        };
        assert(link_pairs(j, album_id, ids.push(x)) == link_pairs(j1, album_id, ids));
        assert(link_pairs(j1, album_id, ids) == j1);
        assert(link_pairs(j, album_id, ids) == j);
    } else {
        assert(ids.push(x)[0] == ids[0]);
        assert(ids.push(x).drop_first() =~= ids.drop_first().push(x));
        let j1 = if j.contains((album_id, ids[0])) {
            j
        } else {
            j.push((album_id, ids[0]))
        };
        assert(link_pairs(j, album_id, ids.push(x)) == link_pairs(
            j1,
            album_id,
            ids.drop_first().push(x),
        ));
        assert(link_pairs(j, album_id, ids) == link_pairs(j1, album_id, ids.drop_first()));
        lemma_link_pairs_snoc(j1, album_id, ids.drop_first(), x);
    }
}

/// A pair is in the linked table exactly when it was there before or it is
/// one of the pairs being asserted.
pub proof fn lemma_link_pairs_membership(
    j: Seq<(u128, u128)>,
    album_id: u128,
    ids: Seq<u128>,
    p: (u128, u128),
)
    ensures
        link_pairs(j, album_id, ids).contains(p) <==> (j.contains(p) || (p.0 == album_id
            && ids.contains(p.1))),
    decreases ids.len(),
{
    broadcast use vstd::seq_lib::group_seq_properties;

    if ids.len() == 0 {
    } else {
        let j1 = if j.contains((album_id, ids[0])) {
            j
        } else {
            j.push((album_id, ids[0]))
        };
        lemma_link_pairs_membership(j1, album_id, ids.drop_first(), p);
        assert(j1.contains(p) <==> (j.contains(p) || p == (album_id, ids[0])));
        assert(ids.contains(p.1) <==> (ids[0] == p.1 || ids.drop_first().contains(p.1)));
    }
}

/// Linking never introduces a duplicate pair.
pub proof fn lemma_link_pairs_no_dup(j: Seq<(u128, u128)>, album_id: u128, ids: Seq<u128>)
    requires
        j.no_duplicates(),
    ensures
        link_pairs(j, album_id, ids).no_duplicates(),
    decreases ids.len(),
{
    if ids.len() == 0 {
    } else {
        let p = (album_id, ids[0]);
        if j.contains(p) {
            lemma_link_pairs_no_dup(j, album_id, ids.drop_first());
        } else {
            lemma_push_no_dup(j, p);
            lemma_link_pairs_no_dup(j.push(p), album_id, ids.drop_first());
        }
    }
}

/// Linking pairs that are all present already changes nothing.
pub proof fn lemma_link_pairs_noop(j: Seq<(u128, u128)>, album_id: u128, ids: Seq<u128>)
    requires
        forall|k: int| 0 <= k < ids.len() ==> j.contains((album_id, #[trigger] ids[k])),
    ensures
        link_pairs(j, album_id, ids) == j,
    decreases ids.len(),
{
    if ids.len() == 0 {
    } else {
        assert(j.contains((album_id, ids[0])));
        assert forall|k: int| 0 <= k < ids.drop_first().len() implies j.contains(
            (album_id, #[trigger] ids.drop_first()[k]),
        ) by {
            assert(ids.drop_first()[k] == ids[k + 1]);
        }
        lemma_link_pairs_noop(j, album_id, ids.drop_first());
    }
}

/// Appends the pairs `(album_id, id)` for each id that the junction does
/// not yet pair with the album.
fn link_into(junction: &mut Vec<(u128, u128)>, album_id: u128, ids: &Vec<u128>)
    requires
        old(junction)@.no_duplicates(),
    ensures
        final(junction)@ == link_pairs(old(junction)@, album_id, ids@),
        final(junction)@.no_duplicates(),
{
    let ghost orig = junction@;
    let n = ids.len();
    proof {
        assert(ids@.take(0) =~= Seq::<u128>::empty());
    }
    for i in 0..n
        invariant
            n == ids@.len(),
            junction@ == link_pairs(orig, album_id, ids@.take(i as int)),
            junction@.no_duplicates(),
            orig.no_duplicates(),
    {
        proof {
            lemma_link_pairs_snoc(orig, album_id, ids@.take(i as int), ids@[i as int]);
            assert(ids@.take(i as int).push(ids@[i as int]) =~= ids@.take(i as int + 1));
        }
        let present = crate::lookup::junction_contains(junction, album_id, ids[i]);
        if !present {
            proof {
                lemma_push_no_dup(junction@, (album_id, ids@[i as int]));
            }
            junction.push((album_id, ids[i]));
        }
    }
    proof {
        assert(ids@.take(n as int) =~= ids@);
    }
}

impl Catalog {
    /// Links the album to each artist row, skipping pairs that exist.
    pub fn add_album_artists(&mut self, album_id: u128, artists: &Vec<Artist>)
        requires
            old(self).wf(),
        ensures
            final(self).wf(),
            final(self).album_artists@ == link_pairs(
                old(self).album_artists@,
                album_id,
                artist_ids(artists@),
            ),
            final(self).albums@ == old(self).albums@,
            final(self).artists@ == old(self).artists@,
            final(self).genres@ == old(self).genres@,
            final(self).moods@ == old(self).moods@,
            final(self).tracks@ == old(self).tracks@,
            final(self).album_genres@ == old(self).album_genres@,
            final(self).album_moods@ == old(self).album_moods@,
            final(self).next_id == old(self).next_id,
    {
        let ids = collect_artist_ids(artists);
        link_into(&mut self.album_artists, album_id, &ids);
    }

    /// Links the album to each genre row, skipping pairs that exist.
    pub fn add_album_genres(&mut self, album_id: u128, genres: &Vec<Genre>)
        requires
            old(self).wf(),
        ensures
            final(self).wf(),
            final(self).album_genres@ == link_pairs(
                old(self).album_genres@,
                album_id,
                genre_ids(genres@),
            ),
            final(self).albums@ == old(self).albums@,
            final(self).artists@ == old(self).artists@,
            final(self).genres@ == old(self).genres@,
            final(self).moods@ == old(self).moods@,
            final(self).tracks@ == old(self).tracks@,
            final(self).album_artists@ == old(self).album_artists@,
            final(self).album_moods@ == old(self).album_moods@,
            final(self).next_id == old(self).next_id,
    {
        let ids = collect_genre_ids(genres);
        link_into(&mut self.album_genres, album_id, &ids);
    }

    /// Links the album to each mood row, skipping pairs that exist.
    pub fn add_album_moods(&mut self, album_id: u128, moods: &Vec<Mood>)
        requires
            old(self).wf(),
        ensures
            final(self).wf(),
            final(self).album_moods@ == link_pairs(
                old(self).album_moods@,
                album_id,
                mood_ids(moods@),
            ),
            final(self).albums@ == old(self).albums@,
            final(self).artists@ == old(self).artists@,
            final(self).genres@ == old(self).genres@,
            final(self).moods@ == old(self).moods@,
            final(self).tracks@ == old(self).tracks@,
            final(self).album_artists@ == old(self).album_artists@,
            final(self).album_genres@ == old(self).album_genres@,
            final(self).next_id == old(self).next_id,
    {
        let ids = collect_mood_ids(moods);
        link_into(&mut self.album_moods, album_id, &ids);
    }
}

/// The ids of the given artist rows, in order.
fn collect_artist_ids(rows: &Vec<Artist>) -> (r: Vec<u128>)
    ensures
        r@ == artist_ids(rows@),
{
    let mut out: Vec<u128> = Vec::new();
    let n = rows.len();
    for i in 0..n
        invariant
            n == rows@.len(),
            out@ =~= artist_ids(rows@).take(i as int),
    {
        out.push(rows[i].id);
        proof {
            assert(artist_ids(rows@).take(i as int).push(rows@[i as int].id) =~= artist_ids(
                rows@,
            ).take(i as int + 1));
        }
    }
    proof {
        assert(artist_ids(rows@).take(n as int) =~= artist_ids(rows@));
    }
    out
}

/// The ids of the given genre rows, in order.
fn collect_genre_ids(rows: &Vec<Genre>) -> (r: Vec<u128>)
    ensures
        r@ == genre_ids(rows@),
{
    let mut out: Vec<u128> = Vec::new();
    let n = rows.len();
    for i in 0..n
        invariant
            n == rows@.len(),
            out@ =~= genre_ids(rows@).take(i as int),
    {
        out.push(rows[i].id);
        proof {
            assert(genre_ids(rows@).take(i as int).push(rows@[i as int].id) =~= genre_ids(
                rows@,
            ).take(i as int + 1));
        }
    }
    proof {
        assert(genre_ids(rows@).take(n as int) =~= genre_ids(rows@));
    }
    out
}

/// The ids of the given mood rows, in order.
fn collect_mood_ids(rows: &Vec<Mood>) -> (r: Vec<u128>)
    ensures
        r@ == mood_ids(rows@),
{
    let mut out: Vec<u128> = Vec::new();
    let n = rows.len();
    for i in 0..n
        invariant
            n == rows@.len(),
            out@ =~= mood_ids(rows@).take(i as int),
    {
        out.push(rows[i].id);
        proof {
            assert(mood_ids(rows@).take(i as int).push(rows@[i as int].id) =~= mood_ids(
                rows@,
            ).take(i as int + 1));
        }
    }
    proof {
        assert(mood_ids(rows@).take(n as int) =~= mood_ids(rows@));
    }
    out
}

} // verus!
