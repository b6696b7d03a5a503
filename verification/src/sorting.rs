use vstd::prelude::*;

use vstd::multiset::Multiset;

verus! {

/// A total ordering key.  The exec comparison is proved to agree with the
/// mathematical key, so sorting contracts can speak in terms of `key` alone.
pub trait SortKey {
    /// The mathematical sort key of a value; smaller keys come first.
    spec fn key(self) -> int;

    /// Compares two values by their keys.
    fn le_key(&self, other: &Self) -> (r: bool)
        ensures
            r == ((*self).key() <= (*other).key()),
    ;
}

/// Inserts `x` into a key-sorted sequence, after every element whose key
/// does not exceed `x`'s (so an insertion-sorted sequence is stable).
pub open spec fn insert_sorted<T: SortKey>(r: Seq<T>, x: T) -> Seq<T>
    decreases r.len(),
{
    if r.len() == 0 {
        seq![x]
    } else if x.key() < r[0].key() {
        seq![x] + r
    } else {
        seq![r[0]] + insert_sorted(r.drop_first(), x)
    }
}

/// Stable insertion sort by key, ascending: the unique permutation that is
/// key-sorted and keeps the original order of equal keys.
pub open spec fn sort_by_key_spec<T: SortKey>(s: Seq<T>) -> Seq<T>
    decreases s.len(),
{
    if s.len() == 0 {
        Seq::empty()
    } else {
        insert_sorted(sort_by_key_spec(s.drop_last()), s.last())
    }
}

/// Whether a sequence is sorted by ascending key.
pub open spec fn key_sorted<T: SortKey>(s: Seq<T>) -> bool {
    forall|i: int, j: int| 0 <= i <= j < s.len() ==> s[i].key() <= s[j].key()
}

/// Inserting into a sequence at the first position whose key exceeds the
/// new element's gives exactly `insert_sorted`.
proof fn lemma_insert_sorted_at<T: SortKey>(r: Seq<T>, x: T, j: int)
    requires
        0 <= j <= r.len(),
        forall|k: int| 0 <= k < j ==> r[k].key() <= x.key(),
        j < r.len() ==> r[j].key() > x.key(),
    ensures
        insert_sorted(r, x) =~= r.take(j) + seq![x] + r.skip(j),
    decreases r.len(),
{
    if r.len() == 0 {
        assert(insert_sorted(r, x) =~= r.take(0) + seq![x] + r.skip(0));
    } else if j == 0 {
        assert(x.key() < r[0].key());
        assert(insert_sorted(r, x) =~= r.take(0) + seq![x] + r.skip(0));
    } else {
        assert(r[0].key() <= x.key());
        lemma_insert_sorted_at(r.drop_first(), x, j - 1);
        assert(insert_sorted(r, x) =~= r.take(j) + seq![x] + r.skip(j));
    }
}

/// `insert_sorted` keeps sortedness, adds one element, and adds exactly
/// that element to the multiset of values.
pub proof fn lemma_insert_sorted_props<T: SortKey>(r: Seq<T>, x: T)
    requires
        key_sorted(r),
    ensures
        insert_sorted(r, x).len() == r.len() + 1,
        key_sorted(insert_sorted(r, x)),
        insert_sorted(r, x).to_multiset() =~= r.to_multiset().insert(x),
    decreases r.len(),
{
    broadcast use vstd::seq_lib::group_seq_properties;
    broadcast use vstd::multiset::group_multiset_axioms;

    if r.len() == 0 {
        assert(seq![x] =~= Seq::<T>::empty().push(x));
        Seq::<T>::empty().to_multiset_ensures();
    } else if x.key() < r[0].key() {
        let out = seq![x] + r;
        assert forall|i: int, j: int| 0 <= i <= j < out.len() implies out[i].key()
            <= out[j].key() by {
            if i == 0 && j > 0 {
                assert(out[j] == r[j - 1]);
                assert(r[0].key() <= r[j - 1].key());
            }
        }
        vstd::seq_lib::lemma_multiset_commutative(seq![x], r);
        assert(seq![x] =~= Seq::<T>::empty().push(x));
        Seq::<T>::empty().to_multiset_ensures();
        assert(seq![x].to_multiset() =~= Multiset::<T>::empty().insert(x));
        assert((seq![x] + r).to_multiset() =~= r.to_multiset().insert(x));
    } else {
        let df = r.drop_first();
        assert(key_sorted(df));
        lemma_insert_sorted_props(df, x);
        let inner = insert_sorted(df, x);
        let out = seq![r[0]] + inner;
        df.to_multiset_ensures();
        inner.to_multiset_ensures();
        assert forall|i: int, j: int| 0 <= i <= j < out.len() implies out[i].key()
            <= out[j].key() by {
            if i == 0 && j > 0 {
                let y = inner[j - 1];
                assert(inner.contains(y));
                assert(inner.to_multiset().count(y) > 0);
                if df.to_multiset().count(y) > 0 {
                    assert(df.contains(y));
                    let k = choose|k: int| 0 <= k < df.len() && df[k] == y;
                    assert(r[0].key() <= r[k + 1].key());
                    assert(r[0].key() <= y.key());
                } else {
                    assert(y == x);
                }
            }
        }
        vstd::seq_lib::lemma_multiset_commutative(seq![r[0]], inner);
        vstd::seq_lib::lemma_multiset_commutative(seq![r[0]], df);
        assert(seq![r[0]] + df =~= r);
        assert(out.to_multiset() =~= r.to_multiset().insert(x));
    }
}

/// The sort of a sequence is key-sorted and a permutation of it.
pub proof fn lemma_sort_by_key_spec_props<T: SortKey>(s: Seq<T>)
    ensures
        sort_by_key_spec(s).len() == s.len(),
        key_sorted(sort_by_key_spec(s)),
        sort_by_key_spec(s).to_multiset() =~= s.to_multiset(),
    decreases s.len(),
{
    broadcast use vstd::seq_lib::group_seq_properties;

    if s.len() == 0 {
    } else {
        let dl = s.drop_last();
        lemma_sort_by_key_spec_props(dl);
        lemma_insert_sorted_props(sort_by_key_spec(dl), s.last());
        dl.to_multiset_ensures();
        assert(dl.push(s.last()) =~= s);
        assert(sort_by_key_spec(s).to_multiset() =~= s.to_multiset());
    }
}

/// Sorts a vector in place by ascending key, stably.
pub fn sort_by_key<T: SortKey>(v: &mut Vec<T>)
    ensures
        final(v)@ == sort_by_key_spec(old(v)@),
{
    let ghost orig: Seq<T> = v@;
    let n = v.len();
    if n == 0 {
        assert(v@ =~= sort_by_key_spec(orig));
        return ;
    }
    let mut i: usize = 1;
    proof {
        assert(orig.take(1) =~= seq![orig[0]]);
        assert(sort_by_key_spec(orig.take(1)) =~= insert_sorted(
            sort_by_key_spec(orig.take(1).drop_last()),
            orig[0],
        ));
        assert(orig.take(1).drop_last() =~= Seq::<T>::empty());
        assert(sort_by_key_spec(orig.take(1)) =~= seq![orig[0]]);
        assert(v@ =~= sort_by_key_spec(orig.take(1)) + orig.skip(1));
    }
    while i < n
        invariant
            1 <= i <= n,
            n == orig.len(),
            v@.len() == n,
            v@ =~= sort_by_key_spec(orig.take(i as int)) + orig.skip(i as int),
            key_sorted(sort_by_key_spec(orig.take(i as int))),
        decreases n - i,
    {
        let ghost prefix = sort_by_key_spec(orig.take(i as int));
        proof {
            lemma_sort_by_key_spec_props(orig.take(i as int));
        }
        let mut j: usize = 0;
        while j < i && v[j].le_key(&v[i])
            invariant
                0 <= j <= i < n,
                v@.len() == n,
                v@ =~= prefix + orig.skip(i as int),
                prefix.len() == i,
                forall|k: int| 0 <= k < j ==> prefix[k].key() <= v@[i as int].key(),
            decreases i - j,
        {
            j += 1;
        }
        let ghost x = v@[i as int];
        proof {
            assert(x == orig.skip(i as int)[0]);
            if j < i {
                assert(prefix[j as int].key() > x.key());
            }
            lemma_insert_sorted_at(prefix, x, j as int);
        }
        let moved = v.remove(i);
        v.insert(j, moved);
        proof {
            let next = i as int + 1;
            assert(orig.take(next).drop_last() =~= orig.take(i as int));
            assert(orig.take(next).last() == orig[i as int]);
            assert(sort_by_key_spec(orig.take(next)) == insert_sorted(prefix, orig[i as int]));
            assert(orig.skip(i as int)[0] == orig[i as int]);
            assert(x == orig[i as int]);
            assert(v@ =~= (prefix.take(j as int) + seq![x] + prefix.skip(j as int)) + orig.skip(
                next,
            ));
            assert(v@ =~= insert_sorted(prefix, x) + orig.skip(next));
            lemma_insert_sorted_props(prefix, x);
        }
        i += 1;
    }
    proof {
        assert(orig.take(n as int) =~= orig);
        assert(orig.skip(n as int) =~= Seq::<T>::empty());
        assert(v@ =~= sort_by_key_spec(orig));
    }
}

} // verus!
