//! Small verified tally lists: association lists from a key to a count, kept
//! in first-observation order, with their abstraction to maps. The aggregate
//! result uses them for the status-code and error distributions.

use vstd::prelude::*;

verus! {

/// The map a tally list denotes. Later entries win, which is irrelevant once
/// the keys are distinct.
pub open spec fn pairs_map<K>(ps: Seq<(K, usize)>) -> Map<K, int>
    decreases ps.len(),
{
    if ps.len() == 0 {
        Map::empty()
    } else {
        pairs_map(ps.drop_last()).insert(ps.last().0, ps.last().1 as int)
    }
}

/// No key occurs twice.
pub open spec fn distinct_keys<K>(ps: Seq<(K, usize)>) -> bool {
    forall|i: int, j: int| 0 <= i < j < ps.len() ==> ps[i].0 != ps[j].0
}

/// Whether some entry carries key `k`.
pub open spec fn has_key<K>(ps: Seq<(K, usize)>, k: K) -> bool {
    exists|i: int| 0 <= i < ps.len() && ps[i].0 == k
}

/// The count a map holds for `k`, defaulting to 0.
pub open spec fn count_of<K>(m: Map<K, int>, k: K) -> int {
    if m.dom().contains(k) {
        m[k]
    } else {
        0
    }
}

/// One observation of key `k` added to a tally list: the existing entry is
/// incremented, or a fresh entry is appended at the back.
pub open spec fn bump_key<K>(ps: Seq<(K, usize)>, k: K) -> Seq<(K, usize)>
    decreases ps.len(),
{
    if ps.len() == 0 {
        seq![(k, 1usize)]
    } else if ps[0].0 == k {
        seq![(ps[0].0, (ps[0].1 + 1) as usize)] + ps.drop_first()
    } else {
        seq![ps[0]] + bump_key(ps.drop_first(), k)
    }
}

/// With distinct keys, each entry is exactly the map's value for its key.
pub proof fn lemma_key_value<K>(ps: Seq<(K, usize)>, i: int)
    requires
        distinct_keys(ps),
        0 <= i < ps.len(),
    ensures
        pairs_map(ps).dom().contains(ps[i].0),
        pairs_map(ps)[ps[i].0] == ps[i].1,
    decreases ps.len(),
{
    if i < ps.len() - 1 {
        assert(forall|a: int, b: int|
            0 <= a < b < ps.drop_last().len() ==> ps.drop_last()[a].0 != ps.drop_last()[b].0);
        lemma_key_value(ps.drop_last(), i);
        assert(ps[i].0 != ps.last().0);
    }
}

/// A key that no entry carries is absent from the map.
pub proof fn lemma_absent_key<K>(ps: Seq<(K, usize)>, k: K)
    requires
        forall|i: int| 0 <= i < ps.len() ==> ps[i].0 != k,
    ensures
        !pairs_map(ps).dom().contains(k),
        count_of(pairs_map(ps), k) == 0,
    decreases ps.len(),
{
    if ps.len() > 0 {
        assert(forall|i: int| 0 <= i < ps.drop_last().len() ==> ps.drop_last()[i].0 != k);
        lemma_absent_key(ps.drop_last(), k);
    }
}

/// Splitting a bump at a prefix whose keys all differ from `k`.
pub proof fn lemma_bump_skip<K>(ps: Seq<(K, usize)>, k: K, i: int)
    requires
        0 <= i <= ps.len(),
        forall|j: int| 0 <= j < i ==> ps[j].0 != k,
    ensures
        bump_key(ps, k) =~= ps.take(i) + bump_key(ps.skip(i), k),
    decreases i,
{
    if i == 0 {
        assert(ps.skip(0) =~= ps);
        assert(ps.take(0) + bump_key(ps, k) =~= bump_key(ps, k));
    } else {
        assert(ps[0].0 != k);
        lemma_bump_skip(ps.drop_first(), k, i - 1);
        assert(ps.drop_first().take(i - 1) =~= ps.take(i).drop_first());
        assert(ps.drop_first().skip(i - 1) =~= ps.skip(i));
        assert(bump_key(ps, k) == seq![ps[0]] + bump_key(ps.drop_first(), k));
        assert(seq![ps[0]] + (ps.drop_first().take(i - 1) + bump_key(
            ps.drop_first().skip(i - 1),
            k,
        )) =~= ps.take(i) + bump_key(ps.skip(i), k));
    }
}

/// A bump keeps the keys distinct, introduces no key but `k`, and moves the
/// denoted map to `k`'s count plus one.
pub proof fn lemma_bump_props<K>(ps: Seq<(K, usize)>, k: K)
    requires
        distinct_keys(ps),
        forall|i: int| 0 <= i < ps.len() ==> ps[i].1 < usize::MAX,
    ensures
        distinct_keys(bump_key(ps, k)),
        forall|j: int|
            0 <= j < bump_key(ps, k).len() ==> (#[trigger] bump_key(ps, k)[j].0 == k || has_key(
                ps,
                bump_key(ps, k)[j].0,
            )),
        pairs_map(bump_key(ps, k)) =~= pairs_map(ps).insert(k, count_of(pairs_map(ps), k) + 1),
        has_key(ps, k) ==> bump_key(ps, k).len() == ps.len(),
        !has_key(ps, k) ==> bump_key(ps, k).len() == ps.len() + 1,
    decreases ps.len(),
{
    let r = bump_key(ps, k);
    if ps.len() == 0 {
        assert(r =~= seq![(k, 1usize)]);
        assert(r.drop_last() =~= Seq::<(K, usize)>::empty());
        assert(pairs_map(r) == pairs_map(r.drop_last()).insert(r.last().0, r.last().1 as int));
        assert(0 <= 0 < r.len() && r[0].0 == k);
    } else if ps[0].0 == k {
        // the head is replaced in place; the map update follows by induction
        // on the position of k, via the split into head and tail
        assert(r[0] == (ps[0].0, (ps[0].1 + 1) as usize));
        assert(forall|j: int| 1 <= j < r.len() ==> #[trigger] r[j] == ps[j]);
        assert(r.len() == ps.len());
        assert(forall|j: int| 0 <= j < r.len() ==> (r[j].0 == k || has_key(ps, #[trigger] r[j].0)))
            by {
            assert(forall|j: int|
                1 <= j < r.len() ==> #[trigger] r[j].0 == ps[j].0 && 0 <= j < ps.len());
        }
        lemma_update_head_map(ps, (ps[0].1 + 1) as usize);
        lemma_key_value(ps, 0);
        assert(count_of(pairs_map(ps), k) == ps[0].1);
        assert(r =~= ps.update(0, (ps[0].0, (ps[0].1 + 1) as usize)));
    } else {
        let tail_rec = bump_key(ps.drop_first(), k);
        assert(forall|a: int, b: int|
            0 <= a < b < ps.drop_first().len() ==> ps.drop_first()[a].0 != ps.drop_first()[b].0);
        lemma_bump_props(ps.drop_first(), k);
        assert(r == seq![ps[0]] + tail_rec);
        assert(r[0] == ps[0]);
        assert(forall|j: int| 1 <= j < r.len() ==> #[trigger] r[j] == tail_rec[j - 1]);
        // distinctness: the head's key is not k and not a tail key
        assert(forall|j: int| 1 <= j < r.len() ==> r[0].0 != #[trigger] r[j].0) by {
            assert(forall|j: int|
                0 <= j < tail_rec.len() ==> (#[trigger] tail_rec[j].0 == k || has_key(
                    ps.drop_first(),
                    tail_rec[j].0,
                )));
            assert(forall|i: int|
                0 <= i < ps.drop_first().len() ==> ps[0].0 != #[trigger] ps.drop_first()[i].0);
        }
        assert(forall|j: int| 0 <= j < r.len() ==> (r[j].0 == k || has_key(ps, #[trigger] r[j].0)))
            by {
            assert(forall|i: int|
                0 <= i < ps.drop_first().len() ==> #[trigger] ps.drop_first()[i] == ps[i + 1]);
        }
        assert(forall|i: int|
            0 <= i < ps.drop_first().len() ==> #[trigger] ps.drop_first()[i].0 != ps[0].0);
        assert(forall|i: int| 0 <= i < tail_rec.len() ==> #[trigger] tail_rec[i].0 != ps[0].0) by {
            assert(forall|i: int|
                0 <= i < tail_rec.len() ==> (#[trigger] tail_rec[i].0 == k || has_key(
                    ps.drop_first(),
                    tail_rec[i].0,
                )));
        }
        lemma_cons_map(ps[0], tail_rec);
        lemma_cons_map(ps[0], ps.drop_first());
        assert(ps =~= seq![ps[0]] + ps.drop_first());
        assert(pairs_map(ps) =~= pairs_map(ps.drop_first()).insert(ps[0].0, ps[0].1 as int));
        // k is not the head key, so its count ignores the head
        assert(count_of(pairs_map(ps), k) == count_of(pairs_map(ps.drop_first()), k));
        assert(pairs_map(r) =~= pairs_map(ps).insert(k, count_of(pairs_map(ps), k) + 1));
    }
}

/// Denotation of a tally list with its head replaced by a new count.
proof fn lemma_update_head_map<K>(ps: Seq<(K, usize)>, c: usize)
    requires
        distinct_keys(ps),
        ps.len() > 0,
    ensures
        pairs_map(ps.update(0, (ps[0].0, c))) =~= pairs_map(ps).insert(ps[0].0, c as int),
    decreases ps.len(),
{
    let u = ps.update(0, (ps[0].0, c));
    if ps.len() == 1 {
        assert(u.drop_last() =~= ps.drop_last());
    } else {
        assert(forall|a: int, b: int|
            0 <= a < b < ps.drop_last().len() ==> ps.drop_last()[a].0 != ps.drop_last()[b].0);
        lemma_update_head_map(ps.drop_last(), c);
        assert(u.drop_last() =~= ps.drop_last().update(0, (ps[0].0, c)));
        assert(u.last() == ps.last());
        assert(ps[0].0 != ps.last().0);
    }
}

/// Denotation of a tally list extended at the front with a fresh key.
proof fn lemma_cons_map<K>(head: (K, usize), tail: Seq<(K, usize)>)
    requires
        forall|i: int| 0 <= i < tail.len() ==> tail[i].0 != head.0,
    ensures
        pairs_map(seq![head] + tail) =~= pairs_map(tail).insert(head.0, head.1 as int),
    decreases tail.len(),
{
    let c = seq![head] + tail;
    if tail.len() == 0 {
        assert(c.len() == 1);
        assert(c.drop_last() =~= Seq::<(K, usize)>::empty());
        assert(c.last() == head);
        assert(pairs_map(c) == pairs_map(c.drop_last()).insert(c.last().0, c.last().1 as int));
        assert(pairs_map(c.drop_last()) == Map::<K, int>::empty());
        assert(pairs_map(tail) == Map::<K, int>::empty());
        assert(pairs_map(c) =~= pairs_map(tail).insert(head.0, head.1 as int));
    } else {
        assert(forall|i: int|
            0 <= i < tail.drop_last().len() ==> #[trigger] tail.drop_last()[i].0 != head.0);
        lemma_cons_map(head, tail.drop_last());
        assert(c.drop_last() =~= seq![head] + tail.drop_last());
        assert(c.last() == tail.last());
        assert(tail.last().0 != head.0);
        let a = pairs_map(tail.drop_last());
        let h0 = head.0;
        let hv = head.1 as int;
        let t0 = tail.last().0;
        let tv = tail.last().1 as int;
        assert(pairs_map(c) == a.insert(h0, hv).insert(t0, tv));
        assert(a.insert(h0, hv).insert(t0, tv) =~= a.insert(t0, tv).insert(h0, hv));
        assert(pairs_map(tail) == a.insert(t0, tv));
        assert(pairs_map(c) =~= pairs_map(tail).insert(head.0, head.1 as int));
    }
}

} // verus!
