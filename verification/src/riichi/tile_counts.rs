use vstd::prelude::*;
use super::tile::Tile;
use super::tiles_seq::{counts34, id_count, insert_sorted, kan_count, opt_key, some_count, sort_tiles, lemma_id_count_push};
use super::hand::seq_sum;

verus! {

/// How many tiles of a sequence have a property.
pub open spec fn tile_count(s: Seq<Tile>, p: spec_fn(Tile) -> bool) -> int
    decreases s.len(),
{
    if s.len() == 0 {
        0
    } else {
        tile_count(s.drop_last(), p) + if p(s.last()) { 1int } else { 0 }
    }
}

/// How many hand slots have a property.
pub open spec fn slot_count(s: Seq<Option<Tile>>, p: spec_fn(Option<Tile>) -> bool) -> int
    decreases s.len(),
{
    if s.len() == 0 {
        0
    } else {
        slot_count(s.drop_last(), p) + if p(s.last()) { 1int } else { 0 }
    }
}

/// A slot that holds a drawn tile.
pub open spec fn is_drawn(o: Option<Tile>) -> bool {
    o matches Some(t) && t.is_draw
}

pub proof fn lemma_tile_count_push(s: Seq<Tile>, x: Tile, p: spec_fn(Tile) -> bool)
    ensures
        tile_count(s.push(x), p) == tile_count(s, p) + if p(x) { 1int } else { 0 },
{
    assert(s.push(x).drop_last() =~= s);
}

pub proof fn lemma_tile_count_bounds(s: Seq<Tile>, p: spec_fn(Tile) -> bool)
    ensures
        0 <= tile_count(s, p) <= s.len(),
    decreases s.len(),
{
    if s.len() > 0 {
        lemma_tile_count_bounds(s.drop_last(), p);
    }
}

/// Removing a tile takes it out of the count.
pub proof fn lemma_tile_count_remove(s: Seq<Tile>, j: int, p: spec_fn(Tile) -> bool)
    requires
        0 <= j < s.len(),
    ensures
        tile_count(s, p) == tile_count(s.remove(j), p) + if p(s[j]) { 1int } else { 0 },
    decreases s.len(),
{
    if j == s.len() - 1 {
        assert(s.remove(j) =~= s.drop_last());
    } else {
        assert(s.remove(j).drop_last() =~= s.drop_last().remove(j));
        assert(s.remove(j).last() == s.last());
        lemma_tile_count_remove(s.drop_last(), j, p);
    }
}

/// Two sequences with the same tiles, in any order, have the same counts.
pub proof fn lemma_tile_count_permutation(a: Seq<Tile>, b: Seq<Tile>, p: spec_fn(Tile) -> bool)
    requires
        a.to_multiset() == b.to_multiset(),
    ensures
        tile_count(a, p) == tile_count(b, p),
    decreases a.len(),
{
    broadcast use vstd::seq_lib::group_to_multiset_ensures;
    if a.len() == 0 {
        assert(a.to_multiset().len() == 0);
        assert(b.len() == b.to_multiset().len());
    } else {
        let x = a.last();
        assert(a.drop_last().push(x) =~= a);
        assert(a.to_multiset().count(x) > 0);
        assert(b.contains(x));
        let j = choose|j: int| 0 <= j < b.len() && b[j] == x;
        assert(a.drop_last().to_multiset() =~= a.to_multiset().remove(x));
        assert(b.remove(j).to_multiset() =~= b.to_multiset().remove(x));
        lemma_tile_count_permutation(a.drop_last(), b.remove(j), p);
        lemma_tile_count_remove(b, j, p);
    }
}

/// A tile with a property that the count finds.
pub proof fn lemma_tile_count_witness(s: Seq<Tile>, p: spec_fn(Tile) -> bool)
    requires
        tile_count(s, p) > 0,
    ensures
        exists|k: int| 0 <= k < s.len() && p(#[trigger] s[k]),
    decreases s.len(),
{
    if !p(s.last()) {
        lemma_tile_count_witness(s.drop_last(), p);
        let k = choose|k: int| 0 <= k < s.drop_last().len() && p(#[trigger] s.drop_last()[k]);
        assert(s[k] == s.drop_last()[k]);
    } else {
        assert(p(s[s.len() - 1]));
    }
}

pub proof fn lemma_slot_count_push(s: Seq<Option<Tile>>, x: Option<Tile>, p: spec_fn(Option<Tile>) -> bool)
    ensures
        slot_count(s.push(x), p) == slot_count(s, p) + if p(x) { 1int } else { 0 },
{
    assert(s.push(x).drop_last() =~= s);
}

/// Inserting a slot adds it to a count.
pub proof fn lemma_slot_count_insert(s: Seq<Option<Tile>>, x: Option<Tile>, p: spec_fn(Option<Tile>) -> bool)
    ensures
        slot_count(insert_sorted(s, x), p) == slot_count(s, p) + if p(x) { 1int } else { 0 },
    decreases s.len(),
{
    if s.len() == 0 {
        assert(insert_sorted(s, x) == s.push(x));
        lemma_slot_count_push(s, x, p);
    } else if opt_key(s.last()) <= opt_key(x) {
        lemma_slot_count_push(s, x, p);
    } else {
        lemma_slot_count_insert(s.drop_last(), x, p);
        lemma_slot_count_push(insert_sorted(s.drop_last(), x), s.last(), p);
        lemma_slot_count_push(s.drop_last(), s.last(), p);
        assert(s.drop_last().push(s.last()) =~= s);
    }
}

/// Sorting keeps every count.
pub proof fn lemma_slot_count_sort(s: Seq<Option<Tile>>, p: spec_fn(Option<Tile>) -> bool)
    ensures
        slot_count(sort_tiles(s), p) == slot_count(s, p),
    decreases s.len(),
{
    if s.len() > 0 {
        lemma_slot_count_sort(s.drop_last(), p);
        lemma_slot_count_insert(sort_tiles(s.drop_last()), s.last(), p);
        lemma_slot_count_push(s.drop_last(), s.last(), p);
        assert(s.drop_last().push(s.last()) =~= s);
    }
}

/// The kan count is the count of kan slots.
pub proof fn lemma_kan_count_slots(s: Seq<Option<Tile>>)
    ensures
        kan_count(s) == slot_count(s, |o: Option<Tile>| o matches Some(t) && t.is_kan),
        some_count(s) == slot_count(s, |o: Option<Tile>| o is Some),
    decreases s.len(),
{
    if s.len() > 0 {
        lemma_kan_count_slots(s.drop_last());
    }
}

/// A sum changes by what one of its terms does.
pub proof fn lemma_seq_sum_update(a: Seq<int>, k: int, v: int)
    requires
        0 <= k < a.len(),
    ensures
        seq_sum(a.update(k, v)) == seq_sum(a) - a[k] + v,
    decreases a.len(),
{
    if k == a.len() - 1 {
        assert(a.update(k, v).drop_last() =~= a.drop_last());
    } else {
        assert(a.update(k, v).drop_last() =~= a.drop_last().update(k, v));
        lemma_seq_sum_update(a.drop_last(), k, v);
    }
}

pub proof fn lemma_seq_sum_zeros(n: nat)
    ensures
        seq_sum(Seq::new(n, |k: int| 0int)) == 0,
    decreases n,
{
    if n > 0 {
        assert(Seq::new(n, |k: int| 0int).drop_last() =~= Seq::new((n - 1) as nat, |k: int| 0int));
        lemma_seq_sum_zeros((n - 1) as nat);
    }
}

/// The 34 counts of slots that all hold real tiles add up to the number of slots.
pub proof fn lemma_counts34_sum(s: Seq<Option<Tile>>)
    requires
        forall|i: int| 0 <= i < s.len() ==> (#[trigger] s[i] matches Some(t) && t.valid()),
    ensures
        seq_sum(counts34(s, false)) == s.len(),
        some_count(s) == s.len(),
    decreases s.len(),
{
    if s.len() == 0 {
        assert(counts34(s, false) =~= Seq::new(34, |k: int| 0int));
        lemma_seq_sum_zeros(34);
    } else {
        let d = s.drop_last();
        let x = s.last();
        assert(s[s.len() - 1] == x);
        assert forall|i: int| 0 <= i < d.len() implies (#[trigger] d[i] matches Some(t) && t.valid()) by {
            assert(d[i] == s[i]);
        }
        lemma_counts34_sum(d);
        let id = x->0.spec_id();
        assert(1 <= id <= 34);
        let c = counts34(d, false);
        assert forall|k: int| 0 <= k < 34 implies #[trigger] counts34(s, false)[k] == c.update(id - 1, c[id - 1] + 1)[k] by {
            lemma_id_count_push(d, x, k + 1, false);
            assert(d.push(x) =~= s);
        }
        assert(counts34(s, false) =~= c.update(id - 1, c[id - 1] + 1));
        lemma_seq_sum_update(c, id - 1, c[id - 1] + 1);
    }
}

/// Slots without a kan tile have a kan count of zero.
pub proof fn lemma_no_kans(s: Seq<Option<Tile>>)
    requires
        forall|i: int| 0 <= i < s.len() ==> !(#[trigger] s[i] matches Some(t) && t.is_kan),
    ensures
        kan_count(s) == 0,
    decreases s.len(),
{
    if s.len() > 0 {
        assert(s[s.len() - 1] == s.last());
        assert forall|i: int| 0 <= i < s.drop_last().len() implies !(#[trigger] s.drop_last()[i] matches Some(t) && t.is_kan) by {
            assert(s.drop_last()[i] == s[i]);
        }
        lemma_no_kans(s.drop_last());
    }
}

/// A sum of terms that are each at least `m`.
pub proof fn lemma_seq_sum_lower(a: Seq<int>, m: int)
    requires
        forall|k: int| 0 <= k < a.len() ==> #[trigger] a[k] >= m,
    ensures
        seq_sum(a) >= a.len() * m,
    decreases a.len(),
{
    if a.len() > 0 {
        assert forall|k: int| 0 <= k < a.drop_last().len() implies #[trigger] a.drop_last()[k] >= m by {
            assert(a.drop_last()[k] == a[k]);
        }
        lemma_seq_sum_lower(a.drop_last(), m);
        assert(a[a.len() - 1] >= m);
        let n = a.len() as int;
        assert((n - 1) * m + m == n * m) by (nonlinear_arith);
    }
}

} // verus!
