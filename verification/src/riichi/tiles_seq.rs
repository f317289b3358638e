use vstd::prelude::*;
use super::tile::{Tile, TileType};

verus! {

/// The order of hand slots: an empty slot first, then tiles by type.
pub open spec fn opt_key(o: Option<Tile>) -> int {
    match o {
        None => 0,
        Some(t) => t.spec_key() + 1,
    }
}

/// Inserts `x` into `s` after every element that does not come after it.
pub open spec fn insert_sorted(s: Seq<Option<Tile>>, x: Option<Tile>) -> Seq<Option<Tile>>
    decreases s.len(),
{
    if s.len() == 0 {
        seq![x]
    } else if opt_key(s.last()) <= opt_key(x) {
        s.push(x)
    } else {
        insert_sorted(s.drop_last(), x).push(s.last())
    }
}

/// The stable sort of hand slots by type.
pub open spec fn sort_tiles(s: Seq<Option<Tile>>) -> Seq<Option<Tile>>
    decreases s.len(),
{
    if s.len() == 0 {
        s
    } else {
        insert_sorted(sort_tiles(s.drop_last()), s.last())
    }
}

/// Hand slots that hold only real tiles, few enough that each count fits in a byte.
pub open spec fn tiles_wf(s: Seq<Option<Tile>>) -> bool {
    &&& s.len() < 256
    &&& forall|i: int| 0 <= i < s.len() ==> (#[trigger] s[i] matches Some(t) ==> t.valid())
}

/// Whether a slot is counted when open and kan tiles are left out.
pub open spec fn counted(t: Tile, remove_open_tiles: bool) -> bool {
    !(remove_open_tiles && (t.is_open || t.is_kan))
}

/// How many slots hold a tile of this id (leaving out open and kan tiles if asked).
pub open spec fn id_count(s: Seq<Option<Tile>>, id: int, remove_open_tiles: bool) -> int
    decreases s.len(),
{
    if s.len() == 0 {
        0
    } else {
        id_count(s.drop_last(), id, remove_open_tiles) + match s.last() {
            Some(t) => if t.spec_id() == id && counted(t, remove_open_tiles) { 1int } else { 0 },
            None => 0,
        }
    }
}

/// The 34 counts by id.
pub open spec fn counts34(s: Seq<Option<Tile>>, remove_open_tiles: bool) -> Seq<int> {
    Seq::new(34, |k: int| id_count(s, k + 1, remove_open_tiles))
}

/// How many slots hold a tile.
pub open spec fn some_count(s: Seq<Option<Tile>>) -> int
    decreases s.len(),
{
    if s.len() == 0 {
        0
    } else {
        some_count(s.drop_last()) + if s.last() is Some { 1int } else { 0 }
    }
}

/// How many slots hold a kan tile.
pub open spec fn kan_count(s: Seq<Option<Tile>>) -> int
    decreases s.len(),
{
    if s.len() == 0 {
        0
    } else {
        kan_count(s.drop_last()) + if s.last() matches Some(t) && t.is_kan { 1int } else { 0 }
    }
}

pub proof fn lemma_counts_bounded(s: Seq<Option<Tile>>, id: int, r: bool)
    ensures
        0 <= id_count(s, id, r) <= s.len(),
        0 <= kan_count(s) <= some_count(s) <= s.len(),
    decreases s.len(),
{
    if s.len() > 0 {
        lemma_counts_bounded(s.drop_last(), id, r);
    }
}

pub fn opt_tile_key(o: &Option<Tile>) -> (k: u32)
    ensures
        k == opt_key(*o),
{
    match o {
        None => 0,
        Some(t) => t.ord_key() + 1,
    }
}

/// Sorts hand slots by type, keeping the order of slots of the same type.
pub fn sort_slots(v: &mut Vec<Option<Tile>>)
    ensures
        final(v)@ == sort_tiles(old(v)@),
{
    let ghost orig = v@;
    let n = v.len();
    let mut i: usize = 0;
    while i < n
        invariant
            orig == old(v)@,
            n == orig.len(),
            v@.len() == n,
            i <= n,
            v@.take(i as int) == sort_tiles(orig.take(i as int)),
            v@.skip(i as int) == orig.skip(i as int),
        decreases n - i,
    {
        let ghost p = sort_tiles(orig.take(i as int));
        let ghost x = orig[i as int];
        proof {
            assert(v@[i as int] == orig.skip(i as int)[0]);
            assert(orig.take(i + 1).drop_last() =~= orig.take(i as int));
            assert(orig.take(i + 1).last() == x);
            lemma_sort_len(orig.take(i as int));
        }
        proof {
            assert forall|k: int| 0 <= k < v@.skip(i as int + 1).len() implies #[trigger] v@.skip(i as int + 1)[k] == orig.skip(i as int + 1)[k] by {
                assert(v@.skip(i as int)[k + 1] == orig.skip(i as int)[k + 1]);
            }
            assert(v@.skip(i as int + 1) =~= orig.skip(i as int + 1));
            assert(p.take(i as int) =~= p);
            assert(insert_sorted(p, x) + p.subrange(i as int, i as int) =~= insert_sorted(p, x));
            assert(v@.take(i as int) =~= p.take(i as int));
        }
        let mut j: usize = i;
        while j > 0 && opt_tile_key(&v[j - 1]) > opt_tile_key(&v[j])
            invariant
                v@.len() == n,
                i < n,
                j <= i,
                p.len() == i,
                v@.take(j as int) == p.take(j as int),
                v@[j as int] == x,
                v@.subrange(j as int + 1, i as int + 1) == p.subrange(j as int, i as int),
                v@.skip(i as int + 1) == orig.skip(i as int + 1),
                insert_sorted(p, x) == insert_sorted(p.take(j as int), x) + p.subrange(j as int, i as int),
            decreases j,
        {
            let a = v[j - 1];
            let b = v[j];
            proof {
                assert(a == p[j - 1]) by {
                    assert(v@.take(j as int)[j - 1] == p.take(j as int)[j - 1]);
                }
                let pj = p.take(j as int);
                assert(pj.drop_last() =~= p.take(j - 1));
                assert(pj.last() == p[j - 1]);
                assert(insert_sorted(pj, x) == insert_sorted(p.take(j - 1), x).push(p[j - 1]));
                assert(insert_sorted(p.take(j - 1), x).push(p[j - 1]) + p.subrange(j as int, i as int)
                    =~= insert_sorted(p.take(j - 1), x) + p.subrange(j - 1, i as int));
            }
            let ghost old_v = v@;
            v.set(j - 1, b);
            v.set(j, a);
            j = j - 1;
            proof {
                assert(v@.take(j as int) =~= p.take(j as int)) by {
                    assert forall|k: int| 0 <= k < j implies v@[k] == p[k] by {
                        assert(old_v.take(j + 1)[k] == p.take(j + 1)[k]);
                    }
                }
                assert forall|k: int| 0 <= k < i - j implies v@.subrange(j as int + 1, i as int + 1)[k] == p.subrange(j as int, i as int)[k] by {
                    if k > 0 {
                        assert(old_v.subrange(j as int + 2, i as int + 1)[k - 1] == p.subrange(j as int + 1, i as int)[k - 1]);
                    }
                }
                assert(v@.subrange(j as int + 1, i as int + 1) =~= p.subrange(j as int, i as int));
                assert(v@.skip(i as int + 1) =~= orig.skip(i as int + 1));
            }
        }
        proof {
            let pj = p.take(j as int);
            if j > 0 {
                assert(v@[j - 1] == p[j - 1]) by {
                    assert(v@.take(j as int)[j - 1] == p.take(j as int)[j - 1]);
                }
                assert(pj.last() == p[j - 1]);
                assert(insert_sorted(pj, x) == pj.push(x));
            } else {
                assert(pj =~= Seq::<Option<Tile>>::empty());
                assert(insert_sorted(pj, x) == seq![x]);
            }
            assert(v@.take(i + 1) =~= insert_sorted(pj, x) + p.subrange(j as int, i as int));
            assert(sort_tiles(orig.take(i + 1)) == insert_sorted(p, x));
        }
        i = i + 1;
        proof {
            assert(v@.skip(i as int) =~= orig.skip(i as int));
        }
    }
    proof {
        assert(v@ =~= v@.take(n as int));
        assert(orig =~= orig.take(n as int));
    }
}

pub proof fn lemma_insert_len(s: Seq<Option<Tile>>, x: Option<Tile>)
    ensures
        insert_sorted(s, x).len() == s.len() + 1,
    decreases s.len(),
{
    if s.len() > 0 {
        lemma_insert_len(s.drop_last(), x);
    }
}

pub proof fn lemma_sort_len(s: Seq<Option<Tile>>)
    ensures
        sort_tiles(s).len() == s.len(),
    decreases s.len(),
{
    if s.len() > 0 {
        lemma_sort_len(s.drop_last());
        lemma_insert_len(sort_tiles(s.drop_last()), s.last());
    }
}

/// Inserting keeps a property that every slot and the new one have.
pub proof fn lemma_insert_preserves(s: Seq<Option<Tile>>, x: Option<Tile>, p: spec_fn(Option<Tile>) -> bool)
    requires
        forall|i: int| 0 <= i < s.len() ==> p(#[trigger] s[i]),
        p(x),
    ensures
        forall|i: int| 0 <= i < insert_sorted(s, x).len() ==> p(#[trigger] insert_sorted(s, x)[i]),
    decreases s.len(),
{
    lemma_insert_len(s, x);
    if s.len() == 0 {
        assert(insert_sorted(s, x) == seq![x]);
    } else if opt_key(s.last()) <= opt_key(x) {
        assert(insert_sorted(s, x) == s.push(x));
        assert forall|i: int| 0 <= i < insert_sorted(s, x).len() implies p(#[trigger] insert_sorted(s, x)[i]) by {
            if i < s.len() {
                assert(insert_sorted(s, x)[i] == s[i]);
            }
        }
    } else {
        let d = s.drop_last();
        assert forall|i: int| 0 <= i < d.len() implies p(#[trigger] d[i]) by {
            assert(d[i] == s[i]);
        }
        lemma_insert_preserves(d, x, p);
        let r = insert_sorted(d, x);
        assert(insert_sorted(s, x) == r.push(s.last()));
        assert forall|i: int| 0 <= i < insert_sorted(s, x).len() implies p(#[trigger] insert_sorted(s, x)[i]) by {
            if i < r.len() {
                assert(insert_sorted(s, x)[i] == r[i]);
            } else {
                assert(s.last() == s[s.len() - 1]);
            }
        }
    }
}

/// Sorting keeps a property of every slot.
pub proof fn lemma_sort_preserves(s: Seq<Option<Tile>>, p: spec_fn(Option<Tile>) -> bool)
    requires
        forall|i: int| 0 <= i < s.len() ==> p(#[trigger] s[i]),
    ensures
        forall|i: int| 0 <= i < sort_tiles(s).len() ==> p(#[trigger] sort_tiles(s)[i]),
        sort_tiles(s).len() == s.len(),
    decreases s.len(),
{
    lemma_sort_len(s);
    if s.len() > 0 {
        let d = s.drop_last();
        assert forall|i: int| 0 <= i < d.len() implies p(#[trigger] d[i]) by {
            assert(d[i] == s[i]);
        }
        lemma_sort_preserves(d, p);
        assert(s.last() == s[s.len() - 1]);
        lemma_insert_preserves(sort_tiles(d), s.last(), p);
    }
}

/// Sorting keeps well-formed slots well formed.
pub proof fn lemma_sort_wf(s: Seq<Option<Tile>>)
    requires
        tiles_wf(s),
    ensures
        tiles_wf(sort_tiles(s)),
        sort_tiles(s).len() == s.len(),
{
    let p = |o: Option<Tile>| o matches Some(t) ==> t.valid();
    assert forall|i: int| 0 <= i < s.len() implies p(#[trigger] s[i]) by {}
    lemma_sort_preserves(s, p);
    assert forall|i: int| 0 <= i < sort_tiles(s).len() implies (#[trigger] sort_tiles(s)[i] matches Some(t) ==> t.valid()) by {
        assert(p(sort_tiles(s)[i]));
    }
}

/// 1 where the slot holds a counted tile of this id, else 0.
pub open spec fn slot_in(x: Option<Tile>, id: int, r: bool) -> int {
    match x {
        Some(t) => if t.spec_id() == id && counted(t, r) { 1int } else { 0 },
        None => 0,
    }
}

pub proof fn lemma_id_count_push(s: Seq<Option<Tile>>, x: Option<Tile>, id: int, r: bool)
    ensures
        id_count(s.push(x), id, r) == id_count(s, id, r) + slot_in(x, id, r),
{
    assert(s.push(x).drop_last() =~= s);
    assert(s.push(x).last() == x);
}

/// Inserting a slot adds it to the count of its id.
pub proof fn lemma_id_count_insert(s: Seq<Option<Tile>>, x: Option<Tile>, id: int, r: bool)
    ensures
        id_count(insert_sorted(s, x), id, r) == id_count(s, id, r) + slot_in(x, id, r),
    decreases s.len(),
{
    if s.len() == 0 {
        assert(insert_sorted(s, x) == s.push(x));
        lemma_id_count_push(s, x, id, r);
    } else if opt_key(s.last()) <= opt_key(x) {
        lemma_id_count_push(s, x, id, r);
    } else {
        lemma_id_count_insert(s.drop_last(), x, id, r);
        let q = insert_sorted(s.drop_last(), x);
        lemma_id_count_push(q, s.last(), id, r);
        lemma_id_count_push(s.drop_last(), s.last(), id, r);
        assert(s.drop_last().push(s.last()) =~= s);
    }
}

/// Sorting keeps the count of each id.
pub proof fn lemma_id_count_sort(s: Seq<Option<Tile>>, id: int, r: bool)
    ensures
        id_count(sort_tiles(s), id, r) == id_count(s, id, r),
    decreases s.len(),
{
    if s.len() > 0 {
        lemma_id_count_sort(s.drop_last(), id, r);
        lemma_id_count_insert(sort_tiles(s.drop_last()), s.last(), id, r);
        lemma_id_count_push(s.drop_last(), s.last(), id, r);
        assert(s.drop_last().push(s.last()) =~= s);
    }
}

/// Removing a slot does not raise the count of any id.
pub proof fn lemma_id_count_remove(s: Seq<Option<Tile>>, j: int, id: int, r: bool)
    requires
        0 <= j < s.len(),
    ensures
        id_count(s.remove(j), id, r) <= id_count(s, id, r),
    decreases s.len(),
{
    if j == s.len() - 1 {
        assert(s.remove(j) =~= s.drop_last());
    } else {
        assert(s.remove(j).drop_last() =~= s.drop_last().remove(j));
        assert(s.remove(j).last() == s.last());
        lemma_id_count_remove(s.drop_last(), j, id, r);
    }
}

/// Leaving out open and kan tiles does not raise a count.
pub proof fn lemma_id_count_free_le(s: Seq<Option<Tile>>, id: int)
    ensures
        id_count(s, id, true) <= id_count(s, id, false),
    decreases s.len(),
{
    if s.len() > 0 {
        lemma_id_count_free_le(s.drop_last(), id);
    }
}

} // verus!
