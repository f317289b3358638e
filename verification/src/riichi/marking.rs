use vstd::prelude::*;
use super::tile::Tile;
use super::tiles_seq::{tiles_wf, insert_sorted, sort_tiles, opt_key};

verus! {

/// How the tiles of a call are marked in the hand.
#[derive(Debug, Clone, Copy, PartialEq, Eq, Structural)]
pub enum CallKind {
    Chi,
    Pon,
    OpenKan,
    ClosedKan,
}

/// A slot holding a tile of this type that no call has taken yet.
pub open spec fn markable(o: Option<Tile>, key: int) -> bool {
    o matches Some(t) && t.spec_key() == key && !t.is_open && !t.is_kan
}

/// The tile with the flags of a call set.
pub open spec fn marked(t: Tile, kind: CallKind) -> Tile {
    match kind {
        CallKind::Chi => Tile { is_open: true, is_chi: true, ..t },
        CallKind::Pon => Tile { is_open: true, is_pon: true, ..t },
        CallKind::OpenKan => Tile { is_open: true, is_kan: true, ..t },
        CallKind::ClosedKan => Tile { is_open: false, is_kan: true, ..t },
    }
}

/// The first slot from `from` on that is markable for this type, or -1.
pub open spec fn find_markable(s: Seq<Option<Tile>>, key: int, from: int) -> int
    decreases s.len() - from,
{
    if from < 0 || from >= s.len() {
        -1
    } else if markable(s[from], key) {
        from
    } else {
        find_markable(s, key, from + 1)
    }
}

/// Marks the tiles of `need` one after the other, each in the first slot that can take it;
/// `None` where one of them finds no slot.
pub open spec fn mark_all(s: Seq<Option<Tile>>, need: Seq<Tile>, kind: CallKind) -> Option<Seq<Option<Tile>>>
    decreases need.len(),
{
    if need.len() == 0 {
        Some(s)
    } else {
        match mark_all(s, need.drop_last(), kind) {
            None => None,
            Some(s1) => {
                let i = find_markable(s1, need.last().spec_key(), 0);
                if i < 0 {
                    None
                } else {
                    Some(s1.update(i, Some(marked(s1[i].unwrap(), kind))))
                }
            },
        }
    }
}

/// How many slots are markable for this type.
pub open spec fn free_count(s: Seq<Option<Tile>>, key: int) -> int
    decreases s.len(),
{
    if s.len() == 0 {
        0
    } else {
        free_count(s.drop_last(), key) + if markable(s.last(), key) { 1int } else { 0 }
    }
}

/// How many tiles of this type a list holds.
pub open spec fn key_count(need: Seq<Tile>, key: int) -> int
    decreases need.len(),
{
    if need.len() == 0 {
        0
    } else {
        key_count(need.drop_last(), key) + if need.last().spec_key() == key { 1int } else { 0 }
    }
}

/// The tiles of a list, each in a slot of its own.
pub open spec fn as_slots(need: Seq<Tile>) -> Seq<Option<Tile>> {
    Seq::new(need.len(), |i: int| Some(need[i]))
}

/// No tile of the list has been taken by a call.
pub open spec fn all_free(need: Seq<Tile>) -> bool {
    forall|i: int| 0 <= i < need.len() ==> !(#[trigger] need[i]).is_open && !need[i].is_kan
}

pub proof fn lemma_find_first(s: Seq<Option<Tile>>, key: int, from: int, i: int)
    requires
        0 <= from <= i < s.len(),
        markable(s[i], key),
        forall|j: int| from <= j < i ==> !markable(#[trigger] s[j], key),
    ensures
        find_markable(s, key, from) == i,
    decreases i - from,
{
    if from < i {
        lemma_find_first(s, key, from + 1, i);
    }
}

pub proof fn lemma_find_none(s: Seq<Option<Tile>>, key: int, from: int)
    requires
        0 <= from,
        forall|j: int| from <= j < s.len() ==> !markable(#[trigger] s[j], key),
    ensures
        find_markable(s, key, from) == -1,
    decreases s.len() - from,
{
    if from < s.len() {
        lemma_find_none(s, key, from + 1);
    }
}

pub proof fn lemma_find_bounds(s: Seq<Option<Tile>>, key: int, from: int)
    ensures
        find_markable(s, key, from) == -1 || (from <= find_markable(s, key, from) < s.len()
            && markable(s[find_markable(s, key, from)], key)),
    decreases s.len() - from,
{
    if 0 <= from < s.len() && !markable(s[from], key) {
        lemma_find_bounds(s, key, from + 1);
    }
}

pub proof fn lemma_free_count_positive(s: Seq<Option<Tile>>, key: int)
    requires
        free_count(s, key) > 0,
    ensures
        find_markable(s, key, 0) >= 0,
    decreases s.len(),
{
    if forall|j: int| 0 <= j < s.len() ==> !markable(#[trigger] s[j], key) {
        lemma_free_count_zero(s, key);
    } else {
        lemma_find_bounds(s, key, 0);
        let j = choose|j: int| 0 <= j < s.len() && markable(#[trigger] s[j], key);
        if find_markable(s, key, 0) < 0 {
            assert forall|k: int| 0 <= k < s.len() implies !markable(#[trigger] s[k], key) by {
                lemma_find_not_before(s, key, 0, k);
            }
        }
    }
}

proof fn lemma_find_not_before(s: Seq<Option<Tile>>, key: int, from: int, k: int)
    requires
        0 <= from <= k < s.len(),
        find_markable(s, key, from) == -1,
    ensures
        !markable(s[k], key),
    decreases k - from,
{
    if from < k {
        lemma_find_not_before(s, key, from + 1, k);
    }
}

proof fn lemma_free_count_zero(s: Seq<Option<Tile>>, key: int)
    requires
        forall|j: int| 0 <= j < s.len() ==> !markable(#[trigger] s[j], key),
    ensures
        free_count(s, key) == 0,
    decreases s.len(),
{
    if s.len() > 0 {
        assert(!markable(s[s.len() - 1], key));
        lemma_free_count_zero(s.drop_last(), key);
    }
}

pub proof fn lemma_free_count_update(s: Seq<Option<Tile>>, i: int, v: Option<Tile>, key: int)
    requires
        0 <= i < s.len(),
    ensures
        free_count(s.update(i, v), key) == free_count(s, key) - (if markable(s[i], key) { 1int } else { 0 })
            + (if markable(v, key) { 1int } else { 0 }),
    decreases s.len(),
{
    let u = s.update(i, v);
    if i == s.len() - 1 {
        assert(u.drop_last() =~= s.drop_last());
    } else {
        assert(u.drop_last() =~= s.drop_last().update(i, v));
        lemma_free_count_update(s.drop_last(), i, v, key);
    }
}

pub proof fn lemma_free_count_concat(a: Seq<Option<Tile>>, b: Seq<Option<Tile>>, key: int)
    ensures
        free_count(a + b, key) == free_count(a, key) + free_count(b, key),
    decreases b.len(),
{
    if b.len() == 0 {
        assert(a + b =~= a);
    } else {
        assert((a + b).drop_last() =~= a + b.drop_last());
        lemma_free_count_concat(a, b.drop_last(), key);
    }
}

pub proof fn lemma_free_count_slots(need: Seq<Tile>, key: int)
    requires
        all_free(need),
    ensures
        free_count(as_slots(need), key) == key_count(need, key),
    decreases need.len(),
{
    if need.len() > 0 {
        assert(as_slots(need).drop_last() =~= as_slots(need.drop_last()));
        assert(need[need.len() - 1] == need.last());
        lemma_free_count_slots(need.drop_last(), key);
    }
}

pub proof fn lemma_free_count_insert(s: Seq<Option<Tile>>, x: Option<Tile>, key: int)
    ensures
        free_count(insert_sorted(s, x), key) == free_count(s, key) + (if markable(x, key) { 1int } else { 0 }),
    decreases s.len(),
{
    if s.len() == 0 {
        assert(seq![x].drop_last() =~= Seq::<Option<Tile>>::empty());
        assert(free_count(Seq::<Option<Tile>>::empty(), key) == 0);
        assert(insert_sorted(s, x) == seq![x]);
        assert(seq![x].last() == x);
    } else if opt_key(s.last()) <= opt_key(x) {
        assert(s.push(x).drop_last() =~= s);
    } else {
        lemma_free_count_insert(s.drop_last(), x, key);
        let r = insert_sorted(s.drop_last(), x);
        assert(r.push(s.last()).drop_last() =~= r);
        assert(r.push(s.last()).last() == s.last());
        assert(free_count(r.push(s.last()), key) == free_count(r, key) + (if markable(s.last(), key) { 1int } else { 0 }));
        assert(insert_sorted(s, x) == r.push(s.last()));
    }
}

pub proof fn lemma_free_count_sort(s: Seq<Option<Tile>>, key: int)
    ensures
        free_count(sort_tiles(s), key) == free_count(s, key),
    decreases s.len(),
{
    if s.len() > 0 {
        lemma_free_count_sort(s.drop_last(), key);
        lemma_free_count_insert(sort_tiles(s.drop_last()), s.last(), key);
    }
}

/// Where every type has at least as many free slots as the list needs, marking succeeds and
/// takes exactly the needed slots.
pub proof fn lemma_mark_all_succeeds(s: Seq<Option<Tile>>, need: Seq<Tile>, kind: CallKind)
    requires
        forall|key: int| #[trigger] free_count(s, key) >= key_count(need, key),
    ensures
        mark_all(s, need, kind) is Some,
        forall|key: int| #[trigger] free_count(mark_all(s, need, kind).unwrap(), key) == free_count(s, key) - key_count(need, key),
        mark_all(s, need, kind).unwrap().len() == s.len(),
    decreases need.len(),
{
    if need.len() > 0 {
        let x = need.last();
        assert forall|key: int| #[trigger] free_count(s, key) >= key_count(need.drop_last(), key) by {
            assert(free_count(s, key) >= key_count(need, key));
        }
        lemma_mark_all_succeeds(s, need.drop_last(), kind);
        let s1 = mark_all(s, need.drop_last(), kind).unwrap();
        assert(free_count(s, x.spec_key()) >= key_count(need, x.spec_key()));
        assert(free_count(s1, x.spec_key()) >= 1);
        lemma_free_count_positive(s1, x.spec_key());
        lemma_find_bounds(s1, x.spec_key(), 0);
        let i = find_markable(s1, x.spec_key(), 0);
        let v = Some(marked(s1[i].unwrap(), kind));
        assert forall|key: int| #[trigger] free_count(mark_all(s, need, kind).unwrap(), key) == free_count(s, key) - key_count(need, key) by {
            lemma_free_count_update(s1, i, v, key);
            assert(free_count(s1, key) == free_count(s, key) - key_count(need.drop_last(), key));
        }
    }
}

pub proof fn lemma_mark_all_prefix(s: Seq<Option<Tile>>, need: Seq<Tile>, kind: CallKind, k: int)
    requires
        0 <= k <= need.len(),
        mark_all(s, need, kind) is Some,
    ensures
        mark_all(s, need.take(k), kind) is Some,
    decreases need.len(),
{
    if k < need.len() {
        assert(need.drop_last().take(k) =~= need.take(k));
        lemma_mark_all_prefix(s, need.drop_last(), kind, k);
    } else {
        assert(need.take(k) =~= need);
    }
}

/// Marking keeps every slot's tile type, and which slots are empty.
pub proof fn lemma_mark_all_types(s: Seq<Option<Tile>>, need: Seq<Tile>, kind: CallKind)
    requires
        mark_all(s, need, kind) is Some,
    ensures
        mark_all(s, need, kind).unwrap().len() == s.len(),
        forall|i: int| 0 <= i < s.len() ==> (#[trigger] mark_all(s, need, kind).unwrap()[i] is Some) == (s[i] is Some),
        forall|i: int| 0 <= i < s.len() && s[i] is Some ==> (#[trigger] mark_all(s, need, kind).unwrap()[i]).unwrap().tile_type == s[i].unwrap().tile_type,
    decreases need.len(),
{
    if need.len() > 0 {
        lemma_mark_all_types(s, need.drop_last(), kind);
        let s1 = mark_all(s, need.drop_last(), kind).unwrap();
        lemma_find_bounds(s1, need.last().spec_key(), 0);
    }
}

/// How many tiles of this type a list holds is the sum over its two parts.
pub proof fn lemma_key_count_concat(a: Seq<Tile>, b: Seq<Tile>, key: int)
    ensures
        key_count(a + b, key) == key_count(a, key) + key_count(b, key),
    decreases b.len(),
{
    if b.len() == 0 {
        assert(a + b =~= a);
    } else {
        assert((a + b).drop_last() =~= a + b.drop_last());
        lemma_key_count_concat(a, b.drop_last(), key);
    }
}

pub proof fn lemma_free_count_nonneg(s: Seq<Option<Tile>>, key: int)
    ensures
        free_count(s, key) >= 0,
    decreases s.len(),
{
    if s.len() > 0 {
        lemma_free_count_nonneg(s.drop_last(), key);
    }
}

pub proof fn lemma_key_count_nonneg(s: Seq<Tile>, key: int)
    ensures
        key_count(s, key) >= 0,
    decreases s.len(),
{
    if s.len() > 0 {
        lemma_key_count_nonneg(s.drop_last(), key);
    }
}

/// Marks the tiles of a call in the hand slots.
pub fn mark_call(tiles: &mut Vec<Option<Tile>>, need: &[Tile], kind: CallKind)
    requires
        mark_all(old(tiles)@, need@, kind) is Some,
    ensures
        final(tiles)@ == mark_all(old(tiles)@, need@, kind).unwrap(),
        tiles_wf(old(tiles)@) ==> tiles_wf(final(tiles)@),
{
    let ghost orig = tiles@;
    let mut k: usize = 0;
    while k < need.len()
        invariant
            orig == old(tiles)@,
            k <= need@.len(),
            mark_all(orig, need@, kind) is Some,
            mark_all(orig, need@.take(k as int), kind) == Some(tiles@),
            tiles_wf(orig) ==> tiles_wf(tiles@),
        decreases need.len() - k,
    {
        let tile = need[k];
        let ghost key = tile.spec_key();
        proof {
            assert(need@.take(k + 1).drop_last() =~= need@.take(k as int));
            assert(need@.take(k + 1).last() == tile);
            lemma_mark_all_prefix(orig, need@, kind, k + 1);
        }
        let mut i: usize = 0;
        while i < tiles.len()
            invariant
                i <= tiles@.len(),
                key == tile.spec_key(),
                forall|j: int| 0 <= j < i ==> !markable(#[trigger] tiles@[j], key),
            ensures
                i <= tiles@.len(),
                forall|j: int| 0 <= j < i ==> !markable(#[trigger] tiles@[j], key),
                i < tiles@.len() ==> markable(tiles@[i as int], key),
            decreases tiles.len() - i,
        {
            if let Some(t) = &tiles[i] {
                if t.ord_key() == tile.ord_key() && !t.is_open && !t.is_kan {
                    break;
                }
            }
            i = i + 1;
        }
        if i == tiles.len() {
            proof { lemma_find_none(tiles@, key, 0); }
            assert(false);
        }
        proof { lemma_find_first(tiles@, key, 0, i as int); }
        let mut t = tiles[i].unwrap();
        match kind {
            CallKind::Chi => {
                t.is_open = true;
                t.is_chi = true;
            },
            CallKind::Pon => {
                t.is_open = true;
                t.is_pon = true;
            },
            CallKind::OpenKan => {
                t.is_open = true;
                t.is_kan = true;
            },
            CallKind::ClosedKan => {
                t.is_open = false;
                t.is_kan = true;
            },
        }
        tiles.set(i, Some(t));
        k = k + 1;
    }
    assert(need@.take(k as int) =~= need@);
}

} // verus!
