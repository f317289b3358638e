use vstd::prelude::*;
use super::tile::{Tile, blank, type_of_id, lemma_type_of_id};
use super::tiles_seq::{tiles_wf, sort_tiles, id_count, slot_in, lemma_sort_wf, lemma_id_count_sort, lemma_id_count_push,
    lemma_id_count_free_le, lemma_sort_len};
use super::hand::{Hand, open_shapes, hand_size, first_drawn, free_with_id, first_free_with_id};
use super::improving::{improving_views, slots_shanten, option_view, Option13};
use super::table::Table;
use super::yaku::{winning_tile, lemma_first_drawn_unique};

verus! {

/// The slots without any tile of this id.
pub open spec fn without_id(s: Seq<Option<Tile>>, id: int) -> Seq<Option<Tile>>
    decreases s.len(),
{
    if s.len() == 0 {
        s
    } else if s.last() matches Some(t) && t.spec_id() == id {
        without_id(s.drop_last(), id)
    } else {
        without_id(s.drop_last(), id).push(s.last())
    }
}

/// The slots after a closed kan of this tile: every tile of its id taken out, then four kan
/// tiles of it added, each into its place.
pub open spec fn ankan_slots(s: Seq<Option<Tile>>, tile: Tile) -> Seq<Option<Tile>> {
    let k = Some(Tile { is_kan: true, ..tile });
    let w = without_id(s, tile.spec_id());
    sort_tiles(sort_tiles(sort_tiles(sort_tiles(w.push(k)).push(k)).push(k)).push(k))
}

/// The ids (from 1 to `n`) of which four tiles are neither open nor kan tiles, in order.
pub open spec fn kannable_ids(t: Seq<Option<Tile>>, n: int) -> Seq<int>
    decreases n,
{
    if n <= 0 {
        seq![]
    } else {
        kannable_ids(t, n - 1) + if id_count(t, n, true) == 4 { seq![n] } else { seq![] }
    }
}

/// The index of the first free tile of an id.
pub open spec fn first_free_index(s: Seq<Option<Tile>>, id: int) -> int {
    choose|i: int| first_free_with_id(s, id, i)
}

/// Two lists of improving tiles name the same tiles (by type) with the same counts.
pub open spec fn same_ukeire(a: Seq<(Tile, u8)>, b: Seq<(Tile, u8)>) -> bool {
    &&& a.len() == b.len()
    &&& forall|i: int| 0 <= i < a.len() ==> (#[trigger] a[i]).0.spec_key() == b[i].0.spec_key() && a[i].1 == b[i].1
}

/// The hand before the kan: the drawn tile's id taken out once.
pub open spec fn before_kan(t: Seq<Option<Tile>>) -> Seq<Option<Tile>> {
    t.remove(first_free_index(t, winning_tile(t).spec_id()))
}

/// The hand after the kan of the drawn tile.
pub open spec fn after_kan(t: Seq<Option<Tile>>) -> Seq<Option<Tile>> {
    let dk = Tile { is_draw: false, ..winning_tile(t) };
    ankan_slots(sort_tiles(before_kan(t).push(Some(dk))), dk)
}

/// Whether a kan of the drawn tile keeps the waits of a hand in riichi: the first options of
/// the hand without the drawn tile and of the hand after the kan improve on the same tiles
/// by the same counts.
pub open spec fn riichi_kan_spec(t: Seq<Option<Tile>>, sh: Seq<super::shapes::CompleteShape>) -> Option<Seq<Tile>> {
    let t1 = before_kan(t);
    let t2 = after_kan(t);
    let a = improving_views(t1, sh, slots_shanten(t1, sh), None);
    let b = improving_views(t2, sh, slots_shanten(t2, sh), None);
    if a.len() == 0 || b.len() == 0 {
        None
    } else if same_ukeire(a[0].1, b[0].1) {
        Some(seq![Tile { is_draw: false, ..winning_tile(t) }])
    } else {
        None
    }
}

/// What `Table::can_ankan` gives: nothing for an open hand, one of fewer than 14 tiles or one
/// with no four free tiles of an id; in riichi, the drawn tile where it is such a tile and the
/// kan keeps the waits; otherwise one tile of each such id.
pub open spec fn can_ankan_spec(tb: Table) -> Option<Seq<Tile>> {
    let h = tb.my_hand->0;
    let t = h.tiles@;
    let ids = kannable_ids(t, 34);
    if open_shapes(h.shapes@).len() != 0 {
        None
    } else if hand_size(t) < 14 {
        None
    } else if ids.len() == 0 {
        None
    } else if tb.my_riichi.unwrap_or(false) {
        if !ids.contains(winning_tile(t).spec_id()) {
            None
        } else {
            riichi_kan_spec(t, h.shapes@)
        }
    } else {
        Some(ids.map_values(|id: int| blank(type_of_id(id))))
    }
}

/// A table whose hand `can_ankan` can look at: a sane hand of fewer than 255 slots, and, where
/// the player is in riichi with a hand that could kan, a drawn tile that is free.
pub open spec fn ankan_ok(tb: Table) -> bool {
    &&& tb.my_hand matches Some(h)
    &&& tb.my_hand->0.sane()
    &&& tb.my_hand->0.tiles@.len() < 255
    &&& ({
        let t = tb.my_hand->0.tiles@;
        (tb.my_riichi.unwrap_or(false) && open_shapes(tb.my_hand->0.shapes@).len() == 0 && hand_size(t) >= 14
            && kannable_ids(t, 34).len() > 0) ==> exists|i: int| first_drawn(t, i) && (t[i] matches Some(x) && !x.is_open && !x.is_kan)
    })
}

pub proof fn lemma_without_id(s: Seq<Option<Tile>>, id: int)
    ensures
        without_id(s, id).len() == s.len() - id_count(s, id, false),
        tiles_wf(s) ==> tiles_wf(without_id(s, id)),
    decreases s.len(),
{
    if s.len() > 0 {
        lemma_without_id(s.drop_last(), id);
        super::tiles_seq::lemma_counts_bounded(s.drop_last(), id, false);
        let w = without_id(s.drop_last(), id);
        if tiles_wf(s) {
            assert forall|i: int| 0 <= i < s.drop_last().len() implies (#[trigger] s.drop_last()[i] matches Some(t) ==> t.valid()) by {
                assert(s.drop_last()[i] == s[i]);
            }
            assert(s[s.len() - 1] == s.last());
            if !(s.last() matches Some(t) && t.spec_id() == id) {
                assert forall|i: int| 0 <= i < w.push(s.last()).len() implies (#[trigger] w.push(s.last())[i] matches Some(t) ==> t.valid()) by {
                    if i < w.len() {
                        assert(w.push(s.last())[i] == w[i]);
                    }
                }
            }
        }
    }
}

/// Removing a slot takes it out of the count of its id.
pub proof fn lemma_id_count_remove_exact(s: Seq<Option<Tile>>, j: int, id: int, r: bool)
    requires
        0 <= j < s.len(),
    ensures
        id_count(s.remove(j), id, r) == id_count(s, id, r) - slot_in(s[j], id, r),
    decreases s.len(),
{
    if j == s.len() - 1 {
        assert(s.remove(j) =~= s.drop_last());
    } else {
        assert(s.remove(j).drop_last() =~= s.drop_last().remove(j));
        assert(s.remove(j).last() == s.last());
        lemma_id_count_remove_exact(s.drop_last(), j, id, r);
    }
}

/// A free tile of an id that the count of free tiles finds.
pub proof fn lemma_free_witness(s: Seq<Option<Tile>>, id: int)
    requires
        id_count(s, id, true) > 0,
    ensures
        exists|j: int| 0 <= j < s.len() && free_with_id(#[trigger] s[j], id),
    decreases s.len(),
{
    if slot_in(s.last(), id, true) == 0 {
        lemma_free_witness(s.drop_last(), id);
        let j = choose|j: int| 0 <= j < s.drop_last().len() && free_with_id(#[trigger] s.drop_last()[j], id);
        assert(s[j] == s.drop_last()[j]);
    } else {
        assert(free_with_id(s[s.len() - 1], id));
    }
}

proof fn lemma_first_free_unique(s: Seq<Option<Tile>>, id: int, i: int)
    requires
        first_free_with_id(s, id, i),
    ensures
        first_free_index(s, id) == i,
{
    let j = first_free_index(s, id);
    assert(first_free_with_id(s, id, j));
    if j < i {
        assert(!free_with_id(s[j], id));
    } else if j > i {
        assert(!free_with_id(s[i], id));
    }
}

/// An id in the list has four free tiles.
pub proof fn lemma_kannable_ids(t: Seq<Option<Tile>>, n: int, k: int)
    requires
        0 <= k < kannable_ids(t, n).len(),
    ensures
        id_count(t, kannable_ids(t, n)[k], true) == 4,
        1 <= kannable_ids(t, n)[k] <= n,
    decreases n,
{
    if n > 0 {
        let prev = kannable_ids(t, n - 1);
        if k < prev.len() {
            lemma_kannable_ids(t, n - 1, k);
        }
    }
}

impl Hand {
    /// Do a closed kan with these tiles: every tile of the kan's id is taken out and four kan
    /// tiles of it put in. The hand must have four free tiles of that id.
    pub(crate) fn ankan_tiles(&mut self, tile: Tile)
        requires
            old(self).wf(),
            tile.tile_type.valid(),
            id_count(old(self).tiles@, tile.spec_id(), true) == 4,
        ensures
            final(self).tiles@ == ankan_slots(old(self).tiles@, tile),
            final(self).tiles@.len() <= old(self).tiles@.len(),
            final(self).wf(),
            final(self).shapes@ == old(self).shapes@,
            final(self).shanten == old(self).shanten,
            final(self).array_34 == old(self).array_34,
    {
        let id = tile.to_id();
        let ghost s = self.tiles@;
        // remove the kanned tiles
        let mut kept: Vec<Option<Tile>> = Vec::new();
        let mut i: usize = 0;
        while i < self.tiles.len()
            invariant
                self.tiles@ == s,
                self.wf(),
                id == tile.spec_id(),
                i <= s.len(),
                kept@ == without_id(s.take(i as int), id as int),
            decreases s.len() - i,
        {
            proof {
                assert(s.take(i + 1).drop_last() =~= s.take(i as int));
                assert(s.take(i + 1).last() == s[i as int]);
            }
            match &self.tiles[i] {
                Some(t) => {
                    if t.to_id() != id {
                        kept.push(Some(*t));
                    }
                },
                None => {
                    kept.push(None);
                },
            }
            i = i + 1;
        }
        proof {
            assert(s.take(s.len() as int) =~= s);
            lemma_without_id(s, id as int);
            lemma_id_count_free_le(s, id as int);
        }
        self.tiles = kept;
        // add them as kanned
        let mut kan_tile = tile;
        kan_tile.is_kan = true;
        let ghost k = Some(kan_tile);
        let ghost w = without_id(s, id as int);
        self.add_tile(kan_tile);
        self.add_tile(kan_tile);
        self.add_tile(kan_tile);
        self.add_tile(kan_tile);
        proof {
            assert(tiles_wf(w.push(k))) by {
                assert forall|i: int| 0 <= i < w.push(k).len() implies (#[trigger] w.push(k)[i] matches Some(t) ==> t.valid()) by {
                    if i < w.len() {
                        assert(w.push(k)[i] == w[i]);
                    }
                }
            }
            lemma_sort_wf(w.push(k));
            let a1 = sort_tiles(w.push(k));
            assert(tiles_wf(a1.push(k))) by {
                assert forall|i: int| 0 <= i < a1.push(k).len() implies (#[trigger] a1.push(k)[i] matches Some(t) ==> t.valid()) by {
                    if i < a1.len() {
                        assert(a1.push(k)[i] == a1[i]);
                    }
                }
            }
            lemma_sort_wf(a1.push(k));
            let a2 = sort_tiles(a1.push(k));
            assert(tiles_wf(a2.push(k))) by {
                assert forall|i: int| 0 <= i < a2.push(k).len() implies (#[trigger] a2.push(k)[i] matches Some(t) ==> t.valid()) by {
                    if i < a2.len() {
                        assert(a2.push(k)[i] == a2[i]);
                    }
                }
            }
            lemma_sort_wf(a2.push(k));
            let a3 = sort_tiles(a2.push(k));
            assert(tiles_wf(a3.push(k))) by {
                assert forall|i: int| 0 <= i < a3.push(k).len() implies (#[trigger] a3.push(k)[i] matches Some(t) ==> t.valid()) by {
                    if i < a3.len() {
                        assert(a3.push(k)[i] == a3[i]);
                    }
                }
            }
            lemma_sort_wf(a3.push(k));
        }
    }
}

/// Whether two lists of improving tiles name the same tiles with the same counts.
fn same_ukeire_exec(a: &Vec<(Tile, u8)>, b: &Vec<(Tile, u8)>) -> (r: bool)
    ensures
        r == same_ukeire(a@, b@),
{
    if a.len() != b.len() {
        return false;
    }
    let mut i: usize = 0;
    while i < a.len()
        invariant
            a@.len() == b@.len(),
            i <= a@.len(),
            forall|j: int| 0 <= j < i ==> (#[trigger] a@[j]).0.spec_key() == b@[j].0.spec_key() && a@[j].1 == b@[j].1,
        decreases a.len() - i,
    {
        if a[i].0.ord_key() != b[i].0.ord_key() || a[i].1 != b[i].1 {
            return false;
        }
        i = i + 1;
    }
    true
}

impl Table {
    /// The tiles the player can make a closed kan with: none for an open hand, a hand of fewer
    /// than 14 tiles or one without four free tiles of a kind; in riichi only the drawn tile,
    /// and only where the kan keeps the waits; otherwise one tile of each kind that has four.
    pub fn can_ankan(&mut self) -> (r: Option<Vec<Tile>>)
        requires
            ankan_ok(*old(self)),
        ensures
            *final(self) == *old(self),
            match can_ankan_spec(*old(self)) {
                None => r is None,
                Some(v) => r matches Some(w) && w@ == v,
            },
    {
        let ghost tb = *self;
        let mut hand = self.get_my_hand().copy();
        let ghost t = hand.tiles@;
        let ghost sh = hand.shapes@;
        if !hand.is_closed() {
            return None;
        }
        if hand.count_tiles() < 14 {
            return None;
        }
        let array_34 = hand.get_34_array(true);
        let mut kannable_tiles: Vec<u8> = Vec::new();
        let mut i: u8 = 0;
        while i < 34
            invariant
                i <= 34,
                hand.tiles@ == t,
                forall|k: int| 0 <= k < 34 ==> #[trigger] array_34@[k] == id_count(t, k + 1, true),
                kannable_tiles@.map_values(|x: u8| x as int) == kannable_ids(t, i as int),
                forall|j: int| 0 <= j < kannable_tiles@.len() ==> 1 <= #[trigger] kannable_tiles@[j] <= i,
            decreases 34 - i,
        {
            let ghost before = kannable_tiles@;
            if array_34[i as usize] == 4 {
                kannable_tiles.push(i + 1);
            }
            i = i + 1;
            proof {
                assert(kannable_tiles@.map_values(|x: u8| x as int) =~= kannable_ids(t, i as int));
            }
        }
        let ghost ids = kannable_ids(t, 34);
        if kannable_tiles.len() == 0 {
            return None;
        }
        if self.did_i_riichi() {
            // I can only kan with tiles that won't change my hand structure
            // I can also only kan with the drawn tile
            let mut drawn_tile = match hand.get_drawn_tile() {
                Some(d) => *d,
                None => {
                    assert(false);
                    return None;
                },
            };
            let ghost di = choose|di: int| first_drawn(t, di) && t[di] == Some(drawn_tile);
            proof {
                lemma_first_drawn_unique(t, di);
                let ei = choose|ei: int| first_drawn(t, ei) && (t[ei] matches Some(x) && !x.is_open && !x.is_kan);
                lemma_first_drawn_unique(t, ei);
            }
            let drawn_tile_id = drawn_tile.to_id();
            let mut found = false;
            let mut j: usize = 0;
            while j < kannable_tiles.len()
                invariant
                    j <= kannable_tiles@.len(),
                    found <==> exists|k: int| 0 <= k < j && kannable_tiles@[k] == drawn_tile_id,
                decreases kannable_tiles.len() - j,
            {
                if kannable_tiles[j] == drawn_tile_id {
                    found = true;
                }
                j = j + 1;
            }
            proof {
                let m = kannable_tiles@.map_values(|x: u8| x as int);
                if found {
                    let k = choose|k: int| 0 <= k < kannable_tiles@.len() && kannable_tiles@[k] == drawn_tile_id;
                    assert(m[k] == drawn_tile_id);
                    assert(ids.contains(drawn_tile_id as int));
                } else {
                    if ids.contains(drawn_tile_id as int) {
                        let k = choose|k: int| 0 <= k < ids.len() && ids[k] == drawn_tile_id as int;
                        assert(m[k] == kannable_tiles@[k] as int);
                    }
                }
            }
            if !found {
                return None;
            }
            let ghost id = drawn_tile_id as int;
            proof {
                assert(id_count(t, id, true) == 4) by {
                    let k = choose|k: int| 0 <= k < ids.len() && ids[k] == id;
                    lemma_kannable_ids(t, 34, k);
                }
                lemma_free_witness(t, id);
            }
            hand.remove_tile_by_id(drawn_tile_id);
            let ghost t1 = hand.tiles@;
            proof {
                let fi = choose|fi: int| first_free_with_id(t, id, fi) && t1 == t.remove(fi);
                lemma_first_free_unique(t, id, fi);
                assert(t1 == before_kan(t));
                lemma_id_count_remove_exact(t, fi, id, true);
                assert(tiles_wf(t1)) by {
                    assert forall|x: int| 0 <= x < t1.len() implies (#[trigger] t1[x] matches Some(y) ==> y.valid()) by {
                        if x < fi {
                            assert(t1[x] == t[x]);
                        } else {
                            assert(t1[x] == t[x + 1]);
                        }
                    }
                }
            }
            let no_kan_improving_tiles = hand.find_shanten_improving_tiles(None);
            drawn_tile.is_draw = false;
            hand.add_tile(drawn_tile);
            proof {
                let p = t1.push(Some(drawn_tile));
                assert(tiles_wf(p)) by {
                    assert forall|x: int| 0 <= x < p.len() implies (#[trigger] p[x] matches Some(y) ==> y.valid()) by {
                        if x < t1.len() {
                            assert(p[x] == t1[x]);
                        }
                    }
                }
                lemma_sort_wf(p);
                lemma_id_count_sort(p, id, true);
                lemma_id_count_push(t1, Some(drawn_tile), id, true);
            }
            hand.ankan_tiles(drawn_tile);
            hand.reset_shanten();
            let kan_improving_tiles = hand.find_shanten_improving_tiles(None);
            proof {
                assert(hand.tiles@ == after_kan(t));
            }
            if no_kan_improving_tiles.len() == 0 || kan_improving_tiles.len() == 0 {
                return None;
            }
            proof {
                let a = improving_views(t1, sh, slots_shanten(t1, sh), None);
                assert(no_kan_improving_tiles@.map_values(|e: (Option<Tile>, Vec<(Tile, u8)>, u8)| option_view(e))[0] == a[0]);
                let b = improving_views(hand.tiles@, sh, slots_shanten(hand.tiles@, sh), None);
                assert(kan_improving_tiles@.map_values(|e: (Option<Tile>, Vec<(Tile, u8)>, u8)| option_view(e))[0] == b[0]);
            }
            if same_ukeire_exec(&no_kan_improving_tiles[0].1, &kan_improving_tiles[0].1) {
                let r = vec![drawn_tile];
                assert(r@ =~= seq![Tile { is_draw: false, ..winning_tile(t) }]);
                return Some(r);
            }
            None
        } else {
            let mut kannable_vec: Vec<Tile> = Vec::new();
            let mut j: usize = 0;
            while j < kannable_tiles.len()
                invariant
                    j <= kannable_tiles@.len(),
                    forall|k: int| 0 <= k < kannable_tiles@.len() ==> 1 <= #[trigger] kannable_tiles@[k] <= 34,
                    kannable_vec@ == kannable_tiles@.take(j as int).map_values(|x: u8| blank(type_of_id(x as int))),
                decreases kannable_tiles.len() - j,
            {
                let tile = Tile::from_id(kannable_tiles[j]).unwrap();
                kannable_vec.push(tile);
                j = j + 1;
                proof {
                    assert(kannable_vec@ =~= kannable_tiles@.take(j as int).map_values(|x: u8| blank(type_of_id(x as int))));
                }
            }
            proof {
                assert(kannable_tiles@.take(j as int) =~= kannable_tiles@);
                let m = kannable_tiles@.map_values(|x: u8| x as int);
                assert(kannable_vec@ =~= ids.map_values(|id: int| blank(type_of_id(id)))) by {
                    assert forall|k: int| 0 <= k < ids.len() implies kannable_vec@[k] == blank(type_of_id(ids[k])) by {
                        assert(m[k] == kannable_tiles@[k] as int);
                    }
                }
            }
            Some(kannable_vec)
        }
    }
}

} // verus!
