use vstd::prelude::*;
use super::tile::{Tile, TileType, tile_notation, blank, type_of_id};
use super::tiles_seq::{tiles_wf, sort_tiles, sort_slots, counts34, id_count, some_count, kan_count, lemma_counts_bounded, opt_key};
use crate::riichi::riichi_error::RiichiError;
use crate::riichi::shapes::{ClosedShape, CompleteShape, OpenKan, OpenShape, Shape, ShapeType};
use crate::riichi::shanten::{ShantenFinder, shanten_spec, set_aside_melds, lemma_closed_kans_bound};
use crate::riichi::marking::{CallKind, mark_all, mark_call};

verus! {

#[derive(Debug)]
pub struct Hand {
    /// a hand consists of 13 tiles + 1 drawn tile
    /// it can also have kan, which are groups of 4 tiles that behave as 3 tiles
    /// so we should have a vector with 13 100% present tiles and 5 optional (4 from possible kans and 1 possible draw)
    pub tiles: Vec<Option<Tile>>,
    pub array_34: Option<[u8; 34]>,
    pub shapes: Vec<CompleteShape>,
    pub shanten: i8,
}

/// The open shapes among complete shapes, in order.
pub open spec fn open_shapes(s: Seq<CompleteShape>) -> Seq<OpenShape>
    decreases s.len(),
{
    if s.len() == 0 {
        seq![]
    } else {
        open_shapes(s.drop_last()) + match s.last() {
            CompleteShape::Open(o) => seq![o],
            CompleteShape::Closed(_) => seq![],
        }
    }
}

/// The sum of a sequence of counts.
pub open spec fn seq_sum(s: Seq<int>) -> int
    decreases s.len(),
{
    if s.len() == 0 {
        0
    } else {
        seq_sum(s.drop_last()) + s.last()
    }
}

/// The size of a hand: its tiles, less one for each four kan tiles.
pub open spec fn hand_size(s: Seq<Option<Tile>>) -> int {
    some_count(s) - kan_count(s) / 4
}

/// What `Hand::validate` checks: at most four of each tile, 13 to 18 tiles in all, a hand size
/// of at most 14.
pub open spec fn valid_hand(s: Seq<Option<Tile>>) -> bool {
    &&& forall|k: int| 0 <= k < 34 ==> #[trigger] id_count(s, k + 1, false) <= 4
    &&& 13 <= seq_sum(counts34(s, false)) <= 18
    &&& hand_size(s) <= 14
}

/// How many slots hold a closed kan tile of this id.
pub open spec fn closed_kan_count(s: Seq<Option<Tile>>, id: int) -> int
    decreases s.len(),
{
    if s.len() == 0 {
        0
    } else {
        closed_kan_count(s.drop_last(), id) + if s.last() matches Some(t) && !t.is_open && t.is_kan
            && t.spec_id() == id {
            1int
        } else {
            0
        }
    }
}

/// How many of the first `n` ids have four closed kan tiles.
pub open spec fn closed_kans_below(s: Seq<Option<Tile>>, n: int) -> int
    decreases n,
{
    if n <= 0 {
        0
    } else {
        closed_kans_below(s, n - 1) + if closed_kan_count(s, n) >= 4 { 1int } else { 0 }
    }
}

/// The slots with every tile's drawn mark cleared and empty slots left out.
pub open spec fn undrawn(s: Seq<Option<Tile>>) -> Seq<Option<Tile>>
    decreases s.len(),
{
    if s.len() == 0 {
        seq![]
    } else {
        undrawn(s.drop_last()) + match s.last() {
            Some(t) => seq![Some(Tile { is_draw: false, ..t })],
            None => seq![],
        }
    }
}

/// The index of the first drawn tile.
pub open spec fn first_drawn(s: Seq<Option<Tile>>, i: int) -> bool {
    &&& 0 <= i < s.len()
    &&& s[i] matches Some(t) && t.is_draw
    &&& forall|j: int| 0 <= j < i ==> !(#[trigger] s[j] matches Some(t) && t.is_draw)
}

/// A tile that is neither open nor part of a kan.
pub open spec fn free_with_id(o: Option<Tile>, id: int) -> bool {
    o matches Some(t) && !t.is_open && !t.is_kan && t.spec_id() == id
}

/// `i` is the first slot that holds a free tile of this id.
pub open spec fn first_free_with_id(s: Seq<Option<Tile>>, id: int, i: int) -> bool {
    &&& 0 <= i < s.len()
    &&& free_with_id(s[i], id)
    &&& forall|j: int| 0 <= j < i ==> !free_with_id(#[trigger] s[j], id)
}

/// A shanten finder before its search.
pub open spec fn fresh_finder() -> ShantenFinder {
    ShantenFinder { pairs: 0, complete_melds: 0, incomplete_melds: 0, isolated_tiles: 0, hand_count: 0, min_found: 99 }
}

/// The shanten of a hand: -1 complete, 0 tenpai, and so on (for a valid hand).
pub open spec fn hand_shanten(h: Hand) -> int {
    shanten_spec(fresh_finder(), h)
}

/// What `Hand::get_shanten` gives: the shanten of a valid hand, 99 for an invalid one.
pub open spec fn shanten_or_99(h: Hand) -> int {
    if valid_hand(h.tiles@) { hand_shanten(h) } else { 99 }
}

/// The tiles of an open call and how they are marked.
pub open spec fn open_call(o: OpenShape) -> (Seq<Tile>, CallKind) {
    match o {
        OpenShape::Chi(t) => (t@, CallKind::Chi),
        OpenShape::Pon(t) => (t@, CallKind::Pon),
        OpenShape::Kan(k) => (k.spec_tiles()@, CallKind::OpenKan),
    }
}

/// The slots after the tiles of an open call are marked (`None` where a tile is missing).
pub open spec fn open_marked(s: Seq<Option<Tile>>, o: OpenShape) -> Option<Seq<Option<Tile>>> {
    mark_all(s, open_call(o).0, open_call(o).1)
}

/// The slots after the tiles of a closed kan are marked (`None` where a tile is missing).
pub open spec fn kan_marked(s: Seq<Option<Tile>>, tiles: [Tile; 4]) -> Option<Seq<Option<Tile>>> {
    mark_all(s, tiles@, CallKind::ClosedKan)
}

impl Hand {
    /// The hand's slots are real tiles, few enough to count in a byte.
    pub open spec fn wf(&self) -> bool {
        tiles_wf(self.tiles@)
    }

    /// A well-formed hand with at most four calls.
    pub open spec fn sane(&self) -> bool {
        &&& self.wf()
        &&& open_shapes(self.shapes@).len() <= 4
    }

    /// Get shanten of this hand (and also set it if it's not calculated yet)
    pub fn shanten(&mut self) -> (r: i8)
        requires
            old(self).sane(),
        ensures
            final(self).tiles@ == old(self).tiles@,
            final(self).shapes@ == old(self).shapes@,
            final(self).array_34 == old(self).array_34,
            final(self).shanten == (if old(self).shanten == 99 && valid_hand(old(self).tiles@) {
                hand_shanten(*old(self)) as i8
            } else {
                old(self).shanten
            }),
            r == final(self).shanten,
            old(self).shanten == 99 && valid_hand(old(self).tiles@) ==> -128 <= hand_shanten(*old(self)) <= 127,
    {
        proof { lemma_closed_kans_bound(self.tiles@, 34); }
        let ghost h0 = *self;
        if self.shanten == 99 {
            let mut sf = ShantenFinder::new();
            match sf.shanten(self) {
                Ok(shanten) => {
                    self.shanten = shanten;
                },
                Err(_error) => {},
            }
        }
        self.shanten
    }

    /// Get shanten of this hand
    pub fn get_shanten(&self) -> (r: i8)
        requires
            self.sane(),
        ensures
            r == shanten_or_99(*self) as i8,
            valid_hand(self.tiles@) ==> -128 <= hand_shanten(*self) <= 127,
    {
        proof { lemma_closed_kans_bound(self.tiles@, 34); }
        let mut sf = ShantenFinder::new();
        match sf.shanten(self) {
            Ok(shanten) => shanten,
            Err(_error) => 99,
        }
    }

    pub fn new(tiles: Vec<Option<Tile>>) -> (h: Hand)
        ensures
            h.tiles@ == sort_tiles(tiles@),
            h.tiles@.len() == tiles@.len(),
            forall|id: int, r: bool| #[trigger] id_count(h.tiles@, id, r) == id_count(tiles@, id, r),
            h.array_34 is None,
            h.shapes@ == Seq::<CompleteShape>::empty(),
            h.shanten == 99,
    {
        proof {
            super::tiles_seq::lemma_sort_len(tiles@);
            assert forall|id: int, r: bool| #[trigger] id_count(sort_tiles(tiles@), id, r) == id_count(tiles@, id, r) by {
                super::tiles_seq::lemma_id_count_sort(tiles@, id, r);
            }
        }
        let mut tiles = tiles;
        sort_slots(&mut tiles);
        Hand { tiles, array_34: None, shapes: Vec::new(), shanten: 99 }
    }

    /// A copy of this hand.
    pub fn copy(&self) -> (h: Hand)
        ensures
            h.tiles@ == self.tiles@,
            h.array_34 == self.array_34,
            h.shapes@ == self.shapes@,
            h.shanten == self.shanten,
    {
        let mut tiles: Vec<Option<Tile>> = Vec::new();
        let mut i: usize = 0;
        while i < self.tiles.len()
            invariant
                i <= self.tiles@.len(),
                tiles@ == self.tiles@.take(i as int),
            decreases self.tiles.len() - i,
        {
            tiles.push(self.tiles[i]);
            i = i + 1;
            assert(tiles@ =~= self.tiles@.take(i as int));
        }
        let mut shapes: Vec<CompleteShape> = Vec::new();
        let mut j: usize = 0;
        while j < self.shapes.len()
            invariant
                j <= self.shapes@.len(),
                shapes@ == self.shapes@.take(j as int),
            decreases self.shapes.len() - j,
        {
            shapes.push(self.shapes[j]);
            j = j + 1;
            assert(shapes@ =~= self.shapes@.take(j as int));
        }
        assert(tiles@ =~= self.tiles@);
        assert(shapes@ =~= self.shapes@);
        Hand { tiles, array_34: self.array_34, shapes, shanten: self.shanten }
    }

    pub fn get_tiles(&self) -> (t: &Vec<Option<Tile>>)
        ensures
            t@ == self.tiles@,
    {
        &self.tiles
    }

    pub fn get_shapes(&self) -> (s: &Vec<CompleteShape>)
        ensures
            s@ == self.shapes@,
    {
        &self.shapes
    }

    /// Returns a vector of OpenShape from shapes that we have identified in the hand.
    pub fn get_open_shapes(&self) -> (r: Vec<OpenShape>)
        ensures
            r@ == open_shapes(self.shapes@),
    {
        let mut open: Vec<OpenShape> = Vec::new();
        let mut i: usize = 0;
        while i < self.shapes.len()
            invariant
                i <= self.shapes@.len(),
                open@ == open_shapes(self.shapes@.take(i as int)),
            decreases self.shapes.len() - i,
        {
            assert(self.shapes@.take(i + 1).drop_last() =~= self.shapes@.take(i as int));
            match &self.shapes[i] {
                CompleteShape::Closed(_) => {},
                CompleteShape::Open(open_shape) => open.push(*open_shape),
            }
            i = i + 1;
            assert(open@ =~= open_shapes(self.shapes@.take(i as int)));
        }
        assert(self.shapes@.take(i as int) =~= self.shapes@);
        open
    }

    /// Converts our tiles vector to an array of 34 counts, since riichi has 34 different tiles.
    /// remove_open_tiles: ignores chi, pon and kanned tiles (also closed kans)
    pub fn get_34_array(&self, remove_open_tiles: bool) -> (a: [u8; 34])
        requires
            self.wf(),
        ensures
            forall|k: int| 0 <= k < 34 ==> #[trigger] a@[k] == id_count(self.tiles@, k + 1, remove_open_tiles),
    {
        let mut array_34: [u8; 34] = [0; 34];
        let mut i: usize = 0;
        while i < self.tiles.len()
            invariant
                self.wf(),
                i <= self.tiles@.len(),
                forall|k: int| 0 <= k < 34 ==> #[trigger] array_34@[k] == id_count(self.tiles@.take(i as int), k + 1, remove_open_tiles),
            decreases self.tiles.len() - i,
        {
            let ghost prev = self.tiles@.take(i as int);
            proof {
                assert(self.tiles@.take(i + 1).drop_last() =~= prev);
                assert forall|k: int| 0 <= k < 34 implies #[trigger] id_count(prev, k + 1, remove_open_tiles) <= i by {
                    lemma_counts_bounded(prev, k + 1, remove_open_tiles);
                }
            }
            if let Some(tile) = &self.tiles[i] {
                // ignoring open tiles and kanned tiles
                if !(remove_open_tiles && (tile.is_open || tile.is_kan)) {
                    let idx = (tile.to_id() - 1) as usize;
                    array_34[idx] = array_34[idx] + 1;
                }
            }
            i = i + 1;
        }
        assert(self.tiles@.take(i as int) =~= self.tiles@);
        array_34
    }

    /// Returns the size of a hand - usually 13 or 14 tiles, depending on the situation.
    pub fn count_tiles(&self) -> (n: usize)
        ensures
            n == hand_size(self.tiles@),
    {
        let mut hand_size: usize = 0;
        let mut kan_tiles: usize = 0;
        let mut i: usize = 0;
        while i < self.tiles.len()
            invariant
                i <= self.tiles@.len(),
                hand_size == some_count(self.tiles@.take(i as int)),
                kan_tiles == kan_count(self.tiles@.take(i as int)),
            decreases self.tiles.len() - i,
        {
            proof {
                assert(self.tiles@.take(i + 1).drop_last() =~= self.tiles@.take(i as int));
                lemma_counts_bounded(self.tiles@.take(i as int), 0, false);
            }
            if let Some(t) = &self.tiles[i] {
                hand_size += 1;
                if t.is_kan {
                    kan_tiles += 1;
                }
            }
            i = i + 1;
        }
        assert(self.tiles@.take(i as int) =~= self.tiles@);
        proof { lemma_counts_bounded(self.tiles@, 0, false); }
        // subtract 1 tile for each kan
        hand_size - kan_tiles / 4
    }

    /// Checks the hand for invalid things (wrong number of tiles, > 4 same tiles...)
    pub fn validate(&self) -> (b: bool)
        requires
            self.wf(),
        ensures
            b == valid_hand(self.tiles@),
    {
        let array34 = self.get_34_array(false);
        let ghost c = counts34(self.tiles@, false);
        assert forall|j: int| 0 <= j < 34 implies #[trigger] array34@[j] == c[j] by {
            assert(array34@[j] == id_count(self.tiles@, j + 1, false));
        }
        let mut tile_count: u8 = 0;
        let mut k: usize = 0;
        while k < 34
            invariant
                k <= 34,
                forall|j: int| 0 <= j < 34 ==> #[trigger] array34@[j] == c[j],
                forall|j: int| 0 <= j < k ==> #[trigger] c[j] <= 4,
                tile_count == seq_sum(c.take(k as int)),
                tile_count <= 4 * k,
                c.len() == 34,
                c == counts34(self.tiles@, false),
            decreases 34 - k,
        {
            assert(c.take(k + 1).drop_last() =~= c.take(k as int));
            let ck = array34[k];
            assert(ck == array34@[k as int]);
            assert(c[k as int] == id_count(self.tiles@, k + 1, false));
            if ck > 4 {
                assert(array34@[k as int] == c[k as int]);
                assert(!(id_count(self.tiles@, k + 1, false) <= 4));
                return false;
            }
            tile_count = tile_count + ck;
            k = k + 1;
        }
        assert(c.take(34) =~= c);
        assert forall|j: int| 0 <= j < 34 implies #[trigger] id_count(self.tiles@, j + 1, false) <= 4 by {
            assert(c[j] <= 4);
        }
        // 13 tiles + 5 optional from kans & draw
        if !(13 <= tile_count && tile_count <= 18) {
            return false;
        }
        if self.count_tiles() > 14 {
            return false;
        }
        true
    }

    pub fn get_closed_kans(&self) -> (n: u8)
        requires
            self.wf(),
        ensures
            n == closed_kans_below(self.tiles@, 34),
    {
        let mut array_34: [u8; 34] = [0u8; 34];
        let mut i: usize = 0;
        while i < self.tiles.len()
            invariant
                self.wf(),
                i <= self.tiles@.len(),
                forall|k: int| 0 <= k < 34 ==> #[trigger] array_34@[k] == closed_kan_count(self.tiles@.take(i as int), k + 1),
            decreases self.tiles.len() - i,
        {
            let ghost prev = self.tiles@.take(i as int);
            proof {
                assert(self.tiles@.take(i + 1).drop_last() =~= prev);
                assert forall|k: int| 0 <= k < 34 implies #[trigger] closed_kan_count(prev, k + 1) <= i by {
                    lemma_closed_kan_bounded(prev, k + 1);
                }
            }
            if let Some(tile) = &self.tiles[i] {
                if !tile.is_open && tile.is_kan {
                    let idx = (tile.to_id() - 1) as usize;
                    array_34[idx] = array_34[idx] + 1;
                }
            }
            i = i + 1;
        }
        assert(self.tiles@.take(i as int) =~= self.tiles@);
        let mut cnt: u8 = 0;
        let mut k: usize = 0;
        while k < 34
            invariant
                k <= 34,
                forall|j: int| 0 <= j < 34 ==> #[trigger] array_34@[j] == closed_kan_count(self.tiles@, j + 1),
                cnt == closed_kans_below(self.tiles@, k as int),
                cnt <= k,
            decreases 34 - k,
        {
            if array_34[k] >= 4 {
                cnt += 1;
            }
            k = k + 1;
        }
        cnt
    }

    pub fn is_closed(&self) -> (b: bool)
        ensures
            b == (open_shapes(self.shapes@).len() == 0),
    {
        self.get_open_shapes().len() == 0
    }

    /// Reset shanten to 99 when we change the hand somehow
    pub fn reset_shanten(&mut self)
        ensures
            final(self).shanten == 99,
            final(self).array_34 is None,
            final(self).tiles@ == old(self).tiles@,
            final(self).shapes@ == old(self).shapes@,
    {
        self.shanten = 99;
        self.array_34 = None;
    }

    /// Adds a tile to this hand
    pub fn add_tile(&mut self, tile: Tile)
        ensures
            final(self).tiles@ == sort_tiles(old(self).tiles@.push(Some(tile))),
            final(self).shapes@ == old(self).shapes@,
            final(self).shanten == old(self).shanten,
            final(self).array_34 == old(self).array_34,
    {
        self.tiles.push(Some(tile));
        sort_slots(&mut self.tiles);
    }

    pub fn reset_drawn_tiles(&mut self)
        ensures
            final(self).tiles@ == sort_tiles(undrawn(old(self).tiles@)),
            final(self).shapes@ == old(self).shapes@,
            final(self).shanten == old(self).shanten,
            final(self).array_34 == old(self).array_34,
    {
        let mut new_tiles: Vec<Option<Tile>> = Vec::new();
        let mut i: usize = 0;
        while i < self.tiles.len()
            invariant
                i <= self.tiles@.len(),
                new_tiles@ == undrawn(self.tiles@.take(i as int)),
            decreases self.tiles.len() - i,
        {
            assert(self.tiles@.take(i + 1).drop_last() =~= self.tiles@.take(i as int));
            if let Some(tile) = self.tiles[i] {
                let mut t = tile;
                t.is_draw = false;
                new_tiles.push(Some(t));
            }
            i = i + 1;
            assert(new_tiles@ =~= undrawn(self.tiles@.take(i as int)));
        }
        assert(self.tiles@.take(i as int) =~= self.tiles@);
        sort_slots(&mut new_tiles);
        self.tiles = new_tiles;
    }

    /// Adds a tile to this hand and sets it as drawn
    pub fn draw_tile(&mut self, tile: &Tile)
        ensures
            final(self).tiles@ == sort_tiles(sort_tiles(undrawn(old(self).tiles@)).push(Some(Tile { is_draw: true, ..*tile }))),
            final(self).shapes@ == old(self).shapes@,
            final(self).shanten == old(self).shanten,
            final(self).array_34 == old(self).array_34,
    {
        self.reset_drawn_tiles();
        let mut tile = *tile;
        tile.is_draw = true;
        self.add_tile(tile);
    }

    pub fn get_drawn_tile(&self) -> (r: Option<&Tile>)
        ensures
            r matches Some(t) ==> exists|i: int| first_drawn(self.tiles@, i) && self.tiles@[i] == Some(*t),
            r is None ==> forall|i: int| 0 <= i < self.tiles@.len() ==> !(#[trigger] self.tiles@[i] matches Some(t) && t.is_draw),
    {
        let mut i: usize = 0;
        while i < self.tiles.len()
            invariant
                i <= self.tiles@.len(),
                forall|j: int| 0 <= j < i ==> !(#[trigger] self.tiles@[j] matches Some(t) && t.is_draw),
            decreases self.tiles.len() - i,
        {
            if let Some(tile) = &self.tiles[i] {
                if tile.is_draw {
                    assert(first_drawn(self.tiles@, i as int));
                    return Some(tile);
                }
            }
            i = i + 1;
        }
        None
    }

    /// Goes through the tiles and dedicates them to an open shape
    pub fn add_open_shape(&mut self, shape: &OpenShape)
        requires
            open_marked(old(self).tiles@, *shape) is Some,
        ensures
            final(self).tiles@ == open_marked(old(self).tiles@, *shape).unwrap(),
            final(self).shapes@ == old(self).shapes@.push(CompleteShape::Open(*shape)),
            final(self).shanten == old(self).shanten,
            final(self).array_34 == old(self).array_34,
            old(self).wf() ==> final(self).wf(),
    {
        match shape {
            OpenShape::Chi(tiles) => mark_call(&mut self.tiles, tiles, CallKind::Chi),
            OpenShape::Pon(tiles) => mark_call(&mut self.tiles, tiles, CallKind::Pon),
            OpenShape::Kan(open_kan) => {
                let tiles = open_kan.tiles();
                mark_call(&mut self.tiles, &tiles, CallKind::OpenKan);
            },
        }
        self.shapes.push(CompleteShape::Open(*shape));
    }

    /// Dedicates four tiles of the hand to a closed kan.
    pub fn add_closed_kan(&mut self, kan: ClosedShape)
        requires
            kan matches ClosedShape::Kantsu(tiles) && kan_marked(old(self).tiles@, tiles) is Some,
        ensures
            kan matches ClosedShape::Kantsu(tiles) && final(self).tiles@ == kan_marked(old(self).tiles@, tiles).unwrap(),
            final(self).shapes@ == old(self).shapes@.push(CompleteShape::Closed(kan)),
            final(self).shanten == old(self).shanten,
            final(self).array_34 == old(self).array_34,
            old(self).wf() ==> final(self).wf(),
    {
        match kan {
            ClosedShape::Kantsu(tiles) => {
                mark_call(&mut self.tiles, &tiles, CallKind::ClosedKan);
                self.shapes.push(CompleteShape::Closed(kan));
            },
            _ => {},
        }
    }

    /// The index of the first free tile with this id.
    pub(crate) fn find_free(&self, id: u8) -> (r: Option<usize>)
        requires
            self.wf(),
        ensures
            r matches Some(i) ==> first_free_with_id(self.tiles@, id as int, i as int),
            r is None ==> forall|j: int| 0 <= j < self.tiles@.len() ==> !free_with_id(#[trigger] self.tiles@[j], id as int),
    {
        let mut i: usize = 0;
        while i < self.tiles.len()
            invariant
                self.wf(),
                i <= self.tiles@.len(),
                forall|j: int| 0 <= j < i ==> !free_with_id(#[trigger] self.tiles@[j], id as int),
            decreases self.tiles.len() - i,
        {
            if let Some(t) = &self.tiles[i] {
                if !t.is_open && !t.is_kan && t.to_id() == id {
                    return Some(i);
                }
            }
            i = i + 1;
        }
        None
    }

    /// Removes a tile from this hand
    pub fn remove_tile(&mut self, tile: &Tile)
        requires
            old(self).wf(),
            tile.spec_id() <= 255,
        ensures
            (exists|i: int| first_free_with_id(old(self).tiles@, tile.spec_id(), i) && final(self).tiles@ == old(self).tiles@.remove(i)
                && final(self).shanten == 99 && final(self).array_34 is None)
            || ((forall|j: int| 0 <= j < old(self).tiles@.len() ==> !free_with_id(#[trigger] old(self).tiles@[j], tile.spec_id()))
                && final(self).tiles@ == old(self).tiles@ && final(self).shanten == old(self).shanten
                && final(self).array_34 == old(self).array_34),
            final(self).shapes@ == old(self).shapes@,
    {
        match self.find_free(tile.to_id()) {
            Some(i) => {
                self.tiles.remove(i);
                self.reset_shanten();
            },
            None => {},
        }
    }

    /// Removes a tile by ID
    pub fn remove_tile_by_id(&mut self, tile_id: u8)
        requires
            old(self).wf(),
            1 <= tile_id <= 34,
        ensures
            (exists|i: int| first_free_with_id(old(self).tiles@, tile_id as int, i) && final(self).tiles@ == old(self).tiles@.remove(i)
                && final(self).shanten == 99 && final(self).array_34 is None)
            || ((forall|j: int| 0 <= j < old(self).tiles@.len() ==> !free_with_id(#[trigger] old(self).tiles@[j], tile_id as int))
                && final(self).tiles@ == old(self).tiles@ && final(self).shanten == old(self).shanten
                && final(self).array_34 == old(self).array_34),
            final(self).shapes@ == old(self).shapes@,
    {
        let tile = Tile::from_id(tile_id).unwrap();
        proof { super::tile::lemma_type_of_id(tile_id as int); }
        self.remove_tile(&tile);
    }
}

proof fn lemma_closed_kan_bounded(s: Seq<Option<Tile>>, id: int)
    ensures
        0 <= closed_kan_count(s, id) <= s.len(),
    decreases s.len(),
{
    if s.len() > 0 {
        lemma_closed_kan_bounded(s.drop_last(), id);
    }
}

} // verus!
