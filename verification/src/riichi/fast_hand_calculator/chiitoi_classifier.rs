use vstd::prelude::*;

verus! {

/// Progressively calculates the chiitoitsu shanten of a hand.
/// It only matters how many tiles of a tile type are in the hand, but not which tile types those are.
/// Therefore when drawing or discarding the only additional input is how many tiles were in the hand before that action.
pub struct ChiitoiClassifier {
    shanten: i8,
}

impl ChiitoiClassifier {
    /// The shanten the classifier holds.
    pub closed spec fn shanten_view(&self) -> int {
        self.shanten as int
    }

    /// A classifier at this shanten, 7 (an empty hand) where none is given.
    pub fn new(shanten: Option<i8>) -> (c: ChiitoiClassifier)
        ensures
            c.shanten_view() == match shanten {
                Some(s) => s as int,
                None => 7,
            },
    {
        ChiitoiClassifier {
            shanten: match shanten {
                Some(s) => s,
                None => 7,
            },
        }
    }

    /// A tile is drawn of a type held `prev_tile_count` times (at most 4): a second tile of a
    /// type makes a pair, one shanten less.
    pub fn draw(&mut self, prev_tile_count: u8)
        requires
            prev_tile_count <= 4,
            prev_tile_count == 1 ==> old(self).shanten_view() > -128,
        ensures
            final(self).shanten_view() == old(self).shanten_view() - if prev_tile_count == 1 { 1int } else { 0 },
    {
        let p = prev_tile_count as i8;
        let x = ((p >> 1u8) ^ 1i8) & p;
        assert(x == if prev_tile_count == 1 { 1i8 } else { 0i8 }) by (bit_vector)
            requires
                p == prev_tile_count as i8,
                prev_tile_count <= 4,
                x == ((p >> 1u8) ^ 1i8) & p,
        ;
        self.shanten = self.shanten - x;
    }

    /// A tile is discarded, `tile_count_after_discard` (at most 3) of its type left: a pair
    /// broken, one shanten more.
    pub fn discard(&mut self, tile_count_after_discard: u8)
        requires
            tile_count_after_discard <= 4,
            tile_count_after_discard == 1 ==> old(self).shanten_view() < 127,
        ensures
            final(self).shanten_view() == old(self).shanten_view() + if tile_count_after_discard == 1 { 1int } else { 0 },
    {
        let p = tile_count_after_discard as i8;
        let x = ((p >> 1u8) ^ 1i8) & p;
        assert(x == if tile_count_after_discard == 1 { 1i8 } else { 0i8 }) by (bit_vector)
            requires
                p == tile_count_after_discard as i8,
                tile_count_after_discard <= 4,
                x == ((p >> 1u8) ^ 1i8) & p,
        ;
        self.shanten = self.shanten + x;
    }

    pub fn get_shanten(&self) -> (s: i8)
        ensures
            s == self.shanten_view(),
    {
        self.shanten
    }
}

} // verus!
