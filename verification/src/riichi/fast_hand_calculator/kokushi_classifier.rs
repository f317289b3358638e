use vstd::prelude::*;

verus! {

/// A terminal or honor tile, by its index (id - 1): 1 and 9 of each suit, and the honors.
pub open spec fn terminal_or_honor(index: int) -> bool {
    index == 0 || index == 8 || index == 9 || index == 17 || index == 18 || index == 26 || 27 <= index <= 33
}

/// Progressively calculates the Shanten for Kokushi.
/// It is expected to only be called for changes to terminal or honor tiles.
/// It only matters how many tiles of a tile type are in the hand, but not which tile types those are (aside from them being terminals or honors).
/// Therefore when drawing or discarding the only additional input is how many tiles were in the hand before that action.
pub struct KokushiClassifier {
    shanten: i8,
    /// 1 with no pair; each pair made doubles it
    pairs: u8,
}

impl KokushiClassifier {
    /// The shanten the classifier holds.
    pub closed spec fn shanten_view(&self) -> int {
        self.shanten as int
    }

    /// The pair mark: 1 with no pair, doubled (in a byte) for each pair made.
    pub closed spec fn pairs_view(&self) -> int {
        self.pairs as int
    }

    /// A classifier at this shanten and pair mark, 14 and 1 (an empty hand) where none is
    /// given.
    pub fn new(shanten: Option<i8>, pairs: Option<u8>) -> (c: KokushiClassifier)
        ensures
            c.shanten_view() == match shanten {
                Some(s) => s as int,
                None => 14,
            },
            c.pairs_view() == match pairs {
                Some(p) => p as int,
                None => 1,
            },
    {
        KokushiClassifier {
            shanten: match shanten {
                None => 14,
                Some(s) => s,
            },
            pairs: match pairs {
                None => 1,
                Some(p) => p,
            },
        }
    }

    /// A tile of this index (id - 1) is drawn, `prev_tile_count` (at most 3) of its type held
    /// before: a first terminal or honor of its type is one shanten less; a second one makes a
    /// pair, one shanten less where it is the first pair.
    pub fn draw(&mut self, tile_id: u32, prev_tile_count: u32)
        requires
            tile_id < 34,
            prev_tile_count <= 3,
            terminal_or_honor(tile_id as int) && prev_tile_count <= 1 ==> old(self).shanten_view() > -128,
        ensures
            final(self).pairs_view() == if terminal_or_honor(tile_id as int) && prev_tile_count == 1 {
                (old(self).pairs_view() * 2) % 256
            } else {
                old(self).pairs_view()
            },
            final(self).shanten_view() == old(self).shanten_view() - if terminal_or_honor(tile_id as int) && prev_tile_count == 0 {
                1int
            } else if terminal_or_honor(tile_id as int) && prev_tile_count == 1 {
                old(self).pairs_view() % 2
            } else {
                0
            },
    {
        let x = tile_id as u64;
        // 1 if the tileType is a terminal or honor, else 0
        let y = x + 5;
        let r = (1u64 << x & 0b100000001100000001100000001u64) >> x | y >> 5u64;
        assert(r == if terminal_or_honor(x as int) { 1u64 } else { 0u64 }) by (bit_vector)
            requires
                x < 34,
                y == x + 5,
                r == (1u64 << x & 0b100000001100000001100000001u64) >> x | y >> 5u64,
        ;
        let c = prev_tile_count as u64;
        // 1 if previousTileCount < 2, else 0
        let s = (c ^ 2) >> 1u64 & r;
        // 1 if previousTileCount == 1, else 0
        let p = c & s;
        let pairs = self.pairs as u64;
        // 1 if no pair was added or there were no pairs before, else 0
        let t = (pairs | !p) & s;
        assert(s == if r == 1 && c < 2 { 1u64 } else { 0u64 }
            && p == if r == 1 && c == 1 { 1u64 } else { 0u64 }
            && t == if r == 1 && c == 0 { 1u64 } else if r == 1 && c == 1 { pairs & 1 } else { 0u64 }
            && (pairs & 1) == pairs % 2) by (bit_vector)
            requires
                c <= 3,
                r <= 1,
                pairs < 256,
                s == (c ^ 2) >> 1u64 & r,
                p == c & s,
                t == (pairs | !p) & s,
        ;
        let old_pairs = self.pairs;
        if p == 1 {
            let shifted = old_pairs << 1u8;
            assert(shifted == ((old_pairs as u64 * 2) % 256) as u8) by (bit_vector)
                requires
                    shifted == old_pairs << 1u8,
            ;
            self.pairs = shifted;
        }
        self.shanten = self.shanten - t as i8;
    }

    /// A tile of this index (id - 1) is discarded, `tile_count_after_discard` (at most 3) of its
    /// type left: the last terminal or honor of its type gone is one shanten more; a pair
    /// broken halves the pair mark, one shanten more where it was the only pair.
    pub fn discard(&mut self, tile_id: u32, tile_count_after_discard: u32)
        requires
            tile_id < 34,
            tile_count_after_discard <= 3,
            terminal_or_honor(tile_id as int) && tile_count_after_discard <= 1 ==> old(self).shanten_view() < 127,
        ensures
            final(self).pairs_view() == if terminal_or_honor(tile_id as int) && tile_count_after_discard == 1 {
                old(self).pairs_view() / 2
            } else {
                old(self).pairs_view()
            },
            final(self).shanten_view() == old(self).shanten_view() + if terminal_or_honor(tile_id as int) && tile_count_after_discard == 0 {
                1int
            } else if terminal_or_honor(tile_id as int) && tile_count_after_discard == 1 {
                final(self).pairs_view() % 2
            } else {
                0
            },
    {
        let x = tile_id as u64;
        // 1 if the tileType is a terminal or honor, else 0
        let y = x + 5;
        let r = (1u64 << x & 0b100000001100000001100000001u64) >> x | y >> 5u64;
        assert(r == if terminal_or_honor(x as int) { 1u64 } else { 0u64 }) by (bit_vector)
            requires
                x < 34,
                y == x + 5,
                r == (1u64 << x & 0b100000001100000001100000001u64) >> x | y >> 5u64,
        ;
        let c = tile_count_after_discard as u64;
        // 1 if tileCountAfterDiscard < 2, else 0
        let s = (c ^ 2) >> 1u64 & r;
        // 1 if tileCountAfterDiscard == 1, else 0
        let p = c & s;
        assert(s == if r == 1 && c < 2 { 1u64 } else { 0u64 }
            && p == if r == 1 && c == 1 { 1u64 } else { 0u64 }) by (bit_vector)
            requires
                c <= 3,
                r <= 1,
                s == (c ^ 2) >> 1u64 & r,
                p == c & s,
        ;
        let old_pairs = self.pairs;
        if p == 1 {
            let shifted = old_pairs >> 1u8;
            assert(shifted == old_pairs / 2) by (bit_vector)
                requires
                    shifted == old_pairs >> 1u8,
            ;
            self.pairs = shifted;
        }
        let pairs = self.pairs as u64;
        // 1 if no pair was removed or there were at least two pairs before, else 0
        let t = (pairs | !p) & s;
        assert(t == if s == 1 && p == 0 { 1u64 } else if s == 1 && p == 1 { pairs & 1 } else { 0u64 }
            && (pairs & 1) == pairs % 2) by (bit_vector)
            requires
                s <= 1,
                p <= 1,
                p == 1 ==> s == 1,
                pairs < 256,
                t == (pairs | !p) & s,
        ;
        self.shanten = self.shanten + t as i8;
    }

    pub fn get_shanten(&self) -> (s: i8)
        ensures
            s == self.shanten_view(),
    {
        self.shanten
    }
}

} // verus!
