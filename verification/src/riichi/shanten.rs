use vstd::prelude::*;
use super::hand::{Hand, open_shapes, hand_size, valid_hand, closed_kans_below};
use super::tiles_seq::{id_count, counts34};
use super::tile::Tile;
use super::shapes::CompleteShape;
use crate::riichi::riichi_error::RiichiError;

verus! {

/// Searches the ways to split a hand into melds, partial melds, pairs and single tiles.
pub struct ShantenFinder {
    pub pairs: i32,
    pub complete_melds: i32,
    pub incomplete_melds: i32,
    pub isolated_tiles: i32,
    pub hand_count: usize,
    pub min_found: i32,
}

/// Tile ids (0-based) 0, 8, 9, 17, 18, 26 and 27 and above: terminals and honors.
pub open spec fn is_terminal_or_honor_index(k: int) -> bool {
    k == 0 || k == 8 || k == 9 || k == 17 || k == 18 || k == 26 || k >= 27
}

/// The kokushi shanten over the first `n` counts: 13, less one for each terminal or honor held,
/// less one more for the first of them held at least twice.
pub open spec fn kokushi_below(a: Seq<u8>, n: int) -> (int, bool)
    decreases n,
{
    if n <= 0 {
        (13, false)
    } else {
        let (s, pair) = kokushi_below(a, n - 1);
        let k = n - 1;
        if is_terminal_or_honor_index(k) {
            if a[k] > 1 {
                if !pair {
                    (s - 2, true)
                } else {
                    (s - 1, pair)
                }
            } else if a[k] > 0 {
                (s - 1, pair)
            } else {
                (s, pair)
            }
        } else {
            (s, pair)
        }
    }
}

/// The number of the first `n` counts that hold a pair.
pub open spec fn pairs_below(a: Seq<u8>, n: int) -> int
    decreases n,
{
    if n <= 0 {
        0
    } else {
        pairs_below(a, n - 1) + if a[n - 1] >= 2 { 1int } else { 0 }
    }
}

/// Shanten to chiitoitsu: how many pairs are missing to tenpai.
pub open spec fn chiitoitsu_spec(a: Seq<u8>) -> int {
    6 - pairs_below(a, 34)
}

/// The shanten of one way of splitting the hand.
pub open spec fn final_spec(p: int, c: int, i: int) -> int {
    let over = if c + i + p > 5 { 5 - c + i + p } else { 0 };
    8 - c * 2 - i - p + over
}

/// A complete run starts at this (0-based) id: it is a number of 1-7 and the next two are held.
pub open spec fn run_at(a: Seq<u8>, d: int) -> bool {
    d < 27 && d % 9 <= 6 && a[d + 1] > 0 && a[d + 2] > 0
}

/// Two neighbouring numbers start at this id.
pub open spec fn side_at(a: Seq<u8>, d: int) -> bool {
    d < 27 && d % 9 <= 7 && a[d + 1] > 0
}

/// Two numbers with a gap start at this id.
pub open spec fn gap_at(a: Seq<u8>, d: int) -> bool {
    d < 27 && d % 9 <= 6 && a[d + 2] > 0
}

/// The depth at which the search goes on after taking one tile of id `d` away.
pub open spec fn next_depth(x: int, d: int) -> int {
    if x - 1 > 0 { d } else { d + 1 }
}

/// The search is cut short: a 13 tile hand is known to be tenpai, or a 14 tile hand complete.
pub open spec fn pruned(hc: int, m: int) -> bool {
    (hc == 13 && m <= 0) || (hc == 14 && m < 0)
}

/// The least shanten found after searching from id `d` on, given the counts `a`, the pairs `p`,
/// complete melds `c`, partial melds `i` set aside so far, the hand size `hc` and the least
/// shanten `m` found before.
pub open spec fn analyze_spec(a: Seq<u8>, d: int, p: int, c: int, i: int, hc: int, m: int) -> int
    decreases 34 - d, (if 0 <= d < a.len() { a[d] as int } else { 0 }), 1int,
{
    if pruned(hc, m) {
        m
    } else if d >= 34 || d < 0 || d >= a.len() {
        let s = final_spec(p, c, i);
        if s < m { s } else { m }
    } else {
        let x = a[d] as int;
        let m1 = sets_spec(a, d, p, c, i, hc, m);
        if x > 0 {
            let m2 = if c + i < 4 {
                gap_spec(a, d, p, c, i, hc, side_spec(a, d, p, c, i, hc, run_spec(a, d, p, c, i, hc, m1)))
            } else {
                m1
            };
            analyze_spec(a.update(d, (x - 1) as u8), d + 1, p, c, i, hc, m2)
        } else {
            analyze_spec(a, d + 1, p, c, i, hc, m1)
        }
    }
}

/// The triplets and pairs that can be taken at id `d`.
pub open spec fn sets_spec(a: Seq<u8>, d: int, p: int, c: int, i: int, hc: int, m: int) -> int
    decreases 34 - d, (if 0 <= d < a.len() { a[d] as int } else { 0 }), 0int,
{
    if 0 <= d < 34 && d < a.len() {
        let x = a[d] as int;
        if x == 4 && c + i < 4 {
            let ma = analyze_spec(a.update(d, 1u8), d, p, c + 1, i, hc, m);
            analyze_spec(a.update(d, 2u8), d, p + 1, c, i, hc, ma)
        } else if x == 3 && c + i < 4 {
            let ma = analyze_spec(a.update(d, 0u8), d + 1, p, c + 1, i, hc, m);
            analyze_spec(a.update(d, 1u8), d, p + 1, c, i, hc, ma)
        } else if x == 2 {
            analyze_spec(a.update(d, 0u8), d + 1, p + 1, c, i, hc, m)
        } else {
            m
        }
    } else {
        m
    }
}

/// A complete run taken from id `d`.
pub open spec fn run_spec(a: Seq<u8>, d: int, p: int, c: int, i: int, hc: int, m: int) -> int
    decreases 34 - d, (if 0 <= d < a.len() { a[d] as int } else { 0 }), 0int,
{
    if 0 <= d < 34 && a.len() == 34 && a[d] > 0 && run_at(a, d) {
        let x = a[d] as int;
        let b = a.update(d, (x - 1) as u8).update(d + 1, (a[d + 1] - 1) as u8).update(d + 2, (a[d + 2] - 1) as u8);
        analyze_spec(b, next_depth(x, d), p, c + 1, i, hc, m)
    } else {
        m
    }
}

/// Two neighbouring numbers taken from id `d`.
pub open spec fn side_spec(a: Seq<u8>, d: int, p: int, c: int, i: int, hc: int, m: int) -> int
    decreases 34 - d, (if 0 <= d < a.len() { a[d] as int } else { 0 }), 0int,
{
    if 0 <= d < 34 && a.len() == 34 && a[d] > 0 && side_at(a, d) {
        let x = a[d] as int;
        let b = a.update(d, (x - 1) as u8).update(d + 1, (a[d + 1] - 1) as u8);
        analyze_spec(b, next_depth(x, d), p, c, i + 1, hc, m)
    } else {
        m
    }
}

/// Two numbers with a gap taken from id `d`.
pub open spec fn gap_spec(a: Seq<u8>, d: int, p: int, c: int, i: int, hc: int, m: int) -> int
    decreases 34 - d, (if 0 <= d < a.len() { a[d] as int } else { 0 }), 0int,
{
    if 0 <= d < 34 && a.len() == 34 && a[d] > 0 && gap_at(a, d) {
        let x = a[d] as int;
        let b = a.update(d, (x - 1) as u8).update(d + 2, (a[d + 2] - 1) as u8);
        analyze_spec(b, next_depth(x, d), p, c, i + 1, hc, m)
    } else {
        m
    }
}

/// What a call of the search returns: 99 when cut short, the shanten of the split at the end
/// of the tiles, else the least shanten found.
pub open spec fn analyze_result(a: Seq<u8>, d: int, p: int, c: int, i: int, hc: int, m: int) -> int {
    if pruned(hc, m) {
        99
    } else if d >= 34 {
        final_spec(p, c, i)
    } else {
        analyze_spec(a, d, p, c, i, hc, m)
    }
}

pub open spec fn min3(a: int, b: int, c: int) -> int {
    let ab = if a <= b { a } else { b };
    if ab <= c { ab } else { c }
}

/// The melds that hand slots and shapes have already set aside: closed kans and calls.
pub open spec fn set_aside_of(t: Seq<Option<Tile>>, sh: Seq<CompleteShape>) -> int {
    closed_kans_below(t, 34) + open_shapes(sh).len()
}

/// The melds a hand has already set aside: its closed kans and its calls.
pub open spec fn set_aside_melds(h: Hand) -> int {
    set_aside_of(h.tiles@, h.shapes@)
}

/// The counts of the closed tiles among hand slots that are not in a kan.
pub open spec fn closed_counts_of(t: Seq<Option<Tile>>) -> Seq<u8> {
    Seq::new(34, |k: int| id_count(t, k + 1, true) as u8)
}

/// The counts of a hand's closed tiles that are not in a kan.
pub open spec fn closed_counts(h: Hand) -> Seq<u8> {
    closed_counts_of(h.tiles@)
}

/// The shanten that `ShantenFinder`, from its state `sf`, gives a valid hand with these slots
/// and shapes.
pub open spec fn shanten_of(sf: ShantenFinder, t: Seq<Option<Tile>>, sh: Seq<CompleteShape>) -> int {
    let a = closed_counts_of(t);
    let closed = open_shapes(sh).len() == 0;
    let kokushi = if closed { kokushi_below(a, 34).0 } else { 99 };
    let chiitoi = if closed { chiitoitsu_spec(a) } else { 99 };
    let an = analyze_result(a, 0, sf.pairs as int, sf.complete_melds + set_aside_of(t, sh),
        sf.incomplete_melds as int, hand_size(t), sf.min_found as int);
    min3(kokushi, chiitoi, an)
}

/// The shanten `ShantenFinder` gives a valid hand, starting from its state `sf`.
pub open spec fn shanten_spec(sf: ShantenFinder, h: Hand) -> int {
    shanten_of(sf, h.tiles@, h.shapes@)
}

impl ShantenFinder {
    pub fn new() -> (sf: ShantenFinder)
        ensures
            sf.pairs == 0,
            sf.complete_melds == 0,
            sf.incomplete_melds == 0,
            sf.isolated_tiles == 0,
            sf.hand_count == 0,
            sf.min_found == 99,
    {
        ShantenFinder { pairs: 0, complete_melds: 0, incomplete_melds: 0, isolated_tiles: 0, hand_count: 0, min_found: 99 }
    }

    /// The state from which a search can start: nothing set aside yet.
    pub open spec fn ready(&self) -> bool {
        &&& self.pairs == 0
        &&& self.incomplete_melds == 0
        &&& self.isolated_tiles == 0
        &&& 0 <= self.complete_melds <= 4
        &&& -100 <= self.min_found <= 99
    }

    pub fn shanten(&mut self, hand: &Hand) -> (r: Result<i8, RiichiError>)
        requires
            hand.wf(),
            old(self).ready(),
            set_aside_melds(*hand) <= 38,
        ensures
            !valid_hand(hand.tiles@) ==> (r matches Err(e) && e.code == 101 && e.message@ == "Invalid hand"@),
            valid_hand(hand.tiles@) ==> r == Ok::<i8, RiichiError>(shanten_spec(*old(self), *hand) as i8),
            valid_hand(hand.tiles@) ==> -128 <= shanten_spec(*old(self), *hand) <= 127,
    {
        if !hand.validate() {
            return Err(RiichiError::new(101, "Invalid hand"));
        }
        self.hand_count = hand.count_tiles();
        let mut array_34 = hand.get_34_array(true);
        assert forall|k: int| 0 <= k < 34 implies #[trigger] array_34@[k] <= 4 by {
            assert(id_count(hand.tiles@, k + 1, true) <= id_count(hand.tiles@, k + 1, false)) by {
                lemma_id_count_removed(hand.tiles@, k + 1);
            }
        }
        assert(array_34@ =~= closed_counts(*hand));
        let mut kokushi_shanten: i32 = 99;
        let mut chiitoi_shanten: i32 = 99;
        // add kans to completed melds
        let kans = hand.get_closed_kans();
        let opens = hand.get_open_shapes().len();
        proof {
            lemma_closed_kans_bound(hand.tiles@, 34);
        }
        self.complete_melds = self.complete_melds + kans as i32 + opens as i32;
        if hand.is_closed() {
            kokushi_shanten = self.kokushi_shanten(&array_34);
            chiitoi_shanten = self.chiitoitsu_shanten(&array_34);
        }
        let shanten = self.analyze(&mut array_34, 0);
        let mut r = kokushi_shanten;
        if chiitoi_shanten < r {
            r = chiitoi_shanten;
        }
        if shanten < r {
            r = shanten;
        }
        Ok(r as i8)
    }

    /// Gets the hand's shanten to kokushi musou.
    pub fn kokushi_shanten(&self, array_34: &[u8; 34]) -> (s: i32)
        ensures
            s == kokushi_below(array_34@, 34).0,
            -22 <= s <= 13,
    {
        let mut shanten: i32 = 13;
        let mut pair_found = false;
        let mut k: usize = 0;
        while k < 34
            invariant
                k <= 34,
                (shanten as int, pair_found) == kokushi_below(array_34@, k as int),
                13 - k - (if pair_found { 1int } else { 0 }) <= shanten <= 13,
            decreases 34 - k,
        {
            let count = array_34[k];
            if k == 0 || k == 8 || k == 9 || k == 17 || k == 18 || k == 26 || k >= 27 {
                // we only need 1 of each here + pair
                if count > 1 {
                    if !pair_found {
                        shanten -= 2; // I'm keeping two of these as a pair
                        pair_found = true;
                    } else {
                        shanten -= 1;
                    }
                } else if count > 0 {
                    shanten -= 1;
                }
            }
            k = k + 1;
        }
        shanten
    }

    /// Gets the hand's shanten to chiitoitsu
    pub fn chiitoitsu_shanten(&self, array_34: &[u8; 34]) -> (s: i32)
        ensures
            s == chiitoitsu_spec(array_34@),
            -28 <= s <= 6,
    {
        let mut pairs: i32 = 0;
        let mut k: usize = 0;
        while k < 34
            invariant
                k <= 34,
                pairs == pairs_below(array_34@, k as int),
                0 <= pairs <= k,
            decreases 34 - k,
        {
            if array_34[k] >= 2 {
                pairs += 1;
            }
            k = k + 1;
        }
        6 - pairs // how many pairs am I missing to tenpai?
    }

    /// The bounds under which the search stays within its integers.
    pub open spec fn search_bounds(&self, a: Seq<u8>, d: int) -> bool {
        &&& 0 <= d <= 34
        &&& a.len() == 34
        &&& forall|k: int| 0 <= k < 34 ==> #[trigger] a[k] <= 4
        &&& 0 <= self.complete_melds <= 42
        &&& 0 <= self.incomplete_melds <= 4
        &&& 0 <= self.pairs <= 4 * d + 4 - (if d < 34 { a[d] as int } else { 4 })
        &&& 0 <= self.isolated_tiles <= 4 * d + 4 - (if d < 34 { a[d] as int } else { 4 })
        &&& -113 <= self.min_found <= 99
    }

    /// Recursive method to traverse a hand, removing shapes until only tiles that have to be
    /// discarded and changed remain - that is the shanten of a hand.
    fn analyze(&mut self, array_34: &mut [u8; 34], depth: usize) -> (r: i32)
        requires
            old(self).search_bounds(old(array_34)@, depth as int),
        ensures
            final(array_34)@ == old(array_34)@,
            final(self).same_counters(*old(self)),
            final(self).min_found == analyze_spec(old(array_34)@, depth as int, old(self).pairs as int,
                old(self).complete_melds as int, old(self).incomplete_melds as int, old(self).hand_count as int,
                old(self).min_found as int),
            r == analyze_result(old(array_34)@, depth as int, old(self).pairs as int, old(self).complete_melds as int,
                old(self).incomplete_melds as int, old(self).hand_count as int, old(self).min_found as int),
            -113 <= final(self).min_found <= 99,
            -113 <= r <= 99,
        decreases 34 - depth, (if depth < 34 { old(array_34)@[depth as int] as int } else { 0 }), 1int,
    {
        if (self.hand_count == 13 && self.min_found <= 0) || (self.hand_count == 14 && self.min_found < 0) {
            return 99;
        }
        if depth >= 34 {
            return self.final_calculations();
        }
        let x = array_34[depth];
        self.sets_step(array_34, depth);
        if x > 0 {
            if self.complete_melds + self.incomplete_melds < 4 {
                self.run_step(array_34, depth);
                self.side_step(array_34, depth);
                self.gap_step(array_34, depth);
            }
            let ghost a0 = array_34@;
            array_34[depth] = x - 1;
            self.isolated_tiles += 1;
            self.analyze(array_34, depth + 1);
            array_34[depth] = x;
            self.isolated_tiles -= 1;
            assert(array_34@ =~= a0);
        } else {
            self.analyze(array_34, depth + 1);
        }
        self.min_found
    }

    /// The counters are those of `other`.
    pub open spec fn same_counters(&self, other: ShantenFinder) -> bool {
        &&& self.pairs == other.pairs
        &&& self.complete_melds == other.complete_melds
        &&& self.incomplete_melds == other.incomplete_melds
        &&& self.isolated_tiles == other.isolated_tiles
        &&& self.hand_count == other.hand_count
    }

    /// Takes triplets and pairs at this id.
    fn sets_step(&mut self, array_34: &mut [u8; 34], depth: usize)
        requires
            old(self).search_bounds(old(array_34)@, depth as int),
            depth < 34,
        ensures
            final(array_34)@ == old(array_34)@,
            final(self).same_counters(*old(self)),
            final(self).min_found == sets_spec(old(array_34)@, depth as int, old(self).pairs as int,
                old(self).complete_melds as int, old(self).incomplete_melds as int, old(self).hand_count as int,
                old(self).min_found as int),
            -113 <= final(self).min_found <= 99,
        decreases 34 - depth, old(array_34)@[depth as int] as int, 0int,
    {
        let ghost a0 = array_34@;
        let x = array_34[depth];
        if x == 4 && self.complete_melds + self.incomplete_melds < 4 {
            // use 3 as pon, leave one behind and try again
            array_34[depth] = 1;
            self.complete_melds += 1;
            self.analyze(array_34, depth);
            array_34[depth] = 4;
            self.complete_melds -= 1;
            // use 2 as pair
            array_34[depth] = 2;
            assert(array_34@ =~= a0.update(depth as int, 2u8));
            self.pairs += 1;
            self.analyze(array_34, depth);
            array_34[depth] = 4;
            self.pairs -= 1;
        } else if x == 3 && self.complete_melds + self.incomplete_melds < 4 {
            array_34[depth] = 0;
            self.complete_melds += 1;
            self.analyze(array_34, depth + 1);
            array_34[depth] = 3;
            self.complete_melds -= 1;
            array_34[depth] = 1;
            assert(array_34@ =~= a0.update(depth as int, 1u8));
            self.pairs += 1;
            self.analyze(array_34, depth);
            array_34[depth] = 3;
            self.pairs -= 1;
        } else if x == 2 {
            // if we don't have a pair yet, this will be our pair
            array_34[depth] = 0;
            self.pairs += 1;
            self.analyze(array_34, depth + 1);
            array_34[depth] = 2;
            self.pairs -= 1;
        }
        assert(array_34@ =~= a0);
    }

    /// Takes a complete run starting at this id.
    fn run_step(&mut self, array_34: &mut [u8; 34], depth: usize)
        requires
            old(self).search_bounds(old(array_34)@, depth as int),
            depth < 34,
            old(self).complete_melds + old(self).incomplete_melds < 4,
        ensures
            final(array_34)@ == old(array_34)@,
            final(self).same_counters(*old(self)),
            final(self).min_found == run_spec(old(array_34)@, depth as int, old(self).pairs as int,
                old(self).complete_melds as int, old(self).incomplete_melds as int, old(self).hand_count as int,
                old(self).min_found as int),
            -113 <= final(self).min_found <= 99,
        decreases 34 - depth, old(array_34)@[depth as int] as int, 0int,
    {
        let ghost a0 = array_34@;
        let x = array_34[depth];
        if x > 0 && depth < 27 && depth % 9 <= 6 && array_34[depth + 1] > 0 && array_34[depth + 2] > 0 {
            array_34[depth] = x - 1;
            array_34[depth + 1] = array_34[depth + 1] - 1;
            array_34[depth + 2] = array_34[depth + 2] - 1;
            self.complete_melds += 1;
            if x - 1 > 0 {
                self.analyze(array_34, depth);
            } else {
                self.analyze(array_34, depth + 1);
            }
            array_34[depth] = x;
            array_34[depth + 1] = array_34[depth + 1] + 1;
            array_34[depth + 2] = array_34[depth + 2] + 1;
            self.complete_melds -= 1;
        }
        assert(array_34@ =~= a0);
    }

    /// Takes two neighbouring numbers starting at this id.
    fn side_step(&mut self, array_34: &mut [u8; 34], depth: usize)
        requires
            old(self).search_bounds(old(array_34)@, depth as int),
            depth < 34,
            old(self).complete_melds + old(self).incomplete_melds < 4,
        ensures
            final(array_34)@ == old(array_34)@,
            final(self).same_counters(*old(self)),
            final(self).min_found == side_spec(old(array_34)@, depth as int, old(self).pairs as int,
                old(self).complete_melds as int, old(self).incomplete_melds as int, old(self).hand_count as int,
                old(self).min_found as int),
            -113 <= final(self).min_found <= 99,
        decreases 34 - depth, old(array_34)@[depth as int] as int, 0int,
    {
        let ghost a0 = array_34@;
        let x = array_34[depth];
        if x > 0 && depth < 27 && depth % 9 <= 7 && array_34[depth + 1] > 0 {
            array_34[depth] = x - 1;
            array_34[depth + 1] = array_34[depth + 1] - 1;
            self.incomplete_melds += 1;
            if x - 1 > 0 {
                self.analyze(array_34, depth);
            } else {
                self.analyze(array_34, depth + 1);
            }
            array_34[depth] = x;
            array_34[depth + 1] = array_34[depth + 1] + 1;
            self.incomplete_melds -= 1;
        }
        assert(array_34@ =~= a0);
    }

    /// Takes two numbers with a gap starting at this id.
    fn gap_step(&mut self, array_34: &mut [u8; 34], depth: usize)
        requires
            old(self).search_bounds(old(array_34)@, depth as int),
            depth < 34,
            old(self).complete_melds + old(self).incomplete_melds < 4,
        ensures
            final(array_34)@ == old(array_34)@,
            final(self).same_counters(*old(self)),
            final(self).min_found == gap_spec(old(array_34)@, depth as int, old(self).pairs as int,
                old(self).complete_melds as int, old(self).incomplete_melds as int, old(self).hand_count as int,
                old(self).min_found as int),
            -113 <= final(self).min_found <= 99,
        decreases 34 - depth, old(array_34)@[depth as int] as int, 0int,
    {
        let ghost a0 = array_34@;
        let x = array_34[depth];
        if x > 0 && depth < 27 && depth % 9 <= 6 && array_34[depth + 2] > 0 {
            array_34[depth] = x - 1;
            array_34[depth + 2] = array_34[depth + 2] - 1;
            self.incomplete_melds += 1;
            if x - 1 > 0 {
                self.analyze(array_34, depth);
            } else {
                self.analyze(array_34, depth + 1);
            }
            array_34[depth] = x;
            array_34[depth + 2] = array_34[depth + 2] + 1;
            self.incomplete_melds -= 1;
        }
        assert(array_34@ =~= a0);
    }

    fn final_calculations(&mut self) -> (s: i32)
        requires
            0 <= old(self).complete_melds <= 42,
            0 <= old(self).incomplete_melds <= 4,
            0 <= old(self).pairs <= 136,
            -113 <= old(self).min_found <= 99,
        ensures
            s == final_spec(old(self).pairs as int, old(self).complete_melds as int, old(self).incomplete_melds as int),
            final(self).min_found == (if s < old(self).min_found { s as int } else { old(self).min_found as int }),
            final(self).pairs == old(self).pairs,
            final(self).complete_melds == old(self).complete_melds,
            final(self).incomplete_melds == old(self).incomplete_melds,
            final(self).isolated_tiles == old(self).isolated_tiles,
            final(self).hand_count == old(self).hand_count,
            -113 <= s <= 13,
    {
        let mut over: i32 = 0;
        if self.complete_melds + self.incomplete_melds + self.pairs > 5 {
            over = 5 - self.complete_melds + self.incomplete_melds + self.pairs;
        }
        let s = 8 - self.complete_melds * 2 - self.incomplete_melds - self.pairs + over;
        if s < self.min_found {
            self.min_found = s;
        }
        s
    }
}

impl Default for ShantenFinder {
    fn default() -> (sf: ShantenFinder)
        ensures
            sf.pairs == 0,
            sf.complete_melds == 0,
            sf.incomplete_melds == 0,
            sf.isolated_tiles == 0,
            sf.hand_count == 0,
            sf.min_found == 99,
    {
        ShantenFinder::new()
    }
}

proof fn lemma_id_count_removed(s: Seq<Option<super::tile::Tile>>, id: int)
    ensures
        id_count(s, id, true) <= id_count(s, id, false),
    decreases s.len(),
{
    if s.len() > 0 {
        lemma_id_count_removed(s.drop_last(), id);
    }
}

pub proof fn lemma_closed_kans_bound(s: Seq<Option<super::tile::Tile>>, n: int)
    ensures
        0 <= closed_kans_below(s, n) <= if n < 0 { 0 } else { n },
    decreases n,
{
    if n > 0 {
        lemma_closed_kans_bound(s, n - 1);
    }
}

} // verus!
