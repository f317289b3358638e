use vstd::prelude::*;
use super::tile::{Tile, blank, type_of_id, next_id_spec, prev_id_spec, lemma_type_of_id};
use super::tiles_seq::{tiles_wf, sort_tiles, sort_slots, id_count, lemma_sort_wf, lemma_id_count_sort,
    lemma_id_count_push, lemma_id_count_remove, lemma_id_count_free_le, slot_in};
use super::hand::{Hand, valid_hand, open_shapes, fresh_finder, hand_size, shanten_or_99, free_with_id};
use super::shanten::{shanten_of, is_terminal_or_honor_index};
use super::shapes::CompleteShape;

verus! {

/// The shanten of hand slots with these shapes: that of a valid hand, 99 for an invalid one.
pub open spec fn slots_shanten(t: Seq<Option<Tile>>, sh: Seq<CompleteShape>) -> int {
    if valid_hand(t) { shanten_of(fresh_finder(), t, sh) } else { 99 }
}

/// `id` is the id of a tile, or one or two before or after it (as `prev_id` and `next_id`
/// count without wrapping).
pub open spec fn near(x: int, id: int) -> bool {
    ||| id == x
    ||| (prev_id_spec(x, false, 1) == id && id > 0)
    ||| (prev_id_spec(x, false, 2) == id && id > 0)
    ||| (next_id_spec(x, false, 1) == id && id > 0)
    ||| (next_id_spec(x, false, 2) == id && id > 0)
}

/// A free tile (neither open nor in a kan) near `id`.
pub open spec fn free_near(o: Option<Tile>, id: int) -> bool {
    o matches Some(x) && !x.is_open && !x.is_kan && near(x.spec_id(), id)
}

/// The ids worth drawing: those near a free tile of the hand, and in a closed hand every
/// terminal and honor.
pub open spec fn is_candidate(t: Seq<Option<Tile>>, closed: bool, id: int) -> bool {
    (closed && is_terminal_or_honor_index(id - 1)) || exists|j: int| 0 <= j < t.len() && #[trigger] free_near(t[j], id)
}

/// The slots with a plain tile of this id drawn.
pub open spec fn with_tile(t: Seq<Option<Tile>>, id: int) -> Seq<Option<Tile>> {
    sort_tiles(t.push(Some(blank(type_of_id(id)))))
}

/// How many tiles of this id are left to draw: four less those held (or those seen).
pub open spec fn ukeire_count(t: Seq<Option<Tile>>, id: int, visible: Option<Seq<u8>>) -> int {
    match visible {
        None => 4 - id_count(t, id, true),
        Some(v) => 4 - v[id - 1],
    }
}

/// Drawing this id lowers the shanten below the threshold.
pub open spec fn improves(t: Seq<Option<Tile>>, sh: Seq<CompleteShape>, threshold: int, id: int) -> bool {
    &&& is_candidate(t, open_shapes(sh).len() == 0, id)
    &&& id_count(t, id, false) != 4
    &&& slots_shanten(with_tile(t, id), sh) < threshold
}

/// The improving tiles among ids 1 to `n`, in order, each with its count.
pub open spec fn improving_upto(t: Seq<Option<Tile>>, sh: Seq<CompleteShape>, threshold: int, visible: Option<Seq<u8>>, n: int) -> Seq<(Tile, u8)>
    decreases n,
{
    if n <= 0 {
        seq![]
    } else {
        improving_upto(t, sh, threshold, visible, n - 1) + if improves(t, sh, threshold, n) {
            seq![(blank(type_of_id(n)), ukeire_count(t, n, visible) as u8)]
        } else {
            seq![]
        }
    }
}

/// The tiles that lower the shanten of a hand below the threshold, in tile order.
pub open spec fn improving_tiles(t: Seq<Option<Tile>>, sh: Seq<CompleteShape>, threshold: int, visible: Option<Seq<u8>>) -> Seq<(Tile, u8)> {
    improving_upto(t, sh, threshold, visible, 34)
}

/// The sum of the counts.
pub open spec fn ukeire_sum(r: Seq<(Tile, u8)>) -> int
    decreases r.len(),
{
    if r.len() == 0 {
        0
    } else {
        ukeire_sum(r.drop_last()) + r.last().1
    }
}

/// The counts a table shows, as a sequence.
pub open spec fn visible_seq(v: Option<&[u8; 34]>) -> Option<Seq<u8>> {
    match v {
        None => None,
        Some(a) => Some(a@),
    }
}

/// Every count of the table is at most four.
pub open spec fn visible_ok(v: Option<&[u8; 34]>) -> bool {
    v matches Some(a) ==> forall|k: int| 0 <= k < 34 ==> #[trigger] a@[k] <= 4
}

/// The open shapes of a hand are few enough to count.
pub open spec fn few_calls(sh: Seq<CompleteShape>) -> bool {
    open_shapes(sh).len() <= 4
}

/// `j` is the first free slot of its id.
pub open spec fn first_of_id(t: Seq<Option<Tile>>, j: int) -> bool {
    &&& 0 <= j < t.len()
    &&& t[j] matches Some(x) && !x.is_open && !x.is_kan
    &&& forall|k: int| 0 <= k < j ==> !free_with_id(#[trigger] t[k], t[j].unwrap().spec_id())
}

/// A discard option: the discarded tile (none for a 13-tile hand), the improving tiles after
/// it and their total count.
pub type Option13 = (Option<Tile>, Seq<(Tile, u8)>, u8);

/// The option of discarding slot `j`, where it is the first of its id and does not raise the
/// shanten.
pub open spec fn discard_entry(t: Seq<Option<Tile>>, sh: Seq<CompleteShape>, cur: int, visible: Option<Seq<u8>>, j: int) -> Seq<Option13> {
    if first_of_id(t, j) && slots_shanten(t.remove(j), sh) <= cur {
        let r = improving_tiles(t.remove(j), sh, cur, visible);
        seq![(t[j], r, ukeire_sum(r) as u8)]
    } else {
        seq![]
    }
}

/// The discard options of the first `n` slots, in slot order.
pub open spec fn discards_upto(t: Seq<Option<Tile>>, sh: Seq<CompleteShape>, cur: int, visible: Option<Seq<u8>>, n: int) -> Seq<Option13>
    decreases n,
{
    if n <= 0 {
        seq![]
    } else {
        discards_upto(t, sh, cur, visible, n - 1) + discard_entry(t, sh, cur, visible, n - 1)
    }
}

/// Inserts an option after every option with at least its count.
pub open spec fn insert_desc(s: Seq<Option13>, x: Option13) -> Seq<Option13>
    decreases s.len(),
{
    if s.len() == 0 {
        seq![x]
    } else if s.last().2 >= x.2 {
        s.push(x)
    } else {
        insert_desc(s.drop_last(), x).push(s.last())
    }
}

/// The stable sort of options by count, highest first.
pub open spec fn sort_desc(s: Seq<Option13>) -> Seq<Option13>
    decreases s.len(),
{
    if s.len() == 0 {
        s
    } else {
        insert_desc(sort_desc(s.drop_last()), s.last())
    }
}

/// The shanten a hand starts from: the one it holds, or, where none is held (99), its own.
pub open spec fn start_shanten(h: Hand) -> int {
    if h.shanten == 99 { shanten_or_99(h) } else { h.shanten as int }
}

/// The options of hand slots with these shapes and this shanten: for a 13-tile hand one
/// option with no discard; for a 14-tile hand that is not complete, the options of the
/// discards that keep the shanten, highest count first; otherwise nothing.
pub open spec fn improving_views(t: Seq<Option<Tile>>, sh: Seq<CompleteShape>, cur: int, visible: Option<Seq<u8>>) -> Seq<Option13> {
    if hand_size(t) == 13 {
        let r = improving_tiles(t, sh, cur, visible);
        seq![(None::<Tile>, r, ukeire_sum(r) as u8)]
    } else if hand_size(t) == 14 {
        if cur < 0 {
            seq![]
        } else {
            sort_desc(discards_upto(t, sh, cur, visible, t.len() as int))
        }
    } else {
        seq![]
    }
}

/// What `find_shanten_improving_tiles` gives: the options of the hand, from the shanten it
/// has stored or, where none is stored, the one it has.
pub open spec fn improving_spec(h: Hand, visible: Option<Seq<u8>>) -> Seq<Option13> {
    improving_views(h.tiles@, h.shapes@, start_shanten(h), visible)
}

/// An option as the contracts see it.
pub open spec fn option_view(e: (Option<Tile>, Vec<(Tile, u8)>, u8)) -> Option13 {
    (e.0, e.1@, e.2)
}

proof fn lemma_insert_desc_at(s: Seq<Option13>, x: Option13, k: int)
    requires
        0 <= k <= s.len(),
        forall|m: int| k <= m < s.len() ==> (#[trigger] s[m]).2 < x.2,
        k == 0 || s[k - 1].2 >= x.2,
    ensures
        insert_desc(s, x) == s.take(k).push(x) + s.skip(k),
    decreases s.len(),
{
    if s.len() == 0 {
        assert(s.take(k).push(x) + s.skip(k) =~= seq![x]);
    } else if s.last().2 >= x.2 {
        assert(s.last() == s[s.len() - 1]);
        assert(s.take(k).push(x) + s.skip(k) =~= s.push(x));
    } else {
        let d = s.drop_last();
        assert(s.last() == s[s.len() - 1]);
        assert forall|m: int| k <= m < d.len() implies (#[trigger] d[m]).2 < x.2 by {
            assert(d[m] == s[m]);
        }
        if k > 0 {
            assert(d[k - 1] == s[k - 1]);
        }
        lemma_insert_desc_at(d, x, k);
        assert((d.take(k).push(x) + d.skip(k)).push(s.last()) =~= s.take(k).push(x) + s.skip(k));
    }
}

fn insert_by_count(v: &mut Vec<(Option<Tile>, Vec<(Tile, u8)>, u8)>, x: (Option<Tile>, Vec<(Tile, u8)>, u8))
    ensures
        final(v)@.map_values(|e: (Option<Tile>, Vec<(Tile, u8)>, u8)| option_view(e)) == insert_desc(
            old(v)@.map_values(|e: (Option<Tile>, Vec<(Tile, u8)>, u8)| option_view(e)),
            option_view(x),
        ),
{
    let ghost gv = v@.map_values(|e: (Option<Tile>, Vec<(Tile, u8)>, u8)| option_view(e));
    let mut k: usize = v.len();
    while k > 0 && v[k - 1].2 < x.2
        invariant
            k <= v@.len(),
            gv == v@.map_values(|e: (Option<Tile>, Vec<(Tile, u8)>, u8)| option_view(e)),
            forall|m: int| k <= m < v@.len() ==> (#[trigger] gv[m]).2 < x.2,
        decreases k,
    {
        k = k - 1;
    }
    proof {
        lemma_insert_desc_at(gv, option_view(x), k as int);
    }
    v.insert(k, x);
    assert(v@.map_values(|e: (Option<Tile>, Vec<(Tile, u8)>, u8)| option_view(e)) =~= gv.take(k as int).push(option_view(x)) + gv.skip(k as int));
}

fn ukeire_total(r: &Vec<(Tile, u8)>) -> (n: u8)
    requires
        r@.len() <= 34,
        forall|i: int| 0 <= i < r@.len() ==> (#[trigger] r@[i]).1 <= 4,
    ensures
        n == ukeire_sum(r@),
{
    let mut total: u8 = 0;
    let mut i: usize = 0;
    while i < r.len()
        invariant
            i <= r@.len(),
            r@.len() <= 34,
            forall|j: int| 0 <= j < r@.len() ==> (#[trigger] r@[j]).1 <= 4,
            total == ukeire_sum(r@.take(i as int)),
            total <= 4 * i,
        decreases r.len() - i,
    {
        assert(r@.take(i + 1).drop_last() =~= r@.take(i as int));
        total = total + r[i].1;
        i = i + 1;
    }
    assert(r@.take(i as int) =~= r@);
    total
}

impl Hand {
    /// The shanten of these slots with this hand's shapes.
    fn shanten_of_slots(&self, tiles: Vec<Option<Tile>>) -> (r: i8)
        requires
            tiles_wf(tiles@),
            few_calls(self.shapes@),
        ensures
            r == slots_shanten(tiles@, self.shapes@),
    {
        let mut h = Hand { tiles, array_34: None, shapes: self.copy().shapes, shanten: 99 };
        h.shanten()
    }

    /// For each id, whether it is worth drawing.
    fn candidates(&self) -> (a: [bool; 34])
        requires
            self.wf(),
        ensures
            forall|k: int| 0 <= k < 34 ==> #[trigger] a@[k] == is_candidate(self.tiles@, open_shapes(self.shapes@).len() == 0, k + 1),
    {
        let closed = self.is_closed();
        let mut a: [bool; 34] = [false; 34];
        if closed {
            // terminals and honors, for kokushi
            a[0] = true;
            a[8] = true;
            a[9] = true;
            a[17] = true;
            a[18] = true;
            let mut k: usize = 26;
            while k < 34
                invariant
                    26 <= k <= 34,
                    forall|j: int| 0 <= j < 34 ==> #[trigger] a@[j] == (is_terminal_or_honor_index(j) && (j < 26 || j < k)),
                decreases 34 - k,
            {
                a[k] = true;
                k = k + 1;
            }
        }
        let ghost t = self.tiles@;
        let mut i: usize = 0;
        while i < self.tiles.len()
            invariant
                self.wf(),
                t == self.tiles@,
                i <= t.len(),
                closed == (open_shapes(self.shapes@).len() == 0),
                forall|k: int| 0 <= k < 34 ==> #[trigger] a@[k] == ((closed && is_terminal_or_honor_index(k))
                    || exists|j: int| 0 <= j < i && #[trigger] free_near(t[j], k + 1)),
            decreases self.tiles.len() - i,
        {
            let ghost before = a@;
            if let Some(tile) = &self.tiles[i] {
                if !tile.is_open && !tile.is_kan {
                    let id = tile.to_id();
                    a[(id - 1) as usize] = true;
                    let p1 = tile.prev_id(false, 1);
                    if p1 > 0 {
                        a[(p1 - 1) as usize] = true;
                    }
                    let p2 = tile.prev_id(false, 2);
                    if p2 > 0 {
                        a[(p2 - 1) as usize] = true;
                    }
                    let n1 = tile.next_id(false, 1);
                    if n1 > 0 {
                        a[(n1 - 1) as usize] = true;
                    }
                    let n2 = tile.next_id(false, 2);
                    if n2 > 0 {
                        a[(n2 - 1) as usize] = true;
                    }
                }
            }
            proof {
                assert forall|k: int| 0 <= k < 34 implies #[trigger] a@[k] == (before[k] || free_near(t[i as int], k + 1)) by {
                }
                assert forall|k: int| 0 <= k < 34 implies #[trigger] a@[k] == ((closed && is_terminal_or_honor_index(k))
                    || exists|j: int| 0 <= j < i + 1 && #[trigger] free_near(t[j], k + 1)) by {
                    if free_near(t[i as int], k + 1) {
                        assert(0 <= i < i + 1);
                    }
                    if exists|j: int| 0 <= j < i + 1 && #[trigger] free_near(t[j], k + 1) {
                        let j = choose|j: int| 0 <= j < i + 1 && #[trigger] free_near(t[j], k + 1);
                        if j < i {
                            assert(exists|j: int| 0 <= j < i && #[trigger] free_near(t[j], k + 1));
                        }
                    }
                }
            }
            i = i + 1;
        }
        a
    }

    /// The tiles that, drawn, bring this (13-tile) hand's shanten below the threshold, in tile
    /// order, each with how many of it are left (four less those held, or those seen).
    fn improving_13(&self, threshold: i8, visible: Option<&[u8; 34]>) -> (r: Vec<(Tile, u8)>)
        requires
            self.sane(),
            self.tiles@.len() < 255,
            visible_ok(visible),
            threshold <= 99 || forall|k: int| 0 <= k < 34 ==> #[trigger] id_count(self.tiles@, k + 1, false) <= 4,
        ensures
            r@ == improving_tiles(self.tiles@, self.shapes@, threshold as int, visible_seq(visible)),
            r@.len() <= 34,
            forall|i: int| 0 <= i < r@.len() ==> (#[trigger] r@[i]).1 <= 4,
    {
        let ghost t = self.tiles@;
        let ghost sh = self.shapes@;
        let cand = self.candidates();
        let all_counts = self.get_34_array(false);
        let array_34 = self.get_34_array(true);
        let mut out: Vec<(Tile, u8)> = Vec::new();
        let mut id: u8 = 1;
        while id <= 34
            invariant
                self.sane(),
                t == self.tiles@,
                sh == self.shapes@,
                t.len() < 255,
                visible_ok(visible),
                threshold <= 99 || forall|k: int| 0 <= k < 34 ==> #[trigger] id_count(t, k + 1, false) <= 4,
                1 <= id <= 35,
                forall|k: int| 0 <= k < 34 ==> #[trigger] cand@[k] == is_candidate(t, open_shapes(sh).len() == 0, k + 1),
                forall|k: int| 0 <= k < 34 ==> #[trigger] all_counts@[k] == id_count(t, k + 1, false),
                forall|k: int| 0 <= k < 34 ==> #[trigger] array_34@[k] == id_count(t, k + 1, true),
                out@ == improving_upto(t, sh, threshold as int, visible_seq(visible), id - 1),
                out@.len() < id,
                forall|i: int| 0 <= i < out@.len() ==> (#[trigger] out@[i]).1 <= 4,
            decreases 35 - id,
        {
            let k = (id - 1) as usize;
            let ghost before = out@;
            proof { lemma_type_of_id(id as int); }
            if cand[k] && all_counts[k] != 4 {
                let drawn = Tile::from_id(id).unwrap();
                let mut tiles = self.copy().tiles;
                tiles.push(Some(drawn));
                proof { lemma_sort_wf(tiles@); }
                sort_slots(&mut tiles);
                let new_shanten = self.shanten_of_slots(tiles);
                if new_shanten < threshold {
                    let cnt: u8 = match visible {
                        None => {
                            proof {
                                let w = t.push(Some(drawn));
                                lemma_id_count_sort(w, id as int, true);
                                lemma_id_count_push(t, Some(drawn), id as int, true);
                                lemma_id_count_free_le(sort_tiles(w), id as int);
                                lemma_id_count_free_le(t, id as int);
                                if threshold <= 99 {
                                    assert(valid_hand(sort_tiles(w)));
                                    assert(id_count(sort_tiles(w), (id - 1) + 1, false) <= 4);
                                } else {
                                    assert(id_count(t, (id - 1) + 1, false) <= 4);
                                }
                            }
                            4 - array_34[k]
                        },
                        Some(v) => 4 - v[k],
                    };
                    out.push((drawn, cnt));
                }
            }
            proof {
                assert(improving_upto(t, sh, threshold as int, visible_seq(visible), id as int) == before + if improves(t, sh, threshold as int, id as int) {
                    seq![(blank(type_of_id(id as int)), ukeire_count(t, id as int, visible_seq(visible)) as u8)]
                } else {
                    seq![]
                });
                if !improves(t, sh, threshold as int, id as int) {
                    assert(before + seq![] =~= before);
                }
            }
            id = id + 1;
        }
        out
    }

    /// Returns tiles that can be used to improve this hand.
    /// For 13 tile hands, there is only one option.
    /// For 14 tile hands, we list options for all discards that don't lower our shanten.
    /// You can set visible_tiles that you can see on the table and it will remove them from the final list / ukeire count
    pub fn find_shanten_improving_tiles(&self, visible_tiles: Option<&[u8; 34]>) -> (r: Vec<(Option<Tile>, Vec<(Tile, u8)>, u8)>)
        requires
            self.sane(),
            self.tiles@.len() < 255,
            visible_ok(visible_tiles),
            self.shanten <= 99 || forall|k: int| 0 <= k < 34 ==> #[trigger] id_count(self.tiles@, k + 1, false) <= 4,
        ensures
            r@.map_values(|e: (Option<Tile>, Vec<(Tile, u8)>, u8)| option_view(e)) == improving_spec(*self, visible_seq(visible_tiles)),
    {
        let ghost t = self.tiles@;
        let ghost sh = self.shapes@;
        let ghost vis = visible_seq(visible_tiles);
        let mut imp_tiles: Vec<(Option<Tile>, Vec<(Tile, u8)>, u8)> = Vec::new();
        let mut hand = self.copy();
        let current_shanten = hand.shanten();
        proof {
            assert(current_shanten == start_shanten(*self));
            if self.shanten == 99 && valid_hand(t) {
                assert forall|k: int| 0 <= k < 34 implies #[trigger] id_count(t, k + 1, false) <= 4 by {}
            }
        }
        // for 13 tile hands, the Option for the discard tile is None
        let hand_count = self.count_tiles();
        if hand_count == 13 {
            let result = self.improving_13(current_shanten, visible_tiles);
            let total = ukeire_total(&result);
            imp_tiles.push((None, result, total));
            proof {
                assert(imp_tiles@.map_values(|e: (Option<Tile>, Vec<(Tile, u8)>, u8)| option_view(e)) =~= improving_spec(*self, vis));
            }
        } else if hand_count == 14 {
            // a complete hand has no improving tiles
            if current_shanten < 0 {
                proof {
                    assert(imp_tiles@.map_values(|e: (Option<Tile>, Vec<(Tile, u8)>, u8)| option_view(e)) =~= improving_spec(*self, vis));
                }
                return imp_tiles;
            }
            let mut j: usize = 0;
            while j < self.tiles.len()
                invariant
                    self.sane(),
                    t == self.tiles@,
                    sh == self.shapes@,
                    vis == visible_seq(visible_tiles),
                    t.len() < 255,
                    visible_ok(visible_tiles),
                    current_shanten == start_shanten(*self),
                    current_shanten <= 99 || forall|k: int| 0 <= k < 34 ==> #[trigger] id_count(t, k + 1, false) <= 4,
                    j <= t.len(),
                    imp_tiles@.map_values(|e: (Option<Tile>, Vec<(Tile, u8)>, u8)| option_view(e)) == sort_desc(
                        discards_upto(t, sh, current_shanten as int, vis, j as int),
                    ),
                decreases self.tiles.len() - j,
            {
                let ghost before = discards_upto(t, sh, current_shanten as int, vis, j as int);
                let mut added = false;
                if let Some(tile) = &self.tiles[j] {
                    if !tile.is_open && !tile.is_kan {
                        let first = self.find_free(tile.to_id());
                        if first == Some(j) {
                            let mut rest = self.copy().tiles;
                            rest.remove(j);
                            let ghost tr = rest@;
                            let new_shanten = self.shanten_of_slots(self.copy_without(j));
                            if new_shanten <= current_shanten {
                                // only the discards that don't raise our shanten
                                let h13 = Hand { tiles: rest, array_34: None, shapes: self.copy().shapes, shanten: 99 };
                                proof {
                                    if current_shanten > 99 {
                                        assert forall|k: int| 0 <= k < 34 implies #[trigger] id_count(tr, k + 1, false) <= 4 by {
                                            lemma_id_count_remove(t, j as int, k + 1, false);
                                            assert(id_count(t, k + 1, false) <= 4);
                                        }
                                    }
                                }
                                let result = h13.improving_13(current_shanten, visible_tiles);
                                let total = ukeire_total(&result);
                                insert_by_count(&mut imp_tiles, (Some(*tile), result, total));
                                added = true;
                            }
                        } else {
                            proof {
                                match first {
                                    Some(f) => {
                                        assert(f < j);
                                        assert(free_with_id(t[f as int], t[j as int].unwrap().spec_id()));
                                    },
                                    None => {
                                        assert(!free_with_id(t[j as int], t[j as int].unwrap().spec_id()));
                                    },
                                }
                                assert(!first_of_id(t, j as int));
                            }
                        }
                    }
                }
                proof {
                    let e = discard_entry(t, sh, current_shanten as int, vis, j as int);
                    assert(discards_upto(t, sh, current_shanten as int, vis, j + 1) == before + e);
                    if !added {
                        assert(e =~= Seq::<Option13>::empty());
                        assert(before + e =~= before);
                    } else {
                        assert((before + e).drop_last() =~= before);
                    }
                }
                j = j + 1;
            }
            assert(self.tiles@.len() == j);
        }
        proof {
            if hand_count != 13 && hand_count != 14 {
                assert(imp_tiles@.map_values(|e: (Option<Tile>, Vec<(Tile, u8)>, u8)| option_view(e)) =~= improving_spec(*self, vis));
            }
        }
        imp_tiles
    }

    /// A copy of the slots without slot `j`.
    fn copy_without(&self, j: usize) -> (v: Vec<Option<Tile>>)
        requires
            self.wf(),
            j < self.tiles@.len(),
        ensures
            v@ == self.tiles@.remove(j as int),
            tiles_wf(v@),
    {
        let mut v = self.copy().tiles;
        v.remove(j);
        v
    }
}

} // verus!
