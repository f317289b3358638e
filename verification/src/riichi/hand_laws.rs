use vstd::prelude::*;
use super::shanten::{ShantenFinder, pairs_below, chiitoitsu_spec, shanten_of, closed_counts_of};
use super::hand::{Hand, open_shapes, valid_hand, hand_size};
use super::improving::{improving_upto, improving_tiles, improving_spec, ukeire_count, slots_shanten, with_tile};
use super::tiles_seq::{id_count, lemma_id_count_free_le};
use super::tile::{type_of_id, lemma_type_of_id};
use super::tile::{Tile, TileType, TileColor};
use super::yaku::{Yaku, suit_scan, in_hand_spec, shape_fu_step, shapes_fu, term_or_honor};
use super::shapes::{Shape, ShapeType, ClosedShape, OpenShape, OpenKan};
use super::table::Table;
use super::shapes::CompleteShape;

verus! {

/// Changing one count changes the pairs counted below `n` by what that count contributes.
proof fn lemma_pairs_after_update(a: Seq<u8>, k: int, v: u8, n: int)
    requires
        0 <= k < a.len(),
        0 <= n <= a.len(),
    ensures
        pairs_below(a.update(k, v), n) == pairs_below(a, n) + if k < n {
            (if v >= 2 { 1int } else { 0 }) - (if a[k] >= 2 { 1int } else { 0 })
        } else {
            0
        },
    decreases n,
{
    if n > 0 {
        lemma_pairs_after_update(a, k, v, n - 1);
    }
}

/// No count below `n` holds a pair: none is counted.
proof fn lemma_pairs_none(a: Seq<u8>, n: int)
    requires
        0 <= n <= a.len(),
        forall|j: int| 0 <= j < n ==> #[trigger] a[j] < 2,
    ensures
        pairs_below(a, n) == 0,
    decreases n,
{
    if n > 0 {
        lemma_pairs_none(a, n - 1);
    }
}

/// Chiitoitsu shanten counts the pairs of every one of the 34 tile kinds, honors included:
/// with nothing held it is 6; a kind going from fewer than two tiles to two or more lowers it
/// by one, and going back raises it by one, whatever the other counts; a kind that stays on
/// the same side of two leaves it as it is.
pub proof fn law_chiitoitsu_counts_every_kind(a: Seq<u8>, k: int, v: u8)
    requires
        a.len() == 34,
        0 <= k < 34,
    ensures
        chiitoitsu_spec(Seq::new(34, |j: int| 0u8)) == 6,
        a[k] < 2 && v >= 2 ==> chiitoitsu_spec(a.update(k, v)) == chiitoitsu_spec(a) - 1,
        a[k] >= 2 && v < 2 ==> chiitoitsu_spec(a.update(k, v)) == chiitoitsu_spec(a) + 1,
        (a[k] >= 2) == (v >= 2) ==> chiitoitsu_spec(a.update(k, v)) == chiitoitsu_spec(a),
{
    lemma_pairs_none(Seq::new(34, |j: int| 0u8), 34);
    lemma_pairs_after_update(a, k, v, 34);
}

/// The counts of a hand holding two tiles of each kind among the first `m` of `ks`.
pub open spec fn pairs_of(ks: Seq<int>, m: int) -> Seq<u8> {
    Seq::new(34, |j: int| if ks.take(m).contains(j) { 2u8 } else { 0u8 })
}

proof fn lemma_pairs_of(ks: Seq<int>, m: int)
    requires
        0 <= m <= ks.len(),
        forall|i: int| 0 <= i < ks.len() ==> 0 <= #[trigger] ks[i] < 34,
        forall|i: int, j: int| 0 <= i < j < ks.len() ==> ks[i] != ks[j],
    ensures
        chiitoitsu_spec(pairs_of(ks, m)) == 6 - m,
    decreases m,
{
    if m == 0 {
        assert(pairs_of(ks, 0) =~= Seq::new(34, |j: int| 0u8));
        lemma_pairs_none(pairs_of(ks, 0), 34);
    } else {
        lemma_pairs_of(ks, m - 1);
        let k = ks[m - 1];
        assert(!ks.take(m - 1).contains(k)) by {
            if ks.take(m - 1).contains(k) {
                let i = choose|i: int| 0 <= i < m - 1 && #[trigger] ks.take(m - 1)[i] == k;
                assert(ks[i] == ks[m - 1]);
            }
        }
        let s = ks.take(m - 1);
        assert(ks.take(m) =~= s.push(k));
        assert forall|j: int| #[trigger] ks.take(m).contains(j) == (s.contains(j) || j == k) by {
            if s.contains(j) {
                let i = choose|i: int| 0 <= i < s.len() && #[trigger] s[i] == j;
                assert(s.push(k)[i] == j);
            }
            if j == k {
                assert(s.push(k)[m - 1] == k);
            }
            if ks.take(m).contains(j) && j != k {
                let i = choose|i: int| 0 <= i < m && #[trigger] ks.take(m)[i] == j;
                assert(s[i] == j);
            }
        }
        assert(pairs_of(ks, m) =~= pairs_of(ks, m - 1).update(k, 2u8));
        lemma_pairs_after_update(pairs_of(ks, m - 1), k, 2u8, 34);
    }
}

/// A closed hand of seven pairs of seven different kinds, honors among them or not, is
/// complete for chiitoitsu: its chiitoitsu shanten is -1, and the shanten of a closed hand is
/// never above its chiitoitsu shanten.
pub proof fn law_seven_pairs_complete(ks: Seq<int>, sf: ShantenFinder, t: Seq<Option<Tile>>, sh: Seq<CompleteShape>)
    requires
        ks.len() == 7,
        forall|i: int| 0 <= i < 7 ==> 0 <= #[trigger] ks[i] < 34,
        forall|i: int, j: int| 0 <= i < j < 7 ==> ks[i] != ks[j],
    ensures
        chiitoitsu_spec(Seq::new(34, |j: int| if ks.contains(j) { 2u8 } else { 0u8 })) == -1,
        open_shapes(sh).len() == 0 ==> shanten_of(sf, t, sh) <= chiitoitsu_spec(closed_counts_of(t)),
{
    lemma_pairs_of(ks, 7);
    assert(ks.take(7) =~= ks);
    assert(pairs_of(ks, 7) =~= Seq::new(34, |j: int| if ks.contains(j) { 2u8 } else { 0u8 }));
}

/// The slot holds an honor (a wind or a dragon).
pub open spec fn holds_honor(o: Option<Tile>) -> bool {
    o matches Some(x) && !(x.tile_type is Number)
}

/// The color of the number tile a slot holds, if it holds one.
pub open spec fn number_color(o: Option<Tile>) -> Option<TileColor> {
    match o {
        Some(x) => match x.tile_type {
            TileType::Number(_, c) => Some(c),
            _ => None,
        },
        None => None,
    }
}

/// Some slot holds an honor.
pub open spec fn some_honor(t: Seq<Option<Tile>>) -> bool {
    exists|i: int| 0 <= i < t.len() && #[trigger] holds_honor(t[i])
}

/// All the number tiles among the slots have one color.
pub open spec fn one_color(t: Seq<Option<Tile>>) -> bool {
    forall|i: int, j: int| 0 <= i < t.len() && 0 <= j < t.len() && #[trigger] number_color(t[i]) is Some
        && #[trigger] number_color(t[j]) is Some ==> number_color(t[i]) == number_color(t[j])
}

/// What the scan of the slots for one color finds, read as statements about the slots.
proof fn lemma_suit_scan(t: Seq<Option<Tile>>, honors_ok: bool)
    ensures
        match suit_scan(t, honors_ok) {
            Ok((h, c)) => {
                &&& h == some_honor(t)
                &&& honors_ok || !some_honor(t)
                &&& one_color(t)
                &&& forall|i: int| 0 <= i < t.len() && #[trigger] number_color(t[i]) is Some
                    ==> number_color(t[i])->0.spec_char() == c
                &&& c != 'z'
                &&& (forall|i: int| 0 <= i < t.len() ==> #[trigger] number_color(t[i]) is None) ==> c == 'x'
            },
            Err(b) => !b && (!one_color(t) || (!honors_ok && some_honor(t))),
        },
    decreases t.len(),
{
    if t.len() > 0 {
        let s = t.drop_last();
        lemma_suit_scan(s, honors_ok);
        let n = t.len() - 1;
        assert forall|i: int| 0 <= i < s.len() implies #[trigger] t[i] == s[i] by {}
        if some_honor(s) {
            let i = choose|i: int| 0 <= i < s.len() && #[trigger] holds_honor(s[i]);
            assert(holds_honor(t[i]));
        }
        if some_honor(t) && !holds_honor(t[n]) {
            let i = choose|i: int| 0 <= i < t.len() && #[trigger] holds_honor(t[i]);
            assert(holds_honor(s[i]));
        }
        if holds_honor(t[n]) {
            assert(some_honor(t));
        }
        if forall|i: int| 0 <= i < t.len() ==> #[trigger] number_color(t[i]) is None {
            assert forall|i: int| 0 <= i < s.len() implies #[trigger] number_color(s[i]) is None by {
                assert(number_color(t[i]) is None);
            }
        }
        if !one_color(s) {
            let (i, j) = choose|i: int, j: int| 0 <= i < s.len() && 0 <= j < s.len() && #[trigger] number_color(s[i]) is Some
                && #[trigger] number_color(s[j]) is Some && number_color(s[i]) != number_color(s[j]);
            assert(number_color(t[i]) is Some && number_color(t[j]) is Some);
        }
        match suit_scan(s, honors_ok) {
            Err(b) => {},
            Ok((h, c)) => {
                match t[n] {
                    None => {
                        assert(one_color(t)) by {
                            assert forall|i: int, j: int| 0 <= i < t.len() && 0 <= j < t.len() && #[trigger] number_color(t[i]) is Some
                                && #[trigger] number_color(t[j]) is Some implies number_color(t[i]) == number_color(t[j]) by {
                                assert(number_color(s[i]) is Some && number_color(s[j]) is Some);
                            }
                        }
                    },
                    Some(x) => {
                        if x.tile_type is Number {
                            let col = number_color(t[n])->0;
                            if c == 'x' {
                                assert forall|i: int| 0 <= i < s.len() implies #[trigger] number_color(s[i]) is None by {
                                    if number_color(s[i]) is Some {
                                        assert(number_color(s[i])->0.spec_char() == 'x');
                                    }
                                }
                                assert(one_color(t)) by {
                                    assert forall|i: int, j: int| 0 <= i < t.len() && 0 <= j < t.len() && #[trigger] number_color(t[i]) is Some
                                        && #[trigger] number_color(t[j]) is Some implies number_color(t[i]) == number_color(t[j]) by {
                                        if i < n {
                                            assert(number_color(s[i]) is None);
                                        }
                                        if j < n {
                                            assert(number_color(s[j]) is None);
                                        }
                                    }
                                }
                            } else if c != col.spec_char() {
                                if exists|i: int| 0 <= i < s.len() && #[trigger] number_color(s[i]) is Some {
                                    let i = choose|i: int| 0 <= i < s.len() && #[trigger] number_color(s[i]) is Some;
                                    assert(number_color(t[i]) is Some && number_color(t[n]) is Some);
                                    assert(number_color(t[i]) != number_color(t[n]));
                                } else {
                                    assert(c == 'x');
                                }
                            } else {
                                assert(one_color(t)) by {
                                    assert forall|i: int, j: int| 0 <= i < t.len() && 0 <= j < t.len() && #[trigger] number_color(t[i]) is Some
                                        && #[trigger] number_color(t[j]) is Some implies number_color(t[i]) == number_color(t[j]) by {
                                        if i < n {
                                            assert(number_color(s[i]) is Some);
                                        }
                                        if j < n {
                                            assert(number_color(s[j]) is Some);
                                        }
                                    }
                                }
                            }
                        } else {
                            assert(one_color(t)) by {
                                assert forall|i: int, j: int| 0 <= i < t.len() && 0 <= j < t.len() && #[trigger] number_color(t[i]) is Some
                                    && #[trigger] number_color(t[j]) is Some implies number_color(t[i]) == number_color(t[j]) by {
                                    assert(number_color(s[i]) is Some && number_color(s[j]) is Some);
                                }
                            }
                        }
                    },
                }
            },
        }
    }
}

/// Honitsu is found in a hand exactly when its number tiles are all of one color and it holds
/// at least one honor; chinitsu exactly when its number tiles are all of one color and it holds
/// no honor.
pub proof fn law_one_color_yaku(table: Table, v: Seq<Shape>)
    requires
        table.my_hand is Some,
    ensures
        in_hand_spec(Yaku::Honitsu, table, v) <==> one_color(table.my_hand->0.tiles@) && some_honor(table.my_hand->0.tiles@),
        in_hand_spec(Yaku::Chinitsu, table, v) <==> one_color(table.my_hand->0.tiles@) && !some_honor(table.my_hand->0.tiles@),
{
    let t = table.my_hand->0.tiles@;
    lemma_suit_scan(t, true);
    lemma_suit_scan(t, false);
}

/// A count of slots is never negative.
proof fn lemma_id_count_nonneg(t: Seq<Option<Tile>>, id: int)
    ensures
        id_count(t, id, true) >= 0,
    decreases t.len(),
{
    if t.len() > 0 {
        lemma_id_count_nonneg(t.drop_last(), id);
    }
}

/// Each improving tile among ids 1 to `n` lowers the shanten below the threshold when drawn,
/// comes in id order, and comes with the tiles of its kind left: four less those held, or
/// less those seen where the seen counts are given.
proof fn lemma_improving_listed(t: Seq<Option<Tile>>, sh: Seq<CompleteShape>, threshold: int, visible: Option<Seq<u8>>, n: int)
    requires
        0 <= n <= 34,
        valid_hand(t),
        visible matches Some(vs) ==> vs.len() == 34 && forall|k: int| 0 <= k < 34 ==> #[trigger] vs[k] <= 4,
    ensures
        forall|k: int| 0 <= k < improving_upto(t, sh, threshold, visible, n).len() ==> {
            let e = #[trigger] improving_upto(t, sh, threshold, visible, n)[k];
            &&& 1 <= e.0.spec_id() <= n
            &&& slots_shanten(with_tile(t, e.0.spec_id()), sh) < threshold
            &&& visible is None ==> e.1 + id_count(t, e.0.spec_id(), true) == 4
            &&& visible matches Some(vs) ==> e.1 + vs[e.0.spec_id() - 1] == 4
        },
        forall|i: int, j: int| 0 <= i < j < improving_upto(t, sh, threshold, visible, n).len()
            ==> (#[trigger] improving_upto(t, sh, threshold, visible, n)[i]).0.spec_id()
                < (#[trigger] improving_upto(t, sh, threshold, visible, n)[j]).0.spec_id(),
    decreases n,
{
    if n > 0 {
        lemma_improving_listed(t, sh, threshold, visible, n - 1);
        lemma_type_of_id(n);
        lemma_id_count_free_le(t, n);
        lemma_id_count_nonneg(t, n);
        let m = n - 1;
        assert(id_count(t, m + 1, false) <= 4);
        if visible is Some {
            assert(visible->0[m] <= 4);
        }
        let last = (super::tile::blank(type_of_id(n)), ukeire_count(t, n, visible) as u8);
        assert(last.0.spec_id() == n);
        let p = improving_upto(t, sh, threshold, visible, n - 1);
        let r = improving_upto(t, sh, threshold, visible, n);
        assert forall|k: int| 0 <= k < r.len() implies {
            let e = #[trigger] r[k];
            &&& 1 <= e.0.spec_id() <= n
            &&& slots_shanten(with_tile(t, e.0.spec_id()), sh) < threshold
            &&& visible is None ==> e.1 + id_count(t, e.0.spec_id(), true) == 4
            &&& visible matches Some(vs) ==> e.1 + vs[e.0.spec_id() - 1] == 4
        } by {
            if k < p.len() {
                assert(r[k] == p[k]);
            } else {
                assert(r[k] == last);
            }
        }
        assert forall|i: int, j: int| 0 <= i < j < r.len() implies (#[trigger] r[i]).0.spec_id() < (#[trigger] r[j]).0.spec_id() by {
            assert(r[i] == p[i]);
            if j < p.len() {
                assert(r[j] == p[j]);
            } else {
                assert(r[j] == last);
            }
        }
    }
}

/// Every tile that improves a hand, drawn, takes its shanten below the threshold; the tiles
/// come in tile order, each kind once; and each comes with the number of its kind still to be
/// drawn: four less those the hand holds where no visible tiles are given, four less those
/// seen where they are. So it is for the tiles that improve any valid hand, and for the one
/// option of a 13-tile hand.
pub proof fn law_ukeire_counts_unseen(t: Seq<Option<Tile>>, sh: Seq<CompleteShape>, threshold: int, vs: Seq<u8>, h: Hand)
    requires
        valid_hand(t),
        valid_hand(h.tiles@),
        vs.len() == 34,
        forall|k: int| 0 <= k < 34 ==> #[trigger] vs[k] <= 4,
    ensures
        forall|k: int| 0 <= k < improving_tiles(t, sh, threshold, None).len() ==> {
            let e = #[trigger] improving_tiles(t, sh, threshold, None)[k];
            e.1 + id_count(t, e.0.spec_id(), true) == 4 && slots_shanten(with_tile(t, e.0.spec_id()), sh) < threshold
        },
        forall|k: int| 0 <= k < improving_tiles(t, sh, threshold, Some(vs)).len() ==> {
            let e = #[trigger] improving_tiles(t, sh, threshold, Some(vs))[k];
            e.1 + vs[e.0.spec_id() - 1] == 4 && slots_shanten(with_tile(t, e.0.spec_id()), sh) < threshold
        },
        forall|i: int, j: int| 0 <= i < j < improving_tiles(t, sh, threshold, None).len()
            ==> (#[trigger] improving_tiles(t, sh, threshold, None)[i]).0.spec_id()
                < (#[trigger] improving_tiles(t, sh, threshold, None)[j]).0.spec_id(),
        hand_size(h.tiles@) == 13 ==> improving_spec(h, None).len() == 1 && forall|k: int| 0 <= k < improving_spec(h, None)[0].1.len() ==> {
            let e = #[trigger] improving_spec(h, None)[0].1[k];
            e.1 + id_count(h.tiles@, e.0.spec_id(), true) == 4
        },
{
    lemma_improving_listed(t, sh, threshold, None, 34);
    lemma_improving_listed(t, sh, threshold, Some(vs), 34);
    lemma_improving_listed(h.tiles@, h.shapes@, super::improving::start_shanten(h), None, 34);
}

/// A closed triplet adds 8 fu where its tile is a terminal or an honor and 4 otherwise: twice
/// what a called pon of the same tiles adds. Added to any shapes, it raises their fu by that
/// much.
pub proof fn law_closed_triplet_fu(pw: Option<u8>, sw: Option<u8>, wt: Tile, tiles: [Tile; 3], closed: Shape, called: Shape, v: Seq<Shape>)
    requires
        closed.shape_type == ShapeType::Complete(CompleteShape::Closed(ClosedShape::Koutsu(tiles))),
        called.shape_type == ShapeType::Complete(CompleteShape::Open(OpenShape::Pon(tiles))),
    ensures
        shape_fu_step(pw, sw, wt, closed).0 == 2 * shape_fu_step(pw, sw, wt, called).0,
        shape_fu_step(pw, sw, wt, closed).0 == if term_or_honor(tiles[0]) { 8int } else { 4 },
        shapes_fu(pw, sw, wt, v.push(closed)).0 == shapes_fu(pw, sw, wt, v).0 + if term_or_honor(tiles[0]) { 8int } else { 4 },
        shapes_fu(pw, sw, wt, v.push(closed)).0 == shapes_fu(pw, sw, wt, v.push(called)).0 + if term_or_honor(tiles[0]) { 4int } else { 2 },
{
    assert(v.push(closed).drop_last() =~= v);
    assert(v.push(called).drop_last() =~= v);
}

/// The fu of sets grow with how hidden and how large they are: for tiles of one type, a
/// closed kan adds four times what a closed triplet adds, and a called kan as much as a closed
/// triplet, which is twice what a called pon adds; runs, closed or called, add nothing.
pub proof fn law_set_fu_scale(pw: Option<u8>, sw: Option<u8>, wt: Tile, three: [Tile; 3], four: [Tile; 4],
    kan_call: OpenKan, triplet: Shape, pon: Shape, closed_kan: Shape, called_kan: Shape, run: Shape, chi: Shape)
    requires
        three[0].tile_type == four[0].tile_type,
        kan_call.spec_tiles() == four,
        triplet.shape_type == ShapeType::Complete(CompleteShape::Closed(ClosedShape::Koutsu(three))),
        pon.shape_type == ShapeType::Complete(CompleteShape::Open(OpenShape::Pon(three))),
        closed_kan.shape_type == ShapeType::Complete(CompleteShape::Closed(ClosedShape::Kantsu(four))),
        called_kan.shape_type == ShapeType::Complete(CompleteShape::Open(OpenShape::Kan(kan_call))),
        run.shape_type == ShapeType::Complete(CompleteShape::Closed(ClosedShape::Shuntsu(three))),
        chi.shape_type == ShapeType::Complete(CompleteShape::Open(OpenShape::Chi(three))),
    ensures
        shape_fu_step(pw, sw, wt, closed_kan).0 == 4 * shape_fu_step(pw, sw, wt, triplet).0,
        shape_fu_step(pw, sw, wt, called_kan).0 == shape_fu_step(pw, sw, wt, triplet).0,
        shape_fu_step(pw, sw, wt, triplet).0 == 2 * shape_fu_step(pw, sw, wt, pon).0,
        shape_fu_step(pw, sw, wt, run).0 == 0,
        shape_fu_step(pw, sw, wt, chi).0 == 0,
        shape_fu_step(pw, sw, wt, pon).0 == if term_or_honor(three[0]) { 4int } else { 2 },
{
}

} // verus!
