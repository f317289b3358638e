use vstd::prelude::*;
use super::tile::{Tile, TileType, blank, type_of_id, tile_notation, tile_from_chars, next_spec};
use super::text::{decimal, digit_value};
use super::tiles_seq::{sort_tiles, id_count, slot_in, lemma_id_count_sort, lemma_id_count_push};
use super::tile_counts::{slot_count, is_drawn, lemma_slot_count_push, lemma_slot_count_sort};
use super::hand::{open_shapes, undrawn, first_drawn, free_with_id, first_free_with_id};
use super::shapes::{CompleteShape, OpenShape};
use super::scores::{Score, score_of, rounded_fu, total_points_spec, points_from_oya_spec, points_from_ko_spec,
    first_fit, capped_points_spec, is_mangan, base_points_spec, ceil100, limit_hands, mangan_scores, score_chain, from_points_spec};
use super::south_4_simulator::{South4Simulator, evaluate_spec};
use super::ankan::{first_free_index, lemma_id_count_remove_exact};
use super::shapes::Shape;
use super::table::Table;
use super::yaku::{Yaku, is_yakuman_spec, yaku_upto, variant_score, best_variant, find_spec, han_total, hand_variants, in_hand_spec};

verus! {

/// Tile ids and tile types match one to one: the id of a real tile is 1 to 34 and gives its
/// type back, and the type of an id 1 to 34 has that id.
pub proof fn law_tile_id_round_trip(t: TileType, id: int)
    ensures
        t.valid() ==> 1 <= t.spec_id() <= 34 && type_of_id(t.spec_id()) == t,
        1 <= id <= 34 ==> type_of_id(id).valid() && type_of_id(id).spec_id() == id,
{
}

/// The next tile taken `k` times over, in dora order (`Tile::next` with `dora`).
pub open spec fn dora_steps(t: Tile, k: nat) -> Tile
    decreases k,
{
    if k == 0 {
        t
    } else {
        match next_spec(dora_steps(t, (k - 1) as nat), true) {
            Some(n) => n,
            None => t,
        }
    }
}

/// The dora order goes round: nine steps bring a number tile back, four a wind and three a
/// dragon (as a tile with no marks).
pub proof fn law_dora_order_cycles(t: Tile)
    requires
        t.tile_type.valid(),
    ensures
        t.tile_type is Number ==> dora_steps(t, 9) == blank(t.tile_type),
        t.tile_type is Wind ==> dora_steps(t, 4) == blank(t.tile_type),
        t.tile_type is Dragon ==> dora_steps(t, 3) == blank(t.tile_type),
{
    reveal_with_fuel(dora_steps, 10);
}

/// One tile on and one tile back gives a number tile back: `prev` undoes `next` for 1 to 8.
pub proof fn law_next_then_prev(t: Tile)
    requires
        t.tile_type matches TileType::Number(n, _) && 1 <= n <= 8,
    ensures
        next_spec(t, false) matches Some(x) && (x.tile_type matches TileType::Number(m, c) && m > 1
            && blank(TileType::Number((m - 1) as u8, c)) == blank(t.tile_type)),
{
}

/// Reading the notation of a tile gives the tile back (with its red mark, without other marks).
pub proof fn law_tile_notation_round_trip(t: Tile)
    requires
        t.tile_type.valid(),
        t.is_red ==> (t.tile_type matches TileType::Number(n, _) && n == 5),
    ensures
        tile_notation(t).len() == 2,
        digit_value(tile_notation(t)[0]) is Some,
        tile_from_chars(tile_notation(t)) == Ok::<Tile, u16>(Tile { is_red: t.is_red, ..blank(t.tile_type) }),
{
    match t.tile_type {
        TileType::Number(n, c) => {
            if !t.is_red {
                assert(decimal(n as nat) == seq![super::text::digit_char(n as int)]);
            }
        },
        TileType::Wind(n) => {
            assert(decimal(n as nat) == seq![super::text::digit_char(n as int)]);
        },
        TileType::Dragon(n) => {
            assert(decimal(n as nat) == seq![super::text::digit_char(n as int)]);
        },
    }
}

/// The payments of a score add up to its total: on a tsumo by a non-dealer the dealer pays
/// one share and each other player half of it, on a tsumo by the dealer each player pays a
/// third, and on a ron the one who dealt in pays it all.
pub proof fn law_payments_add_up(s: Score)
    ensures
        s.tsumo && !s.oya ==> total_points_spec(s) == points_from_oya_spec(s) + 2 * points_from_ko_spec(s),
        s.tsumo && s.oya ==> total_points_spec(s) == 3 * points_from_ko_spec(s),
        !s.tsumo ==> total_points_spec(s) == points_from_ko_spec(s),
        !s.tsumo && !s.oya ==> total_points_spec(s) == points_from_oya_spec(s),
{
}

/// The hand that `first_fit` finds has 1 to 3 han and a fu that steps from the start by tens.
proof fn lemma_first_fit_found(points: int, oya: bool, tsumo: bool, limit: int, start: int, han: int, fu: int)
    requires
        fu % 10 == 0,
        start % 10 == 0,
        0 <= start <= fu,
    ensures
        first_fit(points, oya, tsumo, limit, start, han, fu) matches Some((h, f)) ==> 1 <= h <= 3 && f % 10 == 0 && start <= f <= limit
            && total_points_spec(score_of(h, f, oya, tsumo)) >= points,
    decreases 4 - han, limit + 10 - fu,
{
    if han > 3 || han < 1 {
    } else if fu > limit {
        if start <= limit {
            lemma_first_fit_found(points, oya, tsumo, limit, start, han + 1, start);
        }
    } else if total_points_spec(score_of(han, fu, oya, tsumo)) >= points {
    } else {
        lemma_first_fit_found(points, oya, tsumo, limit, start, han, fu + 10);
    }
}

/// One step of the chain of scores of the same value: one more han and half the fu.
proof fn lemma_chain_step(h: int, f: int, oya: bool, tsumo: bool)
    requires
        1 <= h <= 4,
        40 <= f <= 110,
        f % 10 == 0,
        (f / 2) % 10 == 0 || f / 2 == 25,
    ensures
        total_points_spec(score_of(h + 1, f / 2, oya, tsumo)) == total_points_spec(score_of(h, f, oya, tsumo)),
{
    assert(rounded_fu(f) == f);
    assert(rounded_fu(f / 2) == f / 2);
}

/// The scores that follow a found one are worth as much as it.
proof fn lemma_chain_value(h: int, f: int, oya: bool, tsumo: bool)
    requires
        1 <= h <= 3,
        20 <= f <= 110,
        f % 10 == 0,
    ensures
        forall|k: int| 0 <= k < score_chain(h, f, oya, tsumo).len() ==>
            total_points_spec(#[trigger] score_chain(h, f, oya, tsumo)[k]) == total_points_spec(score_of(h, f, oya, tsumo)),
{
    let f1 = f / 2;
    let c = score_chain(h, f, oya, tsumo);
    if f1 >= 20 && (f1 == 25 || f1 % 10 == 0) && !(f1 == 20 && !tsumo) {
        lemma_chain_step(h, f, oya, tsumo);
        if f1 != 25 {
            let f2 = f1 / 2;
            let c1 = score_chain(h + 1, f1, oya, tsumo);
            assert(c == seq![score_of(h + 1, f1, oya, tsumo)] + c1);
            if f2 >= 20 && (f2 == 25 || f2 % 10 == 0) && !(f2 == 20 && !tsumo) {
                lemma_chain_step(h + 1, f1, oya, tsumo);
                let f3 = f2 / 2;
                assert(!(f3 >= 20));
                assert(score_chain(h + 2, f2, oya, tsumo) == Seq::<Score>::empty());
                if f2 != 25 {
                    assert(c1 == seq![score_of(h + 2, f2, oya, tsumo)] + score_chain(h + 2, f2, oya, tsumo));
                }
                assert forall|k: int| 0 <= k < c.len() implies total_points_spec(#[trigger] c[k]) == total_points_spec(score_of(h, f, oya, tsumo)) by {
                    if k > 0 {
                        assert(c[k] == c1[k - 1]);
                    }
                }
            } else {
                assert(c1 == Seq::<Score>::empty());
                assert forall|k: int| 0 <= k < c.len() implies total_points_spec(#[trigger] c[k]) == total_points_spec(score_of(h, f, oya, tsumo)) by {
                    assert(k == 0);
                }
            }
        }
    }
}

/// Limit hands of one kind are all worth the same.
proof fn lemma_limit_value(han: int, count: int, oya: bool, tsumo: bool)
    requires
        (han == 6 && count == 2) || (han == 8 && count == 3) || (han == 11 && count == 2) || (han == 13 && count == 1),
    ensures
        forall|k: int| 0 <= k < count ==> total_points_spec(#[trigger] limit_hands(han, count, oya, tsumo)[k])
            == total_points_spec(limit_hands(han, count, oya, tsumo)[0]),
{
}

/// The scores that `Score::from_points` lists reach the points and are all worth the same,
/// for every amount of points a hand can reach; more than yakuman gives none.
pub proof fn law_from_points_same_value(points: int, oya: bool, tsumo: bool)
    ensures
        points <= 8000 * (if oya { 6int } else { 4int }) <==> from_points_spec(points, oya, tsumo) is Some,
        from_points_spec(points, oya, tsumo) matches Some(v) ==> v.len() > 0
            && total_points_spec(v[0]) >= points
            && forall|k: int| 0 <= k < v.len() ==> total_points_spec(#[trigger] v[k]) == total_points_spec(v[0]),
{
    let div = if oya { 6int } else { 4int };
    if from_points_spec(points, oya, tsumo) is Some {
        let v = from_points_spec(points, oya, tsumo)->0;
        if points > 6000 * div {
            lemma_limit_value(13, 1, oya, tsumo);
        } else if points > 4000 * div {
            lemma_limit_value(11, 2, oya, tsumo);
        } else if points > 3000 * div {
            lemma_limit_value(8, 3, oya, tsumo);
        } else if points > 2000 * div {
            lemma_limit_value(6, 2, oya, tsumo);
        } else {
            lemma_first_fit_found(points, oya, tsumo, 110, 20, 1, 20);
            match first_fit(points, oya, tsumo, 110, 20, 1, 20) {
                None => {},
                Some((h, f)) => {
                    if !is_mangan(score_of(h, f, oya, tsumo).han as int, score_of(h, f, oya, tsumo).fu as int) {
                        lemma_chain_value(h, f, oya, tsumo);
                        assert forall|k: int| 0 <= k < v.len() implies total_points_spec(#[trigger] v[k]) == total_points_spec(v[0]) by {
                            if k > 0 {
                                assert(v[k] == score_chain(h, f, oya, tsumo)[k - 1]);
                            }
                        }
                    }
                },
            }
        }
    }
}

/// Rounding up to the next hundred adds less than a hundred and keeps the order.
proof fn lemma_ceil100(x: int, y: int)
    requires
        0 <= x <= y,
    ensures
        x <= ceil100(x) <= x + 99,
        ceil100(x) <= ceil100(y),
{
    assert(x <= ceil100(x) <= x + 99) by (nonlinear_arith)
        requires
            0 <= x,
    {
        assert(ceil100(x) == ((x + 99) / 100) * 100);
    }
    vstd::arithmetic::div_mod::lemma_div_is_ordered(x + 99, y + 99, 100);
    assert(((x + 99) / 100) * 100 <= ((y + 99) / 100) * 100) by (nonlinear_arith)
        requires
            (x + 99) / 100 <= (y + 99) / 100,
    {}
}

/// A score is worth no less with more han or more fu, the other fields the same, for fu as
/// `Score::new` stores it (25, or a multiple of 10 up to 110).
pub proof fn law_total_points_monotone(a: Score, b: Score)
    requires
        a.oya == b.oya,
        a.tsumo == b.tsumo,
        1 <= a.han <= b.han,
        20 <= a.fu <= b.fu <= 110,
        a.fu % 10 == 0 || a.fu == 25,
        b.fu % 10 == 0 || b.fu == 25,
    ensures
        total_points_spec(a) <= total_points_spec(b),
{
    let ba = base_points_spec(a.han as int, a.fu as int);
    let bb = base_points_spec(b.han as int, b.fu as int);
    let limit_a = is_mangan(a.han as int, a.fu as int) || a.han >= 5;
    let limit_b = is_mangan(b.han as int, b.fu as int) || b.han >= 5;
    if !limit_a {
        assert(0 <= ba <= 1920);
        if !limit_b {
            assert(ba <= bb);
            lemma_ceil100(ba, bb);
            lemma_ceil100(2 * ba, 2 * bb);
            lemma_ceil100(4 * ba, 4 * bb);
            lemma_ceil100(6 * ba, 6 * bb);
        } else {
            lemma_ceil100(ba, ba);
            lemma_ceil100(2 * ba, 2 * ba);
            lemma_ceil100(4 * ba, 4 * ba);
            lemma_ceil100(6 * ba, 6 * ba);
        }
    }
}

/// The hands that the capped search of the simulator gives all reach the points and are all
/// worth the same, for every amount of points up to yakuman.
pub proof fn law_capped_reaches(points: int, oya: bool, tsumo: bool, limit: int)
    requires
        0 <= limit <= 110,
    ensures
        capped_points_spec(points, oya, tsumo, limit) matches Some(v) ==> v.len() > 0
            && total_points_spec(v[0]) >= points
            && forall|k: int| 0 <= k < v.len() ==> total_points_spec(#[trigger] v[k]) == total_points_spec(v[0]),
{
    let div = if oya { 6int } else { 4int };
    if capped_points_spec(points, oya, tsumo, limit) is Some {
        let v = capped_points_spec(points, oya, tsumo, limit)->0;
        if points > 6000 * div {
            lemma_limit_value(13, 1, oya, tsumo);
        } else if points > 4000 * div {
            lemma_limit_value(11, 2, oya, tsumo);
        } else if points > 3000 * div {
            lemma_limit_value(8, 3, oya, tsumo);
        } else if points > 2000 * div {
            lemma_limit_value(6, 2, oya, tsumo);
        } else {
            lemma_first_fit_found(points, oya, tsumo, limit, 30, 1, 30);
            match first_fit(points, oya, tsumo, limit, 30, 1, 30) {
                None => {},
                Some((h, f)) => {
                    lemma_chain_value(h, f, oya, tsumo);
                    assert forall|k: int| 0 <= k < v.len() implies total_points_spec(#[trigger] v[k]) == total_points_spec(v[0]) by {
                        if k > 0 {
                            assert(v[k] == score_chain(h, f, oya, tsumo)[k - 1]);
                        }
                    }
                },
            }
        }
    }
}

/// The first hand that the capped search gives, read back as a guess, is worth what it is.
proof fn lemma_capped_first_reads_back(points: int, oya: bool, tsumo: bool, limit: int)
    requires
        0 <= limit <= 110,
    ensures
        capped_points_spec(points, oya, tsumo, limit) matches Some(v) ==> v.len() > 0
            && total_points_spec(score_of(v[0].han as int, v[0].fu as int, oya, tsumo)) == total_points_spec(v[0]),
{
    let div = if oya { 6int } else { 4int };
    if points <= 8000 * div {
        let v = capped_points_spec(points, oya, tsumo, limit)->0;
        if points > 2000 * div {
            assert(v.len() > 0);
            assert(v[0].fu == 0);
            assert(score_of(v[0].han as int, v[0].fu as int, oya, tsumo) == v[0]);
        } else {
            lemma_first_fit_found(points, oya, tsumo, limit, 30, 1, 30);
            match first_fit(points, oya, tsumo, limit, 30, 1, 30) {
                None => {
                    assert(v[0] == score_of(3, 70, oya, tsumo));
                },
                Some((h, f)) => {
                    assert(v[0] == score_of(h, f, oya, tsumo));
                    assert(rounded_fu(f) == f);
                    assert(score_of(v[0].han as int, v[0].fu as int, oya, tsumo) == v[0]);
                },
            }
        }
    }
}

/// The hands that `evaluate` gives as the right answers are judged right when given back as
/// the guesses.
pub proof fn law_answers_are_right(s: South4Simulator, direct_ron: (u8, u8), other_ron: (u8, u8), tsumo: (u8, u8), hard_mode: bool)
    ensures
        ({
            let r = evaluate_spec(s, direct_ron, other_ron, tsumo, hard_mode);
            evaluate_spec(s, r.1.0, r.1.1, r.1.2, hard_mode).0 == (true, true, true)
        }),
{
    let limit = if hard_mode { 110int } else { 60int };
    let oya = s.oya_state == 2;
    let pd = super::south_4_simulator::point_difference(s);
    lemma_capped_first_reads_back(pd / 2, oya, false, limit);
    lemma_capped_first_reads_back(pd, oya, false, limit);
    lemma_capped_first_reads_back(super::south_4_simulator::tsumo_points(s), oya, true, limit);
    assert(total_points_spec(score_of(0, 0, oya, false)) == 0);
    assert(total_points_spec(score_of(0, 0, oya, true)) == 0);
}

/// A slot of the sequence has the property where the count is not zero.
proof fn lemma_slot_witness(s: Seq<Option<Tile>>, p: spec_fn(Option<Tile>) -> bool)
    requires
        slot_count(s, p) > 0,
    ensures
        exists|k: int| 0 <= k < s.len() && p(#[trigger] s[k]),
    decreases s.len(),
{
    if !p(s.last()) {
        lemma_slot_witness(s.drop_last(), p);
        let k = choose|k: int| 0 <= k < s.drop_last().len() && p(#[trigger] s.drop_last()[k]);
        assert(s[k] == s.drop_last()[k]);
    } else {
        assert(p(s[s.len() - 1]));
    }
}

/// No slot has the property where the count is zero.
proof fn lemma_slot_none(s: Seq<Option<Tile>>, p: spec_fn(Option<Tile>) -> bool)
    requires
        slot_count(s, p) == 0,
    ensures
        forall|k: int| 0 <= k < s.len() ==> !p(#[trigger] s[k]),
    decreases s.len(),
{
    if s.len() > 0 {
        super::tile_counts::lemma_slot_count_push(s.drop_last(), s.last(), p);
        assert(s.drop_last().push(s.last()) =~= s);
        if slot_count(s.drop_last(), p) < 0 {
            lemma_slot_count_nonneg(s.drop_last(), p);
        }
        lemma_slot_none(s.drop_last(), p);
        assert forall|k: int| 0 <= k < s.len() implies !p(#[trigger] s[k]) by {
            if k < s.len() - 1 {
                assert(s[k] == s.drop_last()[k]);
            }
        }
    }
}

proof fn lemma_slot_count_nonneg(s: Seq<Option<Tile>>, p: spec_fn(Option<Tile>) -> bool)
    ensures
        slot_count(s, p) >= 0,
    decreases s.len(),
{
    if s.len() > 0 {
        lemma_slot_count_nonneg(s.drop_last(), p);
    }
}

/// The first slot with a property, where one has it.
proof fn lemma_first_slot(s: Seq<Option<Tile>>, p: spec_fn(Option<Tile>) -> bool, k: int)
    requires
        0 <= k < s.len(),
        p(s[k]),
    ensures
        exists|i: int| 0 <= i <= k && p(#[trigger] s[i]) && forall|j: int| 0 <= j < i ==> !p(#[trigger] s[j]),
    decreases k,
{
    if exists|j: int| 0 <= j < k && p(#[trigger] s[j]) {
        let j = choose|j: int| 0 <= j < k && p(#[trigger] s[j]);
        lemma_first_slot(s, p, j);
    } else {
        assert(forall|j: int| 0 <= j < k ==> !p(#[trigger] s[j]));
    }
}

/// Undrawn slots hold no drawn tile.
proof fn lemma_undrawn_none(s: Seq<Option<Tile>>)
    ensures
        slot_count(undrawn(s), |o: Option<Tile>| is_drawn(o)) == 0,
    decreases s.len(),
{
    if s.len() > 0 {
        lemma_undrawn_none(s.drop_last());
        let d = undrawn(s.drop_last());
        match s.last() {
            Some(t) => {
                lemma_slot_count_push(d, Some(Tile { is_draw: false, ..t }), |o: Option<Tile>| is_drawn(o));
                assert(undrawn(s) == d.push(Some(Tile { is_draw: false, ..t }))) by {
                    assert(d + seq![Some(Tile { is_draw: false, ..t })] =~= d.push(Some(Tile { is_draw: false, ..t })));
                }
            },
            None => {
                assert(undrawn(s) =~= d);
            },
        }
    }
}

/// A drawn tile is the one the hand then gives as drawn: after `draw_tile`, the first drawn
/// slot (the one `get_drawn_tile` reads) holds the tile drawn, and there is one.
pub proof fn law_draw_then_drawn(s: Seq<Option<Tile>>, tile: Tile)
    ensures
        ({
            let d = Tile { is_draw: true, ..tile };
            let r = sort_tiles(sort_tiles(undrawn(s)).push(Some(d)));
            &&& exists|i: int| first_drawn(r, i)
            &&& forall|i: int| first_drawn(r, i) ==> r[i] == Some(d)
        }),
{
    let d = Tile { is_draw: true, ..tile };
    let u = sort_tiles(undrawn(s));
    let p = u.push(Some(d));
    let r = sort_tiles(p);
    let drawn = |o: Option<Tile>| is_drawn(o);
    let other = |o: Option<Tile>| is_drawn(o) && o != Some(d);
    lemma_undrawn_none(s);
    lemma_slot_count_sort(undrawn(s), drawn);
    lemma_slot_count_push(u, Some(d), drawn);
    lemma_slot_count_sort(p, drawn);
    lemma_slot_none(u, drawn);
    lemma_slot_count_nonneg(u, other);
    if slot_count(u, other) > 0 {
        lemma_slot_witness(u, other);
    }
    lemma_slot_count_push(u, Some(d), other);
    lemma_slot_count_sort(p, other);
    lemma_slot_none(r, other);
    lemma_slot_witness(r, drawn);
    let k = choose|k: int| 0 <= k < r.len() && drawn(#[trigger] r[k]);
    lemma_first_slot(r, drawn, k);
    let i = choose|i: int| 0 <= i <= k && drawn(#[trigger] r[i]) && forall|j: int| 0 <= j < i ==> !drawn(#[trigger] r[j]);
    assert(first_drawn(r, i)) by {
        assert forall|j: int| 0 <= j < i implies !(#[trigger] r[j] matches Some(t) && t.is_draw) by {
            assert(!drawn(r[j]));
        }
    }
    assert forall|i2: int| first_drawn(r, i2) implies r[i2] == Some(d) by {
        assert(!other(r[i2]));
        assert(drawn(r[i2]));
    }
}

/// Adding a free tile and then removing one of its kind gives the counts back: after
/// `add_tile`, `remove_tile` finds a free tile of that kind and takes it out, and every count
/// is what it was.
pub proof fn law_add_then_remove(s: Seq<Option<Tile>>, t: Tile)
    requires
        !t.is_open,
        !t.is_kan,
    ensures
        ({
            let a = sort_tiles(s.push(Some(t)));
            let i = first_free_index(a, t.spec_id());
            &&& first_free_with_id(a, t.spec_id(), i)
            &&& forall|id: int, r: bool| #[trigger] id_count(a.remove(i), id, r) == id_count(s, id, r)
        }),
{
    let a = sort_tiles(s.push(Some(t)));
    let id0 = t.spec_id();
    let free = |o: Option<Tile>| free_with_id(o, id0);
    lemma_id_count_sort(s.push(Some(t)), id0, true);
    lemma_id_count_push(s, Some(t), id0, true);
    super::tiles_seq::lemma_counts_bounded(s, id0, true);
    super::ankan::lemma_free_witness(a, id0);
    let k = choose|k: int| 0 <= k < a.len() && free_with_id(#[trigger] a[k], id0);
    assert(free(a[k]));
    lemma_first_slot(a, free, k);
    let i = choose|i: int| 0 <= i <= k && free(#[trigger] a[i]) && forall|j: int| 0 <= j < i ==> !free(#[trigger] a[j]);
    assert(first_free_with_id(a, id0, i)) by {
        assert forall|j: int| 0 <= j < i implies !free_with_id(#[trigger] a[j], id0) by {
            assert(!free(a[j]));
        }
    }
    let j = first_free_index(a, id0);
    assert(first_free_with_id(a, id0, j));
    if j < i {
        assert(!free(a[j]));
    } else if j > i {
        assert(!free_with_id(a[i], id0));
    }
    assert forall|id: int, r: bool| #[trigger] id_count(a.remove(j), id, r) == id_count(s, id, r) by {
        lemma_id_count_remove_exact(a, j, id, r);
        lemma_id_count_sort(s.push(Some(t)), id, r);
        lemma_id_count_push(s, Some(t), id, r);
        assert(slot_in(a[j], id, r) == slot_in(Some(t), id, r));
    }
}

/// The calls of a hand after a call are the calls before it and the new one last:
/// `get_open_shapes` after `add_open_shape` gives the new call back at the end.
pub proof fn law_call_then_calls(shapes: Seq<CompleteShape>, call: OpenShape)
    ensures
        open_shapes(shapes.push(CompleteShape::Open(call))) == open_shapes(shapes).push(call),
{
    assert(shapes.push(CompleteShape::Open(call)).drop_last() =~= shapes);
    assert(open_shapes(shapes) + seq![call] =~= open_shapes(shapes).push(call));
}

/// The yaku listed for one kind are all of that kind.
proof fn lemma_yaku_upto_kind(table: Table, v: Seq<Shape>, n: int, yakuman: bool)
    ensures
        forall|k: int| 0 <= k < yaku_upto(table, v, n, yakuman).len() ==> is_yakuman_spec(#[trigger] yaku_upto(table, v, n, yakuman)[k]) == yakuman,
    decreases n,
{
    if n > 0 {
        lemma_yaku_upto_kind(table, v, n - 1, yakuman);
        let prev = yaku_upto(table, v, n - 1, yakuman);
        assert forall|k: int| 0 <= k < yaku_upto(table, v, n, yakuman).len() implies is_yakuman_spec(#[trigger] yaku_upto(table, v, n, yakuman)[k]) == yakuman by {
            if k < prev.len() {
                assert(yaku_upto(table, v, n, yakuman)[k] == prev[k]);
            }
        }
    }
}

/// Whether the yaku of a list are all yakuman, with the score of a yakuman, or none is and
/// the han of the score are theirs together.
pub open spec fn all_or_no_yakuman(l: Seq<Yaku>, s: Score, closed: bool) -> bool {
    ||| l.len() > 0 && s.han == 13 && s.fu == 0 && forall|k: int| 0 <= k < l.len() ==> is_yakuman_spec(#[trigger] l[k])
    ||| s.han == han_total(l, closed) as u8 && forall|k: int| 0 <= k < l.len() ==> !is_yakuman_spec(#[trigger] l[k])
}

proof fn lemma_variant_all_or_none(table: Table, v: Seq<Shape>)
    ensures
        all_or_no_yakuman(variant_score(table, v).0, variant_score(table, v).1, open_shapes(table.my_hand.unwrap().shapes@).len() == 0),
{
    lemma_yaku_upto_kind(table, v, 48, true);
    lemma_yaku_upto_kind(table, v, 48, false);
}

proof fn lemma_best_all_or_none(table: Table, vars: Seq<Seq<Shape>>, n: int)
    ensures
        all_or_no_yakuman(best_variant(table, vars, n).0, best_variant(table, vars, n).1, open_shapes(table.my_hand.unwrap().shapes@).len() == 0),
    decreases n,
{
    if n > 0 {
        lemma_best_all_or_none(table, vars, n - 1);
        lemma_variant_all_or_none(table, vars[n - 1]);
    }
}

/// The yaku that `Table::yaku` finds are either all yakuman, scored as 13 han with no fu, or
/// none of them is a yakuman and the han of the score add up from theirs.
pub proof fn law_yakuman_alone(table: Table)
    ensures
        find_spec(table) matches Some((l, s)) ==> all_or_no_yakuman(l, s, open_shapes(table.my_hand.unwrap().shapes@).len() == 0),
{
    if find_spec(table) is Some {
        let h = table.my_hand.unwrap();
        let vars = super::yaku::hand_variants(h);
        lemma_best_all_or_none(table, vars, vars.len() as int);
    }
}

/// No yaku list adds up to negative han.
proof fn lemma_han_total_nonneg(l: Seq<Yaku>, closed: bool)
    ensures
        han_total(l, closed) >= 0,
    decreases l.len(),
{
    if l.len() > 0 {
        lemma_han_total_nonneg(l.drop_last(), closed);
    }
}

/// A split scored at 5 han or more has no fu.
proof fn lemma_variant_no_fu_from_mangan(table: Table, v: Seq<Shape>)
    ensures
        variant_score(table, v).1.han >= 5 ==> variant_score(table, v).1.fu == 0,
{
    let closed = super::hand::open_shapes(table.my_hand.unwrap().shapes@).len() == 0;
    lemma_han_total_nonneg(yaku_upto(table, v, 48, false), closed);
}

/// The best of the first `n` variants is worth at least as much as each of them, and is the
/// score of one of them.
proof fn lemma_best_variant(table: Table, vars: Seq<Seq<Shape>>, n: int)
    requires
        0 < n <= vars.len(),
    ensures
        forall|k: int| 0 <= k < n ==> total_points_spec(#[trigger] variant_score(table, vars[k]).1)
            <= total_points_spec(best_variant(table, vars, n).1),
        exists|k: int| 0 <= k < n && best_variant(table, vars, n) == #[trigger] variant_score(table, vars[k]),
    decreases n,
{
    if n > 1 {
        lemma_best_variant(table, vars, n - 1);
    }
    assert(best_variant(table, vars, n) == variant_score(table, vars[n - 1])
        || best_variant(table, vars, n) == best_variant(table, vars, n - 1));
}

/// What `YakuFinder::find` scores a complete hand at is the score of one of the hand's splits,
/// no split of the hand is worth more, and at 5 han or more it has no fu.
pub proof fn law_find_takes_best_split(table: Table)
    ensures
        ({
            let vars = hand_variants(table.my_hand.unwrap());
            let r = find_spec(table)->0;
            find_spec(table) is Some && vars.len() > 0 ==> {
                &&& forall|k: int| 0 <= k < vars.len() ==> total_points_spec(#[trigger] variant_score(table, vars[k]).1)
                    <= total_points_spec(r.1)
                &&& exists|k: int| 0 <= k < vars.len() && r == #[trigger] variant_score(table, vars[k])
                &&& r.1.han >= 5 ==> r.1.fu == 0
            }
        }),
{
    let vars = hand_variants(table.my_hand.unwrap());
    if find_spec(table) is Some && vars.len() > 0 {
        lemma_best_variant(table, vars, vars.len() as int);
        let k = choose|k: int| 0 <= k < vars.len() && find_spec(table)->0 == #[trigger] variant_score(table, vars[k]);
        lemma_variant_no_fu_from_mangan(table, vars[k]);
    }
}

/// Haitei is the win on the last tile by tsumo, houtei the win on the last tile by ron: with
/// no tiles left each holds exactly by the way of winning, so never both.
pub proof fn law_haitei_houtei(table: Table, v: Seq<Shape>)
    ensures
        in_hand_spec(Yaku::Haitei, table, v) == (table.tiles_remaining == Some(0u8) && table.my_tsumo.unwrap_or(false)),
        in_hand_spec(Yaku::Houtei, table, v) == (table.tiles_remaining == Some(0u8) && !table.my_tsumo.unwrap_or(false)),
        !(in_hand_spec(Yaku::Haitei, table, v) && in_hand_spec(Yaku::Houtei, table, v)),
{
}

/// `YakuFinder::find` finds nothing exactly where the hand is not complete (its shanten is
/// not -1).
pub proof fn law_find_none_unless_complete(table: Table)
    ensures
        find_spec(table) is None <==> super::improving::start_shanten(table.my_hand.unwrap()) != -1,
{
}

/// The scores that follow a found one are for the same player and win, each with more han
/// than it.
proof fn lemma_chain_fields(h: int, fu: int, oya: bool, tsumo: bool)
    requires
        0 <= h,
        0 <= fu,
        h + fu <= 200,
    ensures
        forall|k: int| 0 <= k < score_chain(h, fu, oya, tsumo).len() ==> {
            let c = #[trigger] score_chain(h, fu, oya, tsumo)[k];
            c.oya == oya && c.tsumo == tsumo && h < c.han
        },
    decreases fu,
{
    let f = fu / 2;
    if fu > 0 && f >= 20 && (f == 25 || f % 10 == 0) && !(f == 20 && !tsumo) && f != 25 {
        lemma_chain_fields(h + 1, f, oya, tsumo);
        let c = score_chain(h, fu, oya, tsumo);
        assert forall|k: int| 0 <= k < c.len() implies {
            let x = #[trigger] c[k];
            x.oya == oya && x.tsumo == tsumo && h < x.han
        } by {
            if k > 0 {
                assert(c[k] == score_chain(h + 1, f, oya, tsumo)[k - 1]);
            }
        }
    }
}

/// Every score `Score::from_points` lists is for the given player and way of winning, and
/// the first has the fewest han.
pub proof fn law_from_points_fields(points: int, oya: bool, tsumo: bool)
    ensures
        from_points_spec(points, oya, tsumo) matches Some(v) ==> forall|k: int| 0 <= k < v.len() ==> {
            let x = #[trigger] v[k];
            x.oya == oya && x.tsumo == tsumo && v[0].han <= x.han
        },
{
    let div = if oya { 6int } else { 4int };
    if from_points_spec(points, oya, tsumo) is Some && points <= 2000 * div {
        lemma_first_fit_found(points, oya, tsumo, 110, 20, 1, 20);
        match first_fit(points, oya, tsumo, 110, 20, 1, 20) {
            None => {},
            Some((h, f)) => {
                if !is_mangan(score_of(h, f, oya, tsumo).han as int, score_of(h, f, oya, tsumo).fu as int) {
                    lemma_chain_fields(h, f, oya, tsumo);
                    let v = from_points_spec(points, oya, tsumo)->0;
                    assert forall|k: int| 0 <= k < v.len() implies {
                        let x = #[trigger] v[k];
                        x.oya == oya && x.tsumo == tsumo && v[0].han <= x.han
                    } by {
                        if k > 0 {
                            assert(v[k] == score_chain(h, f, oya, tsumo)[k - 1]);
                        }
                    }
                }
            },
        }
    }
}

/// Where some han and fu from `(han, fu)` on, in the order of the search, reach the points,
/// the search finds a han and fu no later than those.
#[verifier::spinoff_prover]
#[verifier::rlimit(40)]
proof fn lemma_first_fit_no_later(points: int, oya: bool, tsumo: bool, han: int, fu: int, h: int, f: int)
    requires
        1 <= han,
        20 <= fu,
        fu % 10 == 0,
        1 <= h <= 3,
        20 <= f <= 110,
        f % 10 == 0,
        h > han || (h == han && f >= fu),
        total_points_spec(score_of(h, f, oya, tsumo)) >= points,
    ensures
        first_fit(points, oya, tsumo, 110, 20, han, fu) matches Some((h0, f0)) && (h0 < h || (h0 == h && f0 <= f)),
    decreases 4 - han, 120 - fu,
{
    if fu > 110 {
        lemma_first_fit_no_later(points, oya, tsumo, han + 1, 20, h, f);
    } else if total_points_spec(score_of(han, fu, oya, tsumo)) >= points {
    } else {
        lemma_first_fit_no_later(points, oya, tsumo, han, fu + 10, h, f);
    }
}

/// A score of up to `cap` han (5, 7, 10 or 12) and 20 to 110 fu is worth no more than the
/// limit hand of that many han.
proof fn lemma_total_below_limit(h: int, f: int, cap: int, oya: bool, tsumo: bool)
    requires
        1 <= h <= cap,
        cap == 5 || cap == 7 || cap == 10 || cap == 12,
        20 <= f <= 110,
        f % 10 == 0,
    ensures
        total_points_spec(score_of(h, f, oya, tsumo)) <= total_points_spec(score_of(cap, 110, oya, tsumo)),
        total_points_spec(score_of(cap, 110, oya, tsumo)) == (if cap == 5 { 2000int } else if cap == 7 { 3000int }
            else if cap == 10 { 4000int } else { 6000int }) * (if oya { 6int } else { 4int }),
{
    assert(rounded_fu(f) == f);
    assert(rounded_fu(110) == 110);
    law_total_points_monotone(score_of(h, f, oya, tsumo), score_of(cap, 110, oya, tsumo));
}

/// The first score that `Score::from_points` lists is the cheapest in han: it reaches the
/// points, and no score of fewer han (1 to 13 han, 20 to 110 fu) reaches them. An amount
/// that a sanbaiman reaches is answered with 11 han, not with yakuman.
pub proof fn law_from_points_fewest_han(points: int, oya: bool, tsumo: bool, h: int, f: int)
    requires
        1 <= h <= 13,
        20 <= f <= 110,
        f % 10 == 0,
        total_points_spec(score_of(h, f, oya, tsumo)) >= points,
    ensures
        from_points_spec(points, oya, tsumo) matches Some(v) && v.len() > 0 && v[0].han <= h
            && total_points_spec(v[0]) >= points,
{
    let div = if oya { 6int } else { 4int };
    law_from_points_same_value(points, oya, tsumo);
    if h <= 12 {
        lemma_total_below_limit(h, f, 12, oya, tsumo);
    }
    if h <= 10 {
        lemma_total_below_limit(h, f, 10, oya, tsumo);
    }
    if h <= 7 {
        lemma_total_below_limit(h, f, 7, oya, tsumo);
    }
    if h <= 5 {
        lemma_total_below_limit(h, f, 5, oya, tsumo);
    }
    if h <= 3 {
        lemma_first_fit_no_later(points, oya, tsumo, 1, 20, h, f);
    }
    if points <= 2000 * div {
        lemma_first_fit_found(points, oya, tsumo, 110, 20, 1, 20);
    }
}

} // verus!
