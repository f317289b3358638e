use vstd::prelude::*;
use super::tile::{Tile, TileType, TileColor, color_index, next_id_spec, prev_id_spec};
use super::shapes::{ClosedShape, CompleteShape, OpenShape, Shape, ShapeType, tiles_notation, push_tiles_notation};
use super::shanten::is_terminal_or_honor_index;
use super::tiles_seq::id_count;
use super::scores::{Score, score_of, total_points_spec};
use super::shape_finder::{ShapeFinder, search_spec, free_counts, extra_shapes};

verus! {

/// The yaku, in the order they are looked for.
#[derive(Debug, Clone, Copy, PartialEq, Eq, Structural)]
pub enum Yaku {
    // 1 han closed
    MenzenTsumo,
    Riichi,
    Ippatsu,
    Pinfu,
    Iipeikou,
    // 1 han
    Haitei,
    Houtei,
    Rinshan,
    Chankan,
    Tanyao,
    EastRound,
    EastSeat,
    SouthRound,
    SouthSeat,
    WestRound,
    WestSeat,
    NorthSeat,
    WhiteDragons,
    GreenDragons,
    RedDragons,
    // 2 han
    DoubleRiichi,
    Chanta,
    SanshokuDoujun,
    Ittsu,
    Toitoi,
    Sanankou,
    SanshokuDoukou,
    Sankantsu,
    Chiitoitsu,
    Honroutou,
    Shousangen,
    // 3 han
    Honitsu,
    Junchan,
    Ryanpeikou,
    // 6 han
    Chinitsu,
    // Yakuman
    Kazoe,
    Kokushi,
    Suuankou,
    Daisangen,
    Shousuushii,
    Daisuushii,
    Tsuuiisou,
    Chinroutou,
    Ryuuiisou,
    Chuuren,
    Suukantsu,
    // special
    Tenhou,
    Chiihou,
}

/// What a shape is for the yaku: 0 a closed run, 1 a closed triplet, 2 a closed kan, 3 a pair,
/// 4 a single, 5 a chi, 6 a pon, 7 an open kan, 8 an incomplete shape.
pub open spec fn class_of(s: Shape) -> int {
    match s.shape_type {
        ShapeType::Complete(CompleteShape::Closed(ClosedShape::Shuntsu(_))) => 0,
        ShapeType::Complete(CompleteShape::Closed(ClosedShape::Koutsu(_))) => 1,
        ShapeType::Complete(CompleteShape::Closed(ClosedShape::Kantsu(_))) => 2,
        ShapeType::Complete(CompleteShape::Closed(ClosedShape::Toitsu(_))) => 3,
        ShapeType::Complete(CompleteShape::Closed(ClosedShape::Single(_))) => 4,
        ShapeType::Complete(CompleteShape::Open(OpenShape::Chi(_))) => 5,
        ShapeType::Complete(CompleteShape::Open(OpenShape::Pon(_))) => 6,
        ShapeType::Complete(CompleteShape::Open(OpenShape::Kan(_))) => 7,
        ShapeType::Incomplete(..) => 8,
    }
}

/// The `k`-th tile of a shape (its first one where it has fewer).
pub open spec fn tile_of_shape(s: Shape, k: int) -> Tile {
    match s.shape_type {
        ShapeType::Complete(CompleteShape::Closed(ClosedShape::Shuntsu(t))) => t[k],
        ShapeType::Complete(CompleteShape::Closed(ClosedShape::Koutsu(t))) => t[k],
        ShapeType::Complete(CompleteShape::Closed(ClosedShape::Kantsu(t))) => t[k],
        ShapeType::Complete(CompleteShape::Closed(ClosedShape::Toitsu(t))) => t[0],
        ShapeType::Complete(CompleteShape::Closed(ClosedShape::Single(t))) => t,
        ShapeType::Complete(CompleteShape::Open(OpenShape::Chi(t))) => t[k],
        ShapeType::Complete(CompleteShape::Open(OpenShape::Pon(t))) => t[k],
        ShapeType::Complete(CompleteShape::Open(OpenShape::Kan(k4))) => k4.spec_tiles()[k],
        ShapeType::Incomplete(_, t) => t,
    }
}

/// A triplet or a quad, closed or called.
pub open spec fn is_set(c: int) -> bool {
    c == 1 || c == 2 || c == 6 || c == 7
}

/// A run, closed or called.
pub open spec fn is_run(c: int) -> bool {
    c == 0 || c == 5
}

pub open spec fn same(a: Tile, b: Tile) -> bool {
    a.spec_key() == b.spec_key()
}

pub open spec fn term_or_honor(t: Tile) -> bool {
    t.spec_is_terminal() || t.spec_is_honor()
}

/// Goes through the shapes with a state; a step can end the search with its answer.
pub open spec fn fold_shapes<S>(s: Seq<Shape>, init: S, step: spec_fn(S, Shape) -> Result<S, bool>) -> Result<S, bool>
    decreases s.len(),
{
    if s.len() == 0 {
        Ok(init)
    } else {
        match fold_shapes(s.drop_last(), init, step) {
            Err(b) => Err(b),
            Ok(st) => step(st, s.last()),
        }
    }
}

pub proof fn lemma_fold_stops<S>(s: Seq<Shape>, init: S, step: spec_fn(S, Shape) -> Result<S, bool>, n: int)
    requires
        0 <= n <= s.len(),
        fold_shapes(s.take(n), init, step) is Err,
    ensures
        fold_shapes(s, init, step) == fold_shapes(s.take(n), init, step),
    decreases s.len() - n,
{
    if n < s.len() {
        assert(s.drop_last().take(n) =~= s.take(n));
        lemma_fold_stops(s.drop_last(), init, step, n);
    } else {
        assert(s.take(n) =~= s);
    }
}

/// The answer of a fold: the early answer, or what the final state says.
pub open spec fn fold_answer<S>(r: Result<S, bool>, last: spec_fn(S) -> bool) -> bool {
    match r {
        Err(b) => b,
        Ok(st) => last(st),
    }
}

// ---- pinfu

pub open spec fn pinfu_step(wt: Tile, prevalent: Option<u8>, seat: Option<u8>, st: (bool, int), s: Shape) -> Result<(bool, int), bool> {
    let c = class_of(s);
    let t0 = tile_of_shape(s, 0);
    let t2 = tile_of_shape(s, 2);
    if c == 0 {
        let ryanmen = if prev_id_spec(t0.spec_id(), false, 1) == 0int {
            same(t0, wt)
        } else if next_id_spec(t2.spec_id(), false, 1) == 0 {
            same(t2, wt)
        } else {
            same(t0, wt) || same(t2, wt)
        };
        Ok((st.0 || ryanmen, st.1))
    } else if c == 3 {
        if st.1 + 1 > 1 {
            Err(false)
        } else {
            match t0.tile_type {
                TileType::Wind(v) => match prevalent {
                    None => Err(false),
                    Some(p) => match seat {
                        None => Err(false),
                        Some(w) => if v == p || v == w { Err(false) } else { Ok((st.0, st.1 + 1)) },
                    },
                },
                TileType::Dragon(_) => Err(false),
                TileType::Number(_, _) => Ok((st.0, st.1 + 1)),
            }
        }
    } else {
        Err(false)
    }
}

pub open spec fn pinfu_fn(wt: Tile, prevalent: Option<u8>, seat: Option<u8>) -> spec_fn((bool, int), Shape) -> Result<(bool, int), bool> {
    |st: (bool, int), s: Shape| pinfu_step(wt, prevalent, seat, st, s)
}

/// Pinfu: only runs and a pair of no value, won on a two-sided wait.
pub open spec fn pinfu_spec(variant: Seq<Shape>, wt: Tile, prevalent: Option<u8>, seat: Option<u8>) -> bool {
    fold_answer(fold_shapes(variant, (false, 0int), pinfu_fn(wt, prevalent, seat)), |st: (bool, int)| st.0)
}

// ---- peikou

/// How many times a key occurs.
pub open spec fn occurrences(seen: Seq<Seq<char>>, key: Seq<char>) -> int
    decreases seen.len(),
{
    if seen.len() == 0 {
        0
    } else {
        occurrences(seen.drop_last(), key) + if seen.last() == key { 1int } else { 0 }
    }
}

/// The notation of a run's tiles, which tells runs apart.
pub open spec fn run_key(s: Shape) -> Seq<char> {
    tiles_notation(seq![tile_of_shape(s, 0), tile_of_shape(s, 1), tile_of_shape(s, 2)])
}

pub open spec fn peikou_step(st: (int, Seq<Seq<char>>), s: Shape) -> Result<(int, Seq<Seq<char>>), bool> {
    let c = class_of(s);
    if c == 0 {
        let key = run_key(s);
        Ok((if occurrences(st.1, key) == 1 { st.0 + 1 } else { st.0 }, st.1.push(key)))
    } else if c == 4 || c == 8 {
        Err(false)
    } else {
        Ok(st)
    }
}

pub open spec fn peikou_fn() -> spec_fn((int, Seq<Seq<char>>), Shape) -> Result<(int, Seq<Seq<char>>), bool> {
    |st: (int, Seq<Seq<char>>), s: Shape| peikou_step(st, s)
}

/// The number of pairs of identical closed runs (0 where the variant has a single or an
/// incomplete shape).
pub open spec fn peikou_spec(variant: Seq<Shape>) -> int {
    match fold_shapes(variant, (0int, Seq::<Seq<char>>::empty()), peikou_fn()) {
        Err(_) => 0,
        Ok(st) => st.0,
    }
}

// ---- yakuhai

/// A triplet or quad (closed or called) of this tile id.
pub open spec fn yakuhai_spec(variant: Seq<Shape>, id: int) -> bool {
    exists|i: int| 0 <= i < variant.len() && is_set(class_of(#[trigger] variant[i])) && tile_of_shape(variant[i], 0).spec_id() == id
}

// ---- chanta and junchan

pub open spec fn chanta_step(st: (bool, bool), s: Shape) -> Result<(bool, bool), bool> {
    let c = class_of(s);
    let t0 = tile_of_shape(s, 0);
    let t2 = tile_of_shape(s, 2);
    if is_run(c) {
        if !t0.spec_is_terminal() && !t2.spec_is_terminal() { Err(false) } else { Ok((true, st.1)) }
    } else if is_set(c) || c == 3 {
        if !term_or_honor(t0) { Err(false) } else { Ok((st.0, st.1 || t0.spec_is_honor())) }
    } else {
        Err(false)
    }
}

pub open spec fn chanta_fn() -> spec_fn((bool, bool), Shape) -> Result<(bool, bool), bool> {
    |st: (bool, bool), s: Shape| chanta_step(st, s)
}

/// Chanta: every shape holds a terminal or an honor, with a run and an honor.
pub open spec fn chanta_spec(variant: Seq<Shape>) -> bool {
    fold_answer(fold_shapes(variant, (false, false), chanta_fn()), |st: (bool, bool)| st.0 && st.1)
}

pub open spec fn junchan_step(st: bool, s: Shape) -> Result<bool, bool> {
    let c = class_of(s);
    let t0 = tile_of_shape(s, 0);
    let t2 = tile_of_shape(s, 2);
    if is_run(c) {
        if !t0.spec_is_terminal() && !t2.spec_is_terminal() { Err(false) } else { Ok(true) }
    } else if is_set(c) || c == 3 {
        if !t0.spec_is_terminal() { Err(false) } else { Ok(st) }
    } else {
        Err(false)
    }
}

pub open spec fn junchan_fn() -> spec_fn(bool, Shape) -> Result<bool, bool> {
    |st: bool, s: Shape| junchan_step(st, s)
}

/// Junchan: every shape holds a terminal, with a run.
pub open spec fn junchan_spec(variant: Seq<Shape>) -> bool {
    fold_answer(fold_shapes(variant, false, junchan_fn()), |st: bool| st)
}

// ---- sanshoku

/// The number and color index of a number tile (color 3 for honors).
pub open spec fn number_slot(t: Tile) -> (int, int) {
    match t.tile_type {
        TileType::Number(v, c) => (v as int, color_index(c)),
        _ => (0, 3),
    }
}

/// Marks the color of a number as seen; ends with `true` when all three colors are.
pub open spec fn mark_color(st: Seq<bool>, t: Tile) -> Result<Seq<bool>, bool> {
    let (v, c) = number_slot(t);
    if c == 3 {
        Ok(st)
    } else {
        let st2 = st.update(v * 3 + c, true);
        if st2[v * 3] && st2[v * 3 + 1] && st2[v * 3 + 2] { Err(true) } else { Ok(st2) }
    }
}

pub open spec fn doujun_step(st: Seq<bool>, s: Shape) -> Result<Seq<bool>, bool> {
    let c = class_of(s);
    if is_run(c) {
        mark_color(st, tile_of_shape(s, 0))
    } else if c == 4 || c == 8 {
        Err(false)
    } else {
        Ok(st)
    }
}

pub open spec fn doujun_fn() -> spec_fn(Seq<bool>, Shape) -> Result<Seq<bool>, bool> {
    |st: Seq<bool>, s: Shape| doujun_step(st, s)
}

/// Thirty flags, one for each number and color.
pub open spec fn no_colors() -> Seq<bool> {
    Seq::new(30, |i: int| false)
}

/// Sanshoku doujun: the same run in all three colors.
pub open spec fn doujun_spec(variant: Seq<Shape>) -> bool {
    fold_answer(fold_shapes(variant, no_colors(), doujun_fn()), |st: Seq<bool>| false)
}

pub open spec fn doukou_step(st: Seq<bool>, s: Shape) -> Result<Seq<bool>, bool> {
    let c = class_of(s);
    if is_set(c) {
        mark_color(st, tile_of_shape(s, 0))
    } else if c == 4 || c == 8 {
        Err(false)
    } else {
        Ok(st)
    }
}

pub open spec fn doukou_fn() -> spec_fn(Seq<bool>, Shape) -> Result<Seq<bool>, bool> {
    |st: Seq<bool>, s: Shape| doukou_step(st, s)
}

/// Sanshoku doukou: the same triplet in all three colors.
pub open spec fn doukou_spec(variant: Seq<Shape>) -> bool {
    fold_answer(fold_shapes(variant, no_colors(), doukou_fn()), |st: Seq<bool>| false)
}

// ---- ittsu

pub open spec fn ittsu_step(st: Seq<int>, s: Shape) -> Result<Seq<int>, bool> {
    let c = class_of(s);
    if is_run(c) {
        let (v, k) = number_slot(tile_of_shape(s, 0));
        if k == 3 {
            Ok(st)
        } else if v == 1 && st[k] == 0 {
            Ok(st.update(k, 1))
        } else if v == 4 && st[k] == 1 {
            Ok(st.update(k, 2))
        } else if v == 7 && st[k] == 2 {
            Ok(st.update(k, 3))
        } else {
            Ok(st)
        }
    } else if c == 4 || c == 8 {
        Err(false)
    } else {
        Ok(st)
    }
}

pub open spec fn ittsu_fn() -> spec_fn(Seq<int>, Shape) -> Result<Seq<int>, bool> {
    |st: Seq<int>, s: Shape| ittsu_step(st, s)
}

/// Ittsu: 123, 456 and 789 of one color, met in that order.
pub open spec fn ittsu_spec(variant: Seq<Shape>) -> bool {
    fold_answer(fold_shapes(variant, seq![0int, 0, 0], ittsu_fn()), |st: Seq<int>| st[0] == 3 || st[1] == 3 || st[2] == 3)
}

// ---- toitoi, sanankou, suuankou

pub open spec fn toitoi_step(closed: bool, wt: Tile, st: bool, s: Shape) -> Result<bool, bool> {
    let c = class_of(s);
    if c == 0 || c == 4 || c == 5 || c == 8 {
        Err(false)
    } else if c == 3 && closed && same(tile_of_shape(s, 0), wt) {
        Err(false)
    } else {
        Ok(st)
    }
}

pub open spec fn toitoi_fn(closed: bool, wt: Tile) -> spec_fn(bool, Shape) -> Result<bool, bool> {
    |st: bool, s: Shape| toitoi_step(closed, wt, st, s)
}

/// Toitoi: only triplets and quads (a closed hand won on its pair is suuankou).
pub open spec fn toitoi_spec(variant: Seq<Shape>, closed: bool, wt: Tile) -> bool {
    fold_answer(fold_shapes(variant, true, toitoi_fn(closed, wt)), |st: bool| st)
}

pub open spec fn sanankou_step(closed: bool, wt: Tile, st: (int, bool, bool), s: Shape) -> Result<(int, bool, bool), bool> {
    let c = class_of(s);
    if c == 0 {
        let w = same(tile_of_shape(s, 0), wt) || same(tile_of_shape(s, 1), wt) || same(tile_of_shape(s, 2), wt);
        Ok((st.0, st.1, st.2 || w))
    } else if c == 1 || c == 2 {
        Ok((st.0 + 1, st.1, st.2))
    } else if c == 3 {
        Ok((st.0, st.1 || (closed && same(tile_of_shape(s, 0), wt)), st.2))
    } else if c == 4 || c == 8 {
        Err(false)
    } else {
        Ok(st)
    }
}

pub open spec fn sanankou_fn(closed: bool, wt: Tile) -> spec_fn((int, bool, bool), Shape) -> Result<(int, bool, bool), bool> {
    |st: (int, bool, bool), s: Shape| sanankou_step(closed, wt, st, s)
}

/// The closing test of sanankou on the closed triplets and the waits.
pub open spec fn sanankou_last(closed: bool, tsumo: bool, st: (int, bool, bool)) -> bool {
    if st.0 < 3 {
        false
    } else if !closed || st.0 == 3 {
        tsumo || st.1 || st.2
    } else if st.0 == 4 {
        !tsumo && !st.1
    } else {
        false
    }
}

/// Sanankou: three concealed triplets.
pub open spec fn sanankou_spec(variant: Seq<Shape>, closed: bool, tsumo: bool, wt: Tile) -> bool {
    fold_answer(fold_shapes(variant, (0int, false, false), sanankou_fn(closed, wt)), |st: (int, bool, bool)| sanankou_last(closed, tsumo, st))
}

pub open spec fn suuankou_step(wt: Tile, st: (bool, bool), s: Shape) -> Result<(bool, bool), bool> {
    let c = class_of(s);
    if c == 1 || c == 2 {
        Ok(st)
    } else if c == 3 {
        if st.1 { Err(false) } else { Ok((st.0 || same(tile_of_shape(s, 0), wt), true)) }
    } else {
        Err(false)
    }
}

pub open spec fn suuankou_fn(wt: Tile) -> spec_fn((bool, bool), Shape) -> Result<(bool, bool), bool> {
    |st: (bool, bool), s: Shape| suuankou_step(wt, st, s)
}

/// Suuankou: four concealed triplets, won by tsumo or on the pair.
pub open spec fn suuankou_spec(variant: Seq<Shape>, tsumo: bool, wt: Tile) -> bool {
    fold_answer(fold_shapes(variant, (false, false), suuankou_fn(wt)), |st: (bool, bool)| tsumo || st.0)
}

// ---- all pairs, honors and terminals

pub open spec fn chiitoitsu_step(st: bool, s: Shape) -> Result<bool, bool> {
    if class_of(s) == 3 { Ok(st) } else { Err(false) }
}

pub open spec fn chiitoitsu_fn() -> spec_fn(bool, Shape) -> Result<bool, bool> {
    |st: bool, s: Shape| chiitoitsu_step(st, s)
}

/// Chiitoitsu: only pairs.
pub open spec fn chiitoitsu_spec(variant: Seq<Shape>) -> bool {
    fold_answer(fold_shapes(variant, true, chiitoitsu_fn()), |st: bool| st)
}

pub open spec fn honroutou_step(st: (bool, bool), s: Shape) -> Result<(bool, bool), bool> {
    let c = class_of(s);
    let t0 = tile_of_shape(s, 0);
    if is_set(c) || c == 3 {
        if !term_or_honor(t0) {
            Err(false)
        } else if t0.spec_is_terminal() {
            Ok((true, st.1))
        } else {
            Ok((st.0, true))
        }
    } else {
        Err(false)
    }
}

pub open spec fn honroutou_fn() -> spec_fn((bool, bool), Shape) -> Result<(bool, bool), bool> {
    |st: (bool, bool), s: Shape| honroutou_step(st, s)
}

/// Honroutou: only terminal and honor triplets and pairs, with both.
pub open spec fn honroutou_spec(variant: Seq<Shape>) -> bool {
    fold_answer(fold_shapes(variant, (false, false), honroutou_fn()), |st: (bool, bool)| st.1 && st.0)
}

pub open spec fn all_sets_step(honor: bool, st: bool, s: Shape) -> Result<bool, bool> {
    let c = class_of(s);
    let t0 = tile_of_shape(s, 0);
    if is_set(c) || c == 3 {
        if honor && !t0.spec_is_honor() {
            Err(false)
        } else if !honor && !t0.spec_is_terminal() {
            Err(false)
        } else {
            Ok(st)
        }
    } else {
        Err(false)
    }
}

pub open spec fn all_sets_fn(honor: bool) -> spec_fn(bool, Shape) -> Result<bool, bool> {
    |st: bool, s: Shape| all_sets_step(honor, st, s)
}

/// Only triplets and pairs of honors (tsuuiisou), or of terminals (chinroutou).
pub open spec fn all_sets_spec(variant: Seq<Shape>, honor: bool) -> bool {
    fold_answer(fold_shapes(variant, true, all_sets_fn(honor)), |st: bool| st)
}

// ---- dragons and winds

pub open spec fn is_dragon(t: Tile) -> bool {
    t.tile_type is Dragon
}

pub open spec fn is_wind(t: Tile) -> bool {
    t.tile_type is Wind
}

pub open spec fn shousangen_step(st: (int, bool), s: Shape) -> Result<(int, bool), bool> {
    let c = class_of(s);
    let t0 = tile_of_shape(s, 0);
    if is_set(c) {
        if is_dragon(t0) {
            if st.0 + 1 > 2 { Err(false) } else { Ok((st.0 + 1, st.1)) }
        } else {
            Ok(st)
        }
    } else if c == 3 {
        Ok((st.0, st.1 || is_dragon(t0)))
    } else if c == 4 || c == 8 {
        Err(false)
    } else {
        Ok(st)
    }
}

pub open spec fn shousangen_fn() -> spec_fn((int, bool), Shape) -> Result<(int, bool), bool> {
    |st: (int, bool), s: Shape| shousangen_step(st, s)
}

/// Shousangen: two dragon triplets and a dragon pair.
pub open spec fn shousangen_spec(variant: Seq<Shape>) -> bool {
    fold_answer(fold_shapes(variant, (0int, false), shousangen_fn()), |st: (int, bool)| st.0 == 2 && st.1)
}

pub open spec fn daisangen_step(st: int, s: Shape) -> Result<int, bool> {
    let c = class_of(s);
    let t0 = tile_of_shape(s, 0);
    if is_set(c) {
        Ok(if is_dragon(t0) { st + 1 } else { st })
    } else if c == 3 {
        if is_dragon(t0) { Err(false) } else { Ok(st) }
    } else if c == 4 || c == 8 {
        Err(false)
    } else {
        Ok(st)
    }
}

pub open spec fn daisangen_fn() -> spec_fn(int, Shape) -> Result<int, bool> {
    |st: int, s: Shape| daisangen_step(st, s)
}

/// Daisangen: three dragon triplets.
pub open spec fn daisangen_spec(variant: Seq<Shape>) -> bool {
    fold_answer(fold_shapes(variant, 0int, daisangen_fn()), |st: int| st == 3)
}

pub open spec fn shousuushii_step(st: (bool, int, int), s: Shape) -> Result<(bool, int, int), bool> {
    let c = class_of(s);
    let t0 = tile_of_shape(s, 0);
    if is_run(c) {
        Ok((st.0, st.1 + 1, st.2))
    } else if is_set(c) {
        Ok((st.0, if is_wind(t0) { st.1 } else { st.1 + 1 }, st.2))
    } else if c == 3 {
        if st.2 + 1 > 1 {
            Err(false)
        } else if is_wind(t0) {
            if st.0 { Err(false) } else { Ok((true, st.1, st.2 + 1)) }
        } else {
            Ok((st.0, st.1, st.2 + 1))
        }
    } else {
        Err(false)
    }
}

pub open spec fn shousuushii_fn() -> spec_fn((bool, int, int), Shape) -> Result<(bool, int, int), bool> {
    |st: (bool, int, int), s: Shape| shousuushii_step(st, s)
}

/// Shousuushii: three wind triplets and a wind pair.
pub open spec fn shousuushii_spec(variant: Seq<Shape>) -> bool {
    fold_answer(fold_shapes(variant, (false, 0int, 0int), shousuushii_fn()), |st: (bool, int, int)| st.1 < 2 && st.0)
}

pub open spec fn daisuushii_step(st: (int, int), s: Shape) -> Result<(int, int), bool> {
    let c = class_of(s);
    let t0 = tile_of_shape(s, 0);
    if is_set(c) {
        Ok((if is_wind(t0) { st.0 } else { st.0 + 1 }, st.1))
    } else if c == 3 {
        if st.1 + 1 > 1 || is_wind(t0) { Err(false) } else { Ok((st.0, st.1 + 1)) }
    } else {
        Err(false)
    }
}

pub open spec fn daisuushii_fn() -> spec_fn((int, int), Shape) -> Result<(int, int), bool> {
    |st: (int, int), s: Shape| daisuushii_step(st, s)
}

/// Daisuushii: four wind triplets.
pub open spec fn daisuushii_spec(variant: Seq<Shape>) -> bool {
    fold_answer(fold_shapes(variant, (0int, 0int), daisuushii_fn()), |st: (int, int)| st.0 == 0)
}

// ---- the hand's tiles

/// Tanyao: no terminal or honor among the hand's tiles.
pub open spec fn tanyao_spec(t: Seq<Option<Tile>>) -> bool {
    forall|k: int| 0 <= k < 34 ==> !(is_terminal_or_honor_index(k) && #[trigger] id_count(t, k + 1, false) > 0)
}

/// Going through the hand's tiles for one color: whether honors were seen and the color so far
/// ('x' before the first number); a second color ends it, and so do honors where they are
/// not allowed.
pub open spec fn suit_scan(t: Seq<Option<Tile>>, honors_ok: bool) -> Result<(bool, char), bool>
    decreases t.len(),
{
    if t.len() == 0 {
        Ok((false, 'x'))
    } else {
        match suit_scan(t.drop_last(), honors_ok) {
            Err(b) => Err(b),
            Ok((h, suit)) => match t.last() {
                None => Ok((h, suit)),
                Some(x) => {
                    let c = x.tile_type.spec_char();
                    if c == 'z' {
                        if honors_ok { Ok((true, suit)) } else { Err(false) }
                    } else if suit == 'x' {
                        Ok((h, c))
                    } else if suit != c {
                        Err(false)
                    } else {
                        Ok((h, suit))
                    }
                },
            },
        }
    }
}

/// Honitsu: one color with honors.
pub open spec fn honitsu_spec(t: Seq<Option<Tile>>) -> bool {
    match suit_scan(t, true) {
        Err(b) => b,
        Ok((h, _)) => h,
    }
}

/// Chinitsu: one color only.
pub open spec fn chinitsu_spec(t: Seq<Option<Tile>>) -> bool {
    match suit_scan(t, false) {
        Err(b) => b,
        Ok(_) => true,
    }
}

/// The green tiles: 2, 3, 4, 6 and 8 of souzu and the green dragon.
pub open spec fn is_green_id(id: int) -> bool {
    id == 20 || id == 21 || id == 22 || id == 24 || id == 26 || id == 33
}

/// Ryuuiisou: only green tiles.
pub open spec fn ryuuiisou_spec(t: Seq<Option<Tile>>) -> bool {
    forall|i: int| 0 <= i < t.len() ==> (#[trigger] t[i] matches Some(x) ==> is_green_id(x.spec_id()))
}

/// Going through the free counts of the first `n` ids for kokushi: whether the pair was seen.
pub open spec fn kokushi_scan(t: Seq<Option<Tile>>, n: int) -> Result<bool, bool>
    decreases n,
{
    if n <= 0 {
        Ok(false)
    } else {
        match kokushi_scan(t, n - 1) {
            Err(b) => Err(b),
            Ok(p) => {
                let cnt = id_count(t, n, true);
                if cnt == 0 {
                    Ok(p)
                } else if !is_terminal_or_honor_index(n - 1) {
                    Err(false)
                } else if cnt > 2 {
                    Err(false)
                } else if cnt == 2 {
                    if p { Err(false) } else { Ok(true) }
                } else {
                    Ok(p)
                }
            },
        }
    }
}

/// Kokushi: one of each terminal and honor, and a pair of one of them.
pub open spec fn kokushi_spec(t: Seq<Option<Tile>>) -> bool {
    match kokushi_scan(t, 34) {
        Err(b) => b,
        Ok(p) => p,
    }
}

/// Where a chuuren's color starts: the first color with three ones (-1 where none has).
pub open spec fn chuuren_offset(t: Seq<Option<Tile>>) -> int {
    if id_count(t, 1, true) >= 3 {
        0int
    } else if id_count(t, 10, true) >= 3 {
        9int
    } else if id_count(t, 19, true) >= 3 {
        18int
    } else {
        -1int
    }
}

/// One or two of each of 2 to 8 of the color.
pub open spec fn chuuren_middle(t: Seq<Option<Tile>>, o: int) -> bool {
    forall|j: int| 1 <= j <= 7 ==> 1 <= #[trigger] id_count(t, j + 1 + o, true) <= 2
}

/// Chuuren: 1112345678999 of one color and one more tile of it.
pub open spec fn chuuren_spec(t: Seq<Option<Tile>>) -> bool {
    let o = chuuren_offset(t);
    o >= 0 && id_count(t, 9 + o, true) >= 3 && chuuren_middle(t, o)
}

/// The winning tile: the first drawn tile of the hand.
pub open spec fn winning_tile(t: Seq<Option<Tile>>) -> Tile {
    t[choose|i: int| super::hand::first_drawn(t, i)].unwrap()
}

/// The hand has a drawn tile.
pub open spec fn has_drawn(t: Seq<Option<Tile>>) -> bool {
    exists|i: int| 0 <= i < t.len() && (#[trigger] t[i] matches Some(x) && x.is_draw)
}

/// A variant the yaku can be looked for in: fewer than 256 shapes, of real tiles.
pub open spec fn variant_ok(v: Seq<Shape>) -> bool {
    &&& v.len() < 256
    &&& forall|i: int| 0 <= i < v.len() ==> (#[trigger] tile_of_shape(v[i], 0)).valid() && tile_of_shape(v[i], 1).valid()
        && tile_of_shape(v[i], 2).valid()
}

/// A table the yaku can be looked for on: a well-formed hand with a drawn tile.
pub open spec fn table_ok(t: super::table::Table) -> bool {
    &&& t.my_hand is Some
    &&& t.my_hand.unwrap().wf()
    &&& has_drawn(t.my_hand.unwrap().tiles@)
}

/// The yaku whose check reads the winning tile (the drawn one).
pub open spec fn reads_winning_tile(y: Yaku) -> bool {
    y is Pinfu || y is Toitoi || y is Sanankou || y is Suuankou
}

/// Whether a yaku is in a variant of the table's hand.
pub open spec fn in_hand_spec(y: Yaku, table: super::table::Table, v: Seq<Shape>) -> bool {
    let h = table.my_hand.unwrap();
    let t = h.tiles@;
    let closed = super::hand::open_shapes(h.shapes@).len() == 0;
    let tsumo = table.my_tsumo.unwrap_or(false);
    let riichi = table.my_riichi.unwrap_or(false);
    let wt = winning_tile(t);
    let pw = table.prevalent_wind;
    let sw = table.my_seat_wind;
    match y {
        Yaku::MenzenTsumo => closed && tsumo,
        Yaku::Riichi => closed && riichi,
        Yaku::Pinfu => closed && pinfu_spec(v, wt, pw, sw),
        Yaku::Iipeikou => closed && peikou_spec(v) == 1,
        Yaku::Haitei => table.tiles_remaining matches Some(r) && tsumo && r == 0,
        Yaku::Houtei => table.tiles_remaining matches Some(r) && !tsumo && r == 0,
        Yaku::Tanyao => tanyao_spec(t),
        Yaku::EastRound => pw == Some(1u8) && yakuhai_spec(v, 28),
        Yaku::EastSeat => sw == Some(1u8) && yakuhai_spec(v, 28),
        Yaku::SouthRound => pw == Some(2u8) && yakuhai_spec(v, 29),
        Yaku::SouthSeat => sw == Some(2u8) && yakuhai_spec(v, 29),
        Yaku::WestRound => pw == Some(3u8) && yakuhai_spec(v, 30),
        Yaku::WestSeat => sw == Some(3u8) && yakuhai_spec(v, 30),
        Yaku::NorthSeat => sw == Some(4u8) && yakuhai_spec(v, 31),
        Yaku::WhiteDragons => yakuhai_spec(v, 32),
        Yaku::GreenDragons => yakuhai_spec(v, 33),
        Yaku::RedDragons => yakuhai_spec(v, 34),
        Yaku::Chanta => chanta_spec(v),
        Yaku::SanshokuDoujun => doujun_spec(v),
        Yaku::Ittsu => ittsu_spec(v),
        Yaku::Toitoi => toitoi_spec(v, closed, wt),
        Yaku::Sanankou => sanankou_spec(v, closed, tsumo, wt),
        Yaku::SanshokuDoukou => doukou_spec(v),
        Yaku::Chiitoitsu => chiitoitsu_spec(v),
        Yaku::Honroutou => honroutou_spec(v),
        Yaku::Shousangen => shousangen_spec(v),
        Yaku::Honitsu => honitsu_spec(t),
        Yaku::Junchan => junchan_spec(v),
        Yaku::Ryanpeikou => closed && peikou_spec(v) == 2,
        Yaku::Chinitsu => chinitsu_spec(t),
        Yaku::Kokushi => closed && kokushi_spec(t),
        Yaku::Suuankou => closed && suuankou_spec(v, tsumo, wt),
        Yaku::Daisangen => daisangen_spec(v),
        Yaku::Shousuushii => shousuushii_spec(v),
        Yaku::Daisuushii => daisuushii_spec(v),
        Yaku::Tsuuiisou => all_sets_spec(v, true),
        Yaku::Chinroutou => all_sets_spec(v, false),
        Yaku::Ryuuiisou => ryuuiisou_spec(t),
        Yaku::Chuuren => closed && chuuren_spec(t),
        // not looked for yet
        _ => false,
    }
}

/// Yakuman.
pub open spec fn is_yakuman_spec(y: Yaku) -> bool {
    match y {
        Yaku::Kokushi | Yaku::Suuankou | Yaku::Daisangen | Yaku::Shousuushii | Yaku::Daisuushii
        | Yaku::Tsuuiisou | Yaku::Chinroutou | Yaku::Ryuuiisou | Yaku::Chuuren | Yaku::Suukantsu
        | Yaku::Tenhou | Yaku::Chiihou => true,
        _ => false,
    }
}

/// The han of a yaku; some are worth one less in an open hand.
pub open spec fn han_spec(y: Yaku, closed: bool) -> int {
    match y {
        Yaku::DoubleRiichi => 2,
        Yaku::Chanta | Yaku::SanshokuDoujun | Yaku::Ittsu => if closed { 2 } else { 1 },
        Yaku::Toitoi | Yaku::Sanankou | Yaku::SanshokuDoukou | Yaku::Sankantsu | Yaku::Chiitoitsu
        | Yaku::Honroutou | Yaku::Shousangen => 2,
        Yaku::Honitsu | Yaku::Junchan | Yaku::Ryanpeikou => if closed { 3 } else { 2 },
        Yaku::Chinitsu => if closed { 6 } else { 5 },
        Yaku::Kazoe | Yaku::Kokushi | Yaku::Suuankou | Yaku::Daisangen | Yaku::Shousuushii
        | Yaku::Daisuushii | Yaku::Tsuuiisou | Yaku::Chinroutou | Yaku::Ryuuiisou | Yaku::Chuuren
        | Yaku::Suukantsu | Yaku::Tenhou | Yaku::Chiihou => 13,
        _ => 1,
    }
}

/// The yaku in the order they are looked for.
pub open spec fn yaku_at(i: int) -> Yaku {
    if i == 0 { Yaku::MenzenTsumo } else if i == 1 { Yaku::Riichi } else if i == 2 { Yaku::Ippatsu }
    else if i == 3 { Yaku::Pinfu } else if i == 4 { Yaku::Iipeikou } else if i == 5 { Yaku::Haitei }
    else if i == 6 { Yaku::Houtei } else if i == 7 { Yaku::Rinshan } else if i == 8 { Yaku::Chankan }
    else if i == 9 { Yaku::Tanyao } else if i == 10 { Yaku::EastRound } else if i == 11 { Yaku::EastSeat }
    else if i == 12 { Yaku::SouthRound } else if i == 13 { Yaku::SouthSeat } else if i == 14 { Yaku::WestRound }
    else if i == 15 { Yaku::WestSeat } else if i == 16 { Yaku::NorthSeat } else if i == 17 { Yaku::WhiteDragons }
    else if i == 18 { Yaku::GreenDragons } else if i == 19 { Yaku::RedDragons } else if i == 20 { Yaku::DoubleRiichi }
    else if i == 21 { Yaku::Chanta } else if i == 22 { Yaku::SanshokuDoujun } else if i == 23 { Yaku::Ittsu }
    else if i == 24 { Yaku::Toitoi } else if i == 25 { Yaku::Sanankou } else if i == 26 { Yaku::SanshokuDoukou }
    else if i == 27 { Yaku::Sankantsu } else if i == 28 { Yaku::Chiitoitsu } else if i == 29 { Yaku::Honroutou }
    else if i == 30 { Yaku::Shousangen } else if i == 31 { Yaku::Honitsu } else if i == 32 { Yaku::Junchan }
    else if i == 33 { Yaku::Ryanpeikou } else if i == 34 { Yaku::Chinitsu } else if i == 35 { Yaku::Kazoe }
    else if i == 36 { Yaku::Kokushi } else if i == 37 { Yaku::Suuankou } else if i == 38 { Yaku::Daisangen }
    else if i == 39 { Yaku::Shousuushii } else if i == 40 { Yaku::Daisuushii } else if i == 41 { Yaku::Tsuuiisou }
    else if i == 42 { Yaku::Chinroutou } else if i == 43 { Yaku::Ryuuiisou } else if i == 44 { Yaku::Chuuren }
    else if i == 45 { Yaku::Suukantsu } else if i == 46 { Yaku::Tenhou } else { Yaku::Chiihou }
}

/// How many yaku there are.
pub const YAKU_COUNT: usize = 48;

/// The class and first three tiles of a shape.
fn classify(s: &Shape) -> (r: (u8, Tile, Tile, Tile))
    ensures
        r.0 == class_of(*s),
        r.1 == tile_of_shape(*s, 0),
        r.2 == tile_of_shape(*s, 1),
        r.3 == tile_of_shape(*s, 2),
{
    match &s.shape_type {
        ShapeType::Complete(CompleteShape::Closed(ClosedShape::Shuntsu(t))) => (0, t[0], t[1], t[2]),
        ShapeType::Complete(CompleteShape::Closed(ClosedShape::Koutsu(t))) => (1, t[0], t[1], t[2]),
        ShapeType::Complete(CompleteShape::Closed(ClosedShape::Kantsu(t))) => (2, t[0], t[1], t[2]),
        ShapeType::Complete(CompleteShape::Closed(ClosedShape::Toitsu(t))) => (3, t[0], t[0], t[0]),
        ShapeType::Complete(CompleteShape::Closed(ClosedShape::Single(t))) => (4, *t, *t, *t),
        ShapeType::Complete(CompleteShape::Open(OpenShape::Chi(t))) => (5, t[0], t[1], t[2]),
        ShapeType::Complete(CompleteShape::Open(OpenShape::Pon(t))) => (6, t[0], t[1], t[2]),
        ShapeType::Complete(CompleteShape::Open(OpenShape::Kan(k))) => {
            let t = k.tiles();
            (7, t[0], t[1], t[2])
        },
        ShapeType::Incomplete(_, t) => (8, *t, *t, *t),
    }
}

fn pinfu_check(variant: &[Shape], wt: &Tile, pw: Option<u8>, sw: Option<u8>) -> (b: bool)
    requires
        variant_ok(variant@),
    ensures
        b == pinfu_spec(variant@, *wt, pw, sw),
{
    let ghost f = pinfu_fn(*wt, pw, sw);
    let mut ryanmen = false;
    let mut pairs: u8 = 0;
    let mut i: usize = 0;
    while i < variant.len()
        invariant
            i <= variant@.len(),
            variant_ok(variant@),
            f == pinfu_fn(*wt, pw, sw),
            fold_shapes(variant@.take(i as int), (false, 0int), f) == Ok::<_, bool>((ryanmen, pairs as int)),
            pairs <= 1,
        decreases variant.len() - i,
    {
        proof {
            assert(variant@.take(i + 1).drop_last() =~= variant@.take(i as int));
            assert(variant@.take(i + 1).last() == variant@[i as int]);
        }
        let (c, t0, t1, t2) = classify(&variant[i]);
        proof {
            assert(tile_of_shape(variant@[i as int], 0).valid());
        }
        if c == 0 {
            let r = if t0.prev_id(false, 1) == 0 {
                t0.eq(wt)
            } else if t2.next_id(false, 1) == 0 {
                t2.eq(wt)
            } else {
                t0.eq(wt) || t2.eq(wt)
            };
            ryanmen = ryanmen || r;
        } else if c == 3 {
            if pairs + 1 > 1 {
                proof { lemma_fold_stops(variant@, (false, 0int), f, i + 1); } return false;
            }
            match t0.tile_type {
                TileType::Wind(value) => match pw {
                    None => { proof { lemma_fold_stops(variant@, (false, 0int), f, i + 1); } return false; },
                    Some(prevalent) => match sw {
                        None => { proof { lemma_fold_stops(variant@, (false, 0int), f, i + 1); } return false; },
                        Some(seat) => {
                            if value == prevalent || value == seat {
                                proof { lemma_fold_stops(variant@, (false, 0int), f, i + 1); } return false;
                            }
                        },
                    },
                },
                TileType::Dragon(_) => { proof { lemma_fold_stops(variant@, (false, 0int), f, i + 1); } return false; },
                _ => {},
            }
            pairs = pairs + 1;
        } else {
            proof { lemma_fold_stops(variant@, (false, 0int), f, i + 1); } return false;
        }
        i = i + 1;
    }
    proof {
        assert(variant@.take(i as int) =~= variant@);
    }
    ryanmen
}

fn chanta_check(variant: &[Shape]) -> (b: bool)
    requires
        variant_ok(variant@),
    ensures
        b == chanta_spec(variant@),
{
    let ghost f = chanta_fn();
    let mut has_shuntsu = false;
    let mut has_honors = false;
    let mut i: usize = 0;
    while i < variant.len()
        invariant
            i <= variant@.len(),
            variant_ok(variant@),
            f == chanta_fn(),
            fold_shapes(variant@.take(i as int), (false, false), f) == Ok::<_, bool>((has_shuntsu, has_honors)),
        decreases variant.len() - i,
    {
        proof {
            assert(variant@.take(i + 1).drop_last() =~= variant@.take(i as int));
            assert(variant@.take(i + 1).last() == variant@[i as int]);
        }
        let (c, t0, t1, t2) = classify(&variant[i]);
        proof {
            assert(tile_of_shape(variant@[i as int], 0).valid());
        }
        if c == 0 || c == 5 {
            if !t0.is_terminal() && !t2.is_terminal() {
                proof { lemma_fold_stops(variant@, (false, false), f, i + 1); } return false;
            }
            has_shuntsu = true;
        } else if c == 1 || c == 2 || c == 6 || c == 7 || c == 3 {
            if !t0.is_terminal_or_honor() {
                proof { lemma_fold_stops(variant@, (false, false), f, i + 1); } return false;
            }
            if t0.is_honor() {
                has_honors = true;
            }
        } else {
            proof { lemma_fold_stops(variant@, (false, false), f, i + 1); } return false;
        }
        i = i + 1;
    }
    proof {
        assert(variant@.take(i as int) =~= variant@);
    }
    has_shuntsu && has_honors
}

fn junchan_check(variant: &[Shape]) -> (b: bool)
    requires
        variant_ok(variant@),
    ensures
        b == junchan_spec(variant@),
{
    let ghost f = junchan_fn();
    let mut has_shuntsu = false;
    let mut i: usize = 0;
    while i < variant.len()
        invariant
            i <= variant@.len(),
            variant_ok(variant@),
            f == junchan_fn(),
            fold_shapes(variant@.take(i as int), false, f) == Ok::<_, bool>(has_shuntsu),
        decreases variant.len() - i,
    {
        proof {
            assert(variant@.take(i + 1).drop_last() =~= variant@.take(i as int));
            assert(variant@.take(i + 1).last() == variant@[i as int]);
        }
        let (c, t0, t1, t2) = classify(&variant[i]);
        proof {
            assert(tile_of_shape(variant@[i as int], 0).valid());
        }
        if c == 0 || c == 5 {
            if !t0.is_terminal() && !t2.is_terminal() {
                proof { lemma_fold_stops(variant@, false, f, i + 1); } return false;
            }
            has_shuntsu = true;
        } else if c == 1 || c == 2 || c == 6 || c == 7 || c == 3 {
            if !t0.is_terminal() {
                proof { lemma_fold_stops(variant@, false, f, i + 1); } return false;
            }
        } else {
            proof { lemma_fold_stops(variant@, false, f, i + 1); } return false;
        }
        i = i + 1;
    }
    proof {
        assert(variant@.take(i as int) =~= variant@);
    }
    has_shuntsu
}

fn ittsu_check(variant: &[Shape]) -> (b: bool)
    requires
        variant_ok(variant@),
    ensures
        b == ittsu_spec(variant@),
{
    let ghost f = ittsu_fn();
    let mut parts: [u8; 3] = [0, 0, 0];
    let mut i: usize = 0;
    while i < variant.len()
        invariant
            i <= variant@.len(),
            variant_ok(variant@),
            f == ittsu_fn(),
            fold_shapes(variant@.take(i as int), seq![0int, 0, 0], f) == Ok::<_, bool>(seq![parts@[0] as int, parts@[1] as int, parts@[2] as int]),
            parts@[0] <= 3 && parts@[1] <= 3 && parts@[2] <= 3,
        decreases variant.len() - i,
    {
        proof {
            assert(variant@.take(i + 1).drop_last() =~= variant@.take(i as int));
            assert(variant@.take(i + 1).last() == variant@[i as int]);
        }
        let (c, t0, t1, t2) = classify(&variant[i]);
        proof {
            assert(tile_of_shape(variant@[i as int], 0).valid());
        }
        let ghost old_parts = parts@;
        if c == 0 || c == 5 {
            if let TileType::Number(value, color) = t0.tile_type {
                let k: usize = match color {
                    TileColor::Manzu => 0,
                    TileColor::Pinzu => 1,
                    TileColor::Souzu => 2,
                };
                if value == 1 && parts[k] == 0 {
                    parts[k] = 1;
                } else if value == 4 && parts[k] == 1 {
                    parts[k] = 2;
                } else if value == 7 && parts[k] == 2 {
                    parts[k] = 3;
                }
            }
            proof {
                assert(seq![parts@[0] as int, parts@[1] as int, parts@[2] as int] =~= ittsu_step(seq![old_parts[0] as int, old_parts[1] as int, old_parts[2] as int], variant@[i as int]).unwrap());
            }
        } else if c == 4 || c == 8 {
            proof { lemma_fold_stops(variant@, seq![0int, 0, 0], f, i + 1); } return false;
        }
        i = i + 1;
    }
    proof {
        assert(variant@.take(i as int) =~= variant@);
    }
    parts[0] == 3 || parts[1] == 3 || parts[2] == 3
}

fn toitoi_check(variant: &[Shape], closed: bool, wt: &Tile) -> (b: bool)
    requires
        variant_ok(variant@),
    ensures
        b == toitoi_spec(variant@, closed, *wt),
{
    let ghost f = toitoi_fn(closed, *wt);

    let mut i: usize = 0;
    while i < variant.len()
        invariant
            i <= variant@.len(),
            variant_ok(variant@),
            f == toitoi_fn(closed, *wt),
            fold_shapes(variant@.take(i as int), true, f) == Ok::<_, bool>(true),
        decreases variant.len() - i,
    {
        proof {
            assert(variant@.take(i + 1).drop_last() =~= variant@.take(i as int));
            assert(variant@.take(i + 1).last() == variant@[i as int]);
        }
        let (c, t0, t1, t2) = classify(&variant[i]);
        proof {
            assert(tile_of_shape(variant@[i as int], 0).valid());
        }
        if c == 0 || c == 4 || c == 5 || c == 8 {
            proof { lemma_fold_stops(variant@, true, f, i + 1); } return false;
        } else if c == 3 && closed && t0.eq(wt) {
            // this is suuankou
            proof { lemma_fold_stops(variant@, true, f, i + 1); } return false;
        }
        i = i + 1;
    }
    proof {
        assert(variant@.take(i as int) =~= variant@);
    }
    true
}

fn sanankou_check(variant: &[Shape], closed: bool, tsumo: bool, wt: &Tile) -> (b: bool)
    requires
        variant_ok(variant@),
    ensures
        b == sanankou_spec(variant@, closed, tsumo, *wt),
{
    let ghost f = sanankou_fn(closed, *wt);
    let mut ankou: u8 = 0;
    let mut has_tanki_wait = false;
    let mut has_shuntsu_wait = false;
    let mut i: usize = 0;
    while i < variant.len()
        invariant
            i <= variant@.len(),
            variant_ok(variant@),
            f == sanankou_fn(closed, *wt),
            fold_shapes(variant@.take(i as int), (0int, false, false), f) == Ok::<_, bool>((ankou as int, has_tanki_wait, has_shuntsu_wait)),
            ankou <= i,
        decreases variant.len() - i,
    {
        proof {
            assert(variant@.take(i + 1).drop_last() =~= variant@.take(i as int));
            assert(variant@.take(i + 1).last() == variant@[i as int]);
        }
        let (c, t0, t1, t2) = classify(&variant[i]);
        proof {
            assert(tile_of_shape(variant@[i as int], 0).valid());
        }
        if c == 0 {
            if t0.eq(wt) || t1.eq(wt) || t2.eq(wt) {
                has_shuntsu_wait = true;
            }
        } else if c == 1 || c == 2 {
            ankou = ankou + 1;
        } else if c == 3 {
            if closed && t0.eq(wt) {
                has_tanki_wait = true;
            }
        } else if c == 4 || c == 8 {
            proof { lemma_fold_stops(variant@, (0int, false, false), f, i + 1); } return false;
        }
        i = i + 1;
    }
    proof {
        assert(variant@.take(i as int) =~= variant@);
    }
    if ankou < 3 {
        false
    } else if !closed || ankou == 3 {
        tsumo || has_tanki_wait || has_shuntsu_wait
    } else if ankou == 4 {
        !tsumo && !has_tanki_wait
    } else {
        false
    }
}

fn suuankou_check(variant: &[Shape], tsumo: bool, wt: &Tile) -> (b: bool)
    requires
        variant_ok(variant@),
    ensures
        b == suuankou_spec(variant@, tsumo, *wt),
{
    let ghost f = suuankou_fn(*wt);
    let mut has_tanki_wait = false;
    let mut pair_found = false;
    let mut i: usize = 0;
    while i < variant.len()
        invariant
            i <= variant@.len(),
            variant_ok(variant@),
            f == suuankou_fn(*wt),
            fold_shapes(variant@.take(i as int), (false, false), f) == Ok::<_, bool>((has_tanki_wait, pair_found)),
        decreases variant.len() - i,
    {
        proof {
            assert(variant@.take(i + 1).drop_last() =~= variant@.take(i as int));
            assert(variant@.take(i + 1).last() == variant@[i as int]);
        }
        let (c, t0, t1, t2) = classify(&variant[i]);
        proof {
            assert(tile_of_shape(variant@[i as int], 0).valid());
        }
        if c == 1 || c == 2 {
        } else if c == 3 {
            if pair_found {
                proof { lemma_fold_stops(variant@, (false, false), f, i + 1); } return false;
            }
            pair_found = true;
            if t0.eq(wt) {
                has_tanki_wait = true;
            }
        } else {
            proof { lemma_fold_stops(variant@, (false, false), f, i + 1); } return false;
        }
        i = i + 1;
    }
    proof {
        assert(variant@.take(i as int) =~= variant@);
    }
    tsumo || has_tanki_wait
}

fn chiitoitsu_check(variant: &[Shape]) -> (b: bool)
    requires
        variant_ok(variant@),
    ensures
        b == chiitoitsu_spec(variant@),
{
    let ghost f = chiitoitsu_fn();

    let mut i: usize = 0;
    while i < variant.len()
        invariant
            i <= variant@.len(),
            variant_ok(variant@),
            f == chiitoitsu_fn(),
            fold_shapes(variant@.take(i as int), true, f) == Ok::<_, bool>(true),
        decreases variant.len() - i,
    {
        proof {
            assert(variant@.take(i + 1).drop_last() =~= variant@.take(i as int));
            assert(variant@.take(i + 1).last() == variant@[i as int]);
        }
        let (c, t0, t1, t2) = classify(&variant[i]);
        proof {
            assert(tile_of_shape(variant@[i as int], 0).valid());
        }
        if c != 3 {
            proof { lemma_fold_stops(variant@, true, f, i + 1); } return false;
        }
        i = i + 1;
    }
    proof {
        assert(variant@.take(i as int) =~= variant@);
    }
    true
}

fn honroutou_check(variant: &[Shape]) -> (b: bool)
    requires
        variant_ok(variant@),
    ensures
        b == honroutou_spec(variant@),
{
    let ghost f = honroutou_fn();
    let mut has_terminals = false;
    let mut has_honors = false;
    let mut i: usize = 0;
    while i < variant.len()
        invariant
            i <= variant@.len(),
            variant_ok(variant@),
            f == honroutou_fn(),
            fold_shapes(variant@.take(i as int), (false, false), f) == Ok::<_, bool>((has_terminals, has_honors)),
        decreases variant.len() - i,
    {
        proof {
            assert(variant@.take(i + 1).drop_last() =~= variant@.take(i as int));
            assert(variant@.take(i + 1).last() == variant@[i as int]);
        }
        let (c, t0, t1, t2) = classify(&variant[i]);
        proof {
            assert(tile_of_shape(variant@[i as int], 0).valid());
        }
        if c == 1 || c == 2 || c == 6 || c == 7 || c == 3 {
            if !t0.is_terminal_or_honor() {
                proof { lemma_fold_stops(variant@, (false, false), f, i + 1); } return false;
            }
            if t0.is_terminal() {
                has_terminals = true;
            } else if t0.is_honor() {
                has_honors = true;
            }
        } else {
            proof { lemma_fold_stops(variant@, (false, false), f, i + 1); } return false;
        }
        i = i + 1;
    }
    proof {
        assert(variant@.take(i as int) =~= variant@);
    }
    has_honors && has_terminals
}

fn all_sets_check(variant: &[Shape], honor: bool) -> (b: bool)
    requires
        variant_ok(variant@),
    ensures
        b == all_sets_spec(variant@, honor),
{
    let ghost f = all_sets_fn(honor);

    let mut i: usize = 0;
    while i < variant.len()
        invariant
            i <= variant@.len(),
            variant_ok(variant@),
            f == all_sets_fn(honor),
            fold_shapes(variant@.take(i as int), true, f) == Ok::<_, bool>(true),
        decreases variant.len() - i,
    {
        proof {
            assert(variant@.take(i + 1).drop_last() =~= variant@.take(i as int));
            assert(variant@.take(i + 1).last() == variant@[i as int]);
        }
        let (c, t0, t1, t2) = classify(&variant[i]);
        proof {
            assert(tile_of_shape(variant@[i as int], 0).valid());
        }
        if c == 1 || c == 2 || c == 6 || c == 7 || c == 3 {
            if honor && !t0.is_honor() {
                proof { lemma_fold_stops(variant@, true, f, i + 1); } return false;
            }
            if !honor && !t0.is_terminal() {
                proof { lemma_fold_stops(variant@, true, f, i + 1); } return false;
            }
        } else {
            proof { lemma_fold_stops(variant@, true, f, i + 1); } return false;
        }
        i = i + 1;
    }
    proof {
        assert(variant@.take(i as int) =~= variant@);
    }
    true
}

fn shousangen_check(variant: &[Shape]) -> (b: bool)
    requires
        variant_ok(variant@),
    ensures
        b == shousangen_spec(variant@),
{
    let ghost f = shousangen_fn();
    let mut dragon_pons: u8 = 0;
    let mut has_dragon_pair = false;
    let mut i: usize = 0;
    while i < variant.len()
        invariant
            i <= variant@.len(),
            variant_ok(variant@),
            f == shousangen_fn(),
            fold_shapes(variant@.take(i as int), (0int, false), f) == Ok::<_, bool>((dragon_pons as int, has_dragon_pair)),
            dragon_pons <= 2,
        decreases variant.len() - i,
    {
        proof {
            assert(variant@.take(i + 1).drop_last() =~= variant@.take(i as int));
            assert(variant@.take(i + 1).last() == variant@[i as int]);
        }
        let (c, t0, t1, t2) = classify(&variant[i]);
        proof {
            assert(tile_of_shape(variant@[i as int], 0).valid());
        }
        if c == 1 || c == 2 || c == 6 || c == 7 {
            if let TileType::Dragon(_) = t0.tile_type {
                if dragon_pons + 1 > 2 {
                    // daisangen
                    proof { lemma_fold_stops(variant@, (0int, false), f, i + 1); } return false;
                }
                dragon_pons = dragon_pons + 1;
            }
        } else if c == 3 {
            if let TileType::Dragon(_) = t0.tile_type {
                has_dragon_pair = true;
            }
        } else if c == 4 || c == 8 {
            proof { lemma_fold_stops(variant@, (0int, false), f, i + 1); } return false;
        }
        i = i + 1;
    }
    proof {
        assert(variant@.take(i as int) =~= variant@);
    }
    dragon_pons == 2 && has_dragon_pair
}

fn daisangen_check(variant: &[Shape]) -> (b: bool)
    requires
        variant_ok(variant@),
    ensures
        b == daisangen_spec(variant@),
{
    let ghost f = daisangen_fn();
    let mut dragon_pons: u8 = 0;
    let mut i: usize = 0;
    while i < variant.len()
        invariant
            i <= variant@.len(),
            variant_ok(variant@),
            f == daisangen_fn(),
            fold_shapes(variant@.take(i as int), 0int, f) == Ok::<_, bool>(dragon_pons as int),
            dragon_pons <= i,
        decreases variant.len() - i,
    {
        proof {
            assert(variant@.take(i + 1).drop_last() =~= variant@.take(i as int));
            assert(variant@.take(i + 1).last() == variant@[i as int]);
        }
        let (c, t0, t1, t2) = classify(&variant[i]);
        proof {
            assert(tile_of_shape(variant@[i as int], 0).valid());
        }
        if c == 1 || c == 2 || c == 6 || c == 7 {
            if let TileType::Dragon(_) = t0.tile_type {
                dragon_pons = dragon_pons + 1;
            }
        } else if c == 3 {
            if let TileType::Dragon(_) = t0.tile_type {
                proof { lemma_fold_stops(variant@, 0int, f, i + 1); } return false;
            }
        } else if c == 4 || c == 8 {
            proof { lemma_fold_stops(variant@, 0int, f, i + 1); } return false;
        }
        i = i + 1;
    }
    proof {
        assert(variant@.take(i as int) =~= variant@);
    }
    dragon_pons == 3
}

fn shousuushii_check(variant: &[Shape]) -> (b: bool)
    requires
        variant_ok(variant@),
    ensures
        b == shousuushii_spec(variant@),
{
    let ghost f = shousuushii_fn();
    let mut has_wind_pair = false;
    let mut other: u8 = 0;
    let mut toitsu_count: u8 = 0;
    let mut i: usize = 0;
    while i < variant.len()
        invariant
            i <= variant@.len(),
            variant_ok(variant@),
            f == shousuushii_fn(),
            fold_shapes(variant@.take(i as int), (false, 0int, 0int), f) == Ok::<_, bool>((has_wind_pair, other as int, toitsu_count as int)),
            other <= i,
            toitsu_count <= 1,
        decreases variant.len() - i,
    {
        proof {
            assert(variant@.take(i + 1).drop_last() =~= variant@.take(i as int));
            assert(variant@.take(i + 1).last() == variant@[i as int]);
        }
        let (c, t0, t1, t2) = classify(&variant[i]);
        proof {
            assert(tile_of_shape(variant@[i as int], 0).valid());
        }
        if c == 0 || c == 5 {
            other = other + 1;
        } else if c == 1 || c == 2 || c == 6 || c == 7 {
            if let TileType::Wind(_) = t0.tile_type {
            } else {
                other = other + 1;
            }
        } else if c == 3 {
            if toitsu_count + 1 > 1 {
                proof { lemma_fold_stops(variant@, (false, 0int, 0int), f, i + 1); } return false;
            }
            if let TileType::Wind(_) = t0.tile_type {
                if has_wind_pair {
                    proof { lemma_fold_stops(variant@, (false, 0int, 0int), f, i + 1); } return false;
                }
                has_wind_pair = true;
            }
            toitsu_count = toitsu_count + 1;
        } else {
            proof { lemma_fold_stops(variant@, (false, 0int, 0int), f, i + 1); } return false;
        }
        i = i + 1;
    }
    proof {
        assert(variant@.take(i as int) =~= variant@);
    }
    other < 2 && has_wind_pair
}

fn daisuushii_check(variant: &[Shape]) -> (b: bool)
    requires
        variant_ok(variant@),
    ensures
        b == daisuushii_spec(variant@),
{
    let ghost f = daisuushii_fn();
    let mut other: u8 = 0;
    let mut toitsu_count: u8 = 0;
    let mut i: usize = 0;
    while i < variant.len()
        invariant
            i <= variant@.len(),
            variant_ok(variant@),
            f == daisuushii_fn(),
            fold_shapes(variant@.take(i as int), (0int, 0int), f) == Ok::<_, bool>((other as int, toitsu_count as int)),
            other <= i,
            toitsu_count <= 1,
        decreases variant.len() - i,
    {
        proof {
            assert(variant@.take(i + 1).drop_last() =~= variant@.take(i as int));
            assert(variant@.take(i + 1).last() == variant@[i as int]);
        }
        let (c, t0, t1, t2) = classify(&variant[i]);
        proof {
            assert(tile_of_shape(variant@[i as int], 0).valid());
        }
        if c == 1 || c == 2 || c == 6 || c == 7 {
            if let TileType::Wind(_) = t0.tile_type {
            } else {
                other = other + 1;
            }
        } else if c == 3 {
            if toitsu_count + 1 > 1 {
                proof { lemma_fold_stops(variant@, (0int, 0int), f, i + 1); } return false;
            }
            if let TileType::Wind(_) = t0.tile_type {
                proof { lemma_fold_stops(variant@, (0int, 0int), f, i + 1); } return false;
            }
            toitsu_count = toitsu_count + 1;
        } else {
            proof { lemma_fold_stops(variant@, (0int, 0int), f, i + 1); } return false;
        }
        i = i + 1;
    }
    proof {
        assert(variant@.take(i as int) =~= variant@);
    }
    other == 0
}

/// Marks the color of a number tile among the flags; whether all three colors of its number
/// are now seen.
fn mark_color_exec(flags: &mut [bool; 30], t: &Tile) -> (done: bool)
    requires
        t.valid(),
    ensures
        match mark_color(old(flags)@, *t) {
            Err(b) => done && b,
            Ok(st) => !done && final(flags)@ == st,
        },
{
    if let TileType::Number(value, suit) = t.tile_type {
        let k: usize = match suit {
            TileColor::Manzu => 0,
            TileColor::Pinzu => 1,
            TileColor::Souzu => 2,
        };
        let v = value as usize;
        flags[v * 3 + k] = true;
        if flags[v * 3] && flags[v * 3 + 1] && flags[v * 3 + 2] {
            return true;
        }
    }
    false
}

fn doujun_check(variant: &[Shape]) -> (b: bool)
    requires
        variant_ok(variant@),
    ensures
        b == doujun_spec(variant@),
{
    let ghost f = doujun_fn();
    let mut flags: [bool; 30] = [false; 30];
    assert(flags@ =~= no_colors());
    let mut i: usize = 0;
    while i < variant.len()
        invariant
            i <= variant@.len(),
            variant_ok(variant@),
            f == doujun_fn(),
            fold_shapes(variant@.take(i as int), no_colors(), f) == Ok::<_, bool>(flags@),
        decreases variant.len() - i,
    {
        proof {
            assert(variant@.take(i + 1).drop_last() =~= variant@.take(i as int));
            assert(variant@.take(i + 1).last() == variant@[i as int]);
        }
        let (c, t0, t1, t2) = classify(&variant[i]);
        if c == 0 || c == 5 {
            if mark_color_exec(&mut flags, &t0) {
                proof { lemma_fold_stops(variant@, no_colors(), f, i + 1); }
                return true;
            }
        } else if c == 4 || c == 8 {
            proof { lemma_fold_stops(variant@, no_colors(), f, i + 1); }
            return false;
        }
        i = i + 1;
    }
    proof {
        assert(variant@.take(i as int) =~= variant@);
    }
    false
}

fn doukou_check(variant: &[Shape]) -> (b: bool)
    requires
        variant_ok(variant@),
    ensures
        b == doukou_spec(variant@),
{
    let ghost f = doukou_fn();
    let mut flags: [bool; 30] = [false; 30];
    assert(flags@ =~= no_colors());
    let mut i: usize = 0;
    while i < variant.len()
        invariant
            i <= variant@.len(),
            variant_ok(variant@),
            f == doukou_fn(),
            fold_shapes(variant@.take(i as int), no_colors(), f) == Ok::<_, bool>(flags@),
        decreases variant.len() - i,
    {
        proof {
            assert(variant@.take(i + 1).drop_last() =~= variant@.take(i as int));
            assert(variant@.take(i + 1).last() == variant@[i as int]);
        }
        let (c, t0, t1, t2) = classify(&variant[i]);
        if c == 1 || c == 2 || c == 6 || c == 7 {
            if mark_color_exec(&mut flags, &t0) {
                proof { lemma_fold_stops(variant@, no_colors(), f, i + 1); }
                return true;
            }
        } else if c == 4 || c == 8 {
            proof { lemma_fold_stops(variant@, no_colors(), f, i + 1); }
            return false;
        }
        i = i + 1;
    }
    proof {
        assert(variant@.take(i as int) =~= variant@);
    }
    false
}

fn count_occurrences(seen: &Vec<Vec<char>>, key: &Vec<char>) -> (n: usize)
    ensures
        n == occurrences(seen@.map_values(|v: Vec<char>| v@), key@),
{
    let ghost sv = seen@.map_values(|v: Vec<char>| v@);
    let mut n: usize = 0;
    let mut i: usize = 0;
    while i < seen.len()
        invariant
            i <= seen@.len(),
            sv == seen@.map_values(|v: Vec<char>| v@),
            n == occurrences(sv.take(i as int), key@),
            n <= i,
        decreases seen.len() - i,
    {
        assert(sv.take(i + 1).drop_last() =~= sv.take(i as int));
        assert(sv[i as int] == seen@[i as int]@);
        if super::shape_finder::chars_eq(&seen[i], key) {
            n = n + 1;
        }
        i = i + 1;
    }
    assert(sv.take(i as int) =~= sv);
    n
}

/// The number of pairs of identical closed runs.
fn find_peikou(variant: &[Shape]) -> (n: u8)
    requires
        variant_ok(variant@),
    ensures
        n == peikou_spec(variant@),
{
    let ghost f = peikou_fn();
    let ghost init = (0int, Seq::<Seq<char>>::empty());
    let mut seen: Vec<Vec<char>> = Vec::new();
    let mut count: u8 = 0;
    let mut i: usize = 0;
    assert(seen@.map_values(|v: Vec<char>| v@) =~= Seq::<Seq<char>>::empty());
    while i < variant.len()
        invariant
            i <= variant@.len(),
            variant_ok(variant@),
            f == peikou_fn(),
            init == (0int, Seq::<Seq<char>>::empty()),
            fold_shapes(variant@.take(i as int), init, f) == Ok::<_, bool>((count as int, seen@.map_values(|v: Vec<char>| v@))),
            count <= i,
        decreases variant.len() - i,
    {
        proof {
            assert(variant@.take(i + 1).drop_last() =~= variant@.take(i as int));
            assert(variant@.take(i + 1).last() == variant@[i as int]);
        }
        let (c, t0, t1, t2) = classify(&variant[i]);
        if c == 0 {
            let mut key: Vec<char> = Vec::new();
            t0.push_notation(&mut key);
            t1.push_notation(&mut key);
            t2.push_notation(&mut key);
            proof {
                reveal_with_fuel(tiles_notation, 4);
                assert(key@ =~= run_key(variant@[i as int]));
            }
            let occ = count_occurrences(&seen, &key);
            if occ == 1 {
                count = count + 1;
            }
            let ghost before = seen@;
            seen.push(key);
            assert(seen@.map_values(|v: Vec<char>| v@) =~= before.map_values(|v: Vec<char>| v@).push(run_key(variant@[i as int])));
        } else if c == 4 || c == 8 {
            proof { lemma_fold_stops(variant@, init, f, i + 1); }
            return 0;
        }
        i = i + 1;
    }
    proof {
        assert(variant@.take(i as int) =~= variant@);
    }
    count
}

/// Whether a triplet or quad of this tile id is in the variant.
fn find_yakuhai(variant: &[Shape], tile_id: u8) -> (b: bool)
    requires
        variant_ok(variant@),
    ensures
        b == yakuhai_spec(variant@, tile_id as int),
{
    let mut i: usize = 0;
    while i < variant.len()
        invariant
            i <= variant@.len(),
            variant_ok(variant@),
            forall|j: int| 0 <= j < i ==> !(is_set(class_of(#[trigger] variant@[j])) && tile_of_shape(variant@[j], 0).spec_id() == tile_id),
        decreases variant.len() - i,
    {
        let (c, t0, t1, t2) = classify(&variant[i]);
        proof {
            assert(tile_of_shape(variant@[i as int], 0).valid());
            super::tile::lemma_valid_key_id(t0.tile_type, t0.tile_type);
        }
        if (c == 1 || c == 2 || c == 6 || c == 7) && t0.to_id() == tile_id {
            return true;
        }
        i = i + 1;
    }
    false
}

fn tanyao_check(hand: &super::hand::Hand) -> (b: bool)
    requires
        hand.wf(),
    ensures
        b == tanyao_spec(hand.tiles@),
{
    let array_34 = hand.get_34_array(false);
    let mut k: usize = 0;
    while k < 34
        invariant
            k <= 34,
            forall|j: int| 0 <= j < 34 ==> #[trigger] array_34@[j] == id_count(hand.tiles@, j + 1, false),
            forall|j: int| 0 <= j < k ==> !(is_terminal_or_honor_index(j) && #[trigger] id_count(hand.tiles@, j + 1, false) > 0),
        decreases 34 - k,
    {
        let d = k;
        if (d == 0 || d == 8 || d == 9 || d == 17 || d == 18 || d == 26 || d >= 27) && array_34[k] > 0 {
            assert(array_34@[k as int] == id_count(hand.tiles@, k as int + 1, false));
            return false;
        }
        k = k + 1;
    }
    true
}

fn suit_check(hand: &super::hand::Hand, honors_ok: bool) -> (r: (bool, bool))
    ensures
        match suit_scan(hand.tiles@, honors_ok) {
            Err(b) => r == (true, b),
            Ok((h, _)) => r == (false, h),
        },
{
    let mut has_honors = false;
    let mut suit: char = 'x';
    let mut i: usize = 0;
    while i < hand.tiles.len()
        invariant
            i <= hand.tiles@.len(),
            suit_scan(hand.tiles@.take(i as int), honors_ok) == Ok::<(bool, char), bool>((has_honors, suit)),
        decreases hand.tiles.len() - i,
    {
        assert(hand.tiles@.take(i + 1).drop_last() =~= hand.tiles@.take(i as int));
        assert(hand.tiles@.take(i + 1).last() == hand.tiles@[i as int]);
        if let Some(tile) = &hand.tiles[i] {
            let c = tile.get_type_char();
            if c == 'z' {
                if !honors_ok {
                    proof { lemma_suit_stops(hand.tiles@, honors_ok, i + 1); }
                    return (true, false);
                }
                has_honors = true;
            } else if suit == 'x' {
                suit = c;
            } else if suit != c {
                proof { lemma_suit_stops(hand.tiles@, honors_ok, i + 1); }
                return (true, false);
            }
        }
        i = i + 1;
    }
    assert(hand.tiles@.take(i as int) =~= hand.tiles@);
    (false, has_honors)
}

proof fn lemma_suit_stops(t: Seq<Option<Tile>>, honors_ok: bool, n: int)
    requires
        0 <= n <= t.len(),
        suit_scan(t.take(n), honors_ok) is Err,
    ensures
        suit_scan(t, honors_ok) == suit_scan(t.take(n), honors_ok),
    decreases t.len() - n,
{
    if n < t.len() {
        assert(t.drop_last().take(n) =~= t.take(n));
        lemma_suit_stops(t.drop_last(), honors_ok, n);
    } else {
        assert(t.take(n) =~= t);
    }
}

fn ryuuiisou_check(hand: &super::hand::Hand) -> (b: bool)
    requires
        hand.wf(),
    ensures
        b == ryuuiisou_spec(hand.tiles@),
{
    let mut i: usize = 0;
    while i < hand.tiles.len()
        invariant
            hand.wf(),
            i <= hand.tiles@.len(),
            forall|j: int| 0 <= j < i ==> (#[trigger] hand.tiles@[j] matches Some(x) ==> is_green_id(x.spec_id())),
        decreases hand.tiles.len() - i,
    {
        if let Some(tile) = &hand.tiles[i] {
            proof { super::tile::lemma_valid_key_id(tile.tile_type, tile.tile_type); }
            let id = tile.to_id();
            if !(id == 20 || id == 21 || id == 22 || id == 24 || id == 26 || id == 33) {
                return false;
            }
        }
        i = i + 1;
    }
    true
}

fn kokushi_check(hand: &super::hand::Hand) -> (b: bool)
    requires
        hand.wf(),
    ensures
        b == kokushi_spec(hand.tiles@),
{
    let array_34 = hand.get_34_array(true);
    let mut has_pair = false;
    let mut k: usize = 0;
    while k < 34
        invariant
            k <= 34,
            forall|j: int| 0 <= j < 34 ==> #[trigger] array_34@[j] == id_count(hand.tiles@, j + 1, true),
            kokushi_scan(hand.tiles@, k as int) == Ok::<bool, bool>(has_pair),
        decreases 34 - k,
    {
        let count = array_34[k];
        assert(count == id_count(hand.tiles@, k as int + 1, true));
        if count != 0 {
            let d = k;
            if !(d == 0 || d == 8 || d == 9 || d == 17 || d == 18 || d == 26 || d >= 27) {
                proof { lemma_kokushi_stops(hand.tiles@, k as int + 1, 34); }
                return false;
            }
            if count > 2 {
                proof { lemma_kokushi_stops(hand.tiles@, k as int + 1, 34); }
                return false;
            }
            if count == 2 {
                if has_pair {
                    proof { lemma_kokushi_stops(hand.tiles@, k as int + 1, 34); }
                    return false;
                }
                has_pair = true;
            }
        }
        k = k + 1;
    }
    has_pair
}

proof fn lemma_kokushi_stops(t: Seq<Option<Tile>>, n: int, m: int)
    requires
        0 <= n <= m,
        kokushi_scan(t, n) is Err,
    ensures
        kokushi_scan(t, m) == kokushi_scan(t, n),
    decreases m - n,
{
    if n < m {
        lemma_kokushi_stops(t, n, m - 1);
    }
}

fn chuuren_check(hand: &super::hand::Hand) -> (b: bool)
    requires
        hand.wf(),
    ensures
        b == chuuren_spec(hand.tiles@),
{
    let a = hand.get_34_array(true);
    let ghost t = hand.tiles@;
    assert(a@[0] == id_count(t, 1, true));
    assert(a@[9] == id_count(t, 10, true));
    assert(a@[18] == id_count(t, 19, true));
    let offset: usize = if a[0] >= 3 {
        0
    } else if a[9] >= 3 {
        9
    } else if a[18] >= 3 {
        18
    } else {
        return false;
    };
    assert(offset as int == chuuren_offset(t));
    assert(a@[8 + offset as int] == id_count(t, 9 + offset as int, true));
    if a[8 + offset] < 3 {
        return false;
    }
    let mut j: usize = 1;
    while j <= 7
        invariant
            1 <= j <= 8,
            offset <= 18,
            forall|k: int| 0 <= k < 34 ==> #[trigger] a@[k] == id_count(t, k + 1, true),
            t == hand.tiles@,
            offset as int == chuuren_offset(t),
            forall|k: int| 1 <= k < j ==> 1 <= #[trigger] id_count(t, k + 1 + offset, true) <= 2,
        decreases 8 - j,
    {
        assert(a@[j + offset as int] == id_count(t, j + offset as int + 1, true));
        if a[j + offset] == 0 || a[j + offset] > 2 {
            assert(!(1 <= id_count(t, j as int + 1 + offset as int, true) <= 2));
            assert(!chuuren_middle(t, offset as int));
            assert(!chuuren_spec(hand.tiles@));
            return false;
        }
        j = j + 1;
    }
    true
}

pub proof fn lemma_first_drawn_unique(t: Seq<Option<Tile>>, i: int)
    requires
        super::hand::first_drawn(t, i),
    ensures
        winning_tile(t) == t[i].unwrap(),
{
    let j = choose|j: int| super::hand::first_drawn(t, j);
    assert(super::hand::first_drawn(t, j));
    if j < i {
        assert(!(t[j] matches Some(x) && x.is_draw));
    } else if j > i {
        assert(!(t[i] matches Some(x) && x.is_draw));
    }
}

/// The winning tile of a table ready for yaku.
fn winning_tile_of(table: &super::table::Table) -> (t: Tile)
    requires
        table_ok(*table),
    ensures
        t == winning_tile(table.my_hand.unwrap().tiles@),
{
    let t = table.get_my_winning_tile();
    proof {
        let i = choose|i: int| super::hand::first_drawn(table.my_hand.unwrap().tiles@, i) && table.my_hand.unwrap().tiles@[i] == Some(t);
        lemma_first_drawn_unique(table.my_hand.unwrap().tiles@, i);
    }
    t
}

/// The name of a yaku.
pub open spec fn name_spec(y: Yaku) -> Seq<char> {
    match y {
        Yaku::MenzenTsumo => "Menzen tsumo"@,
        Yaku::Riichi => "Riichi"@,
        Yaku::Ippatsu => "Ippatsu"@,
        Yaku::Pinfu => "Pinfu"@,
        Yaku::Iipeikou => "Iipeikou"@,
        Yaku::Haitei => "Haitei raoyue"@,
        Yaku::Houtei => "Houtei raoyui"@,
        Yaku::Rinshan => "Rinshan kaihou"@,
        Yaku::Chankan => "Chankan"@,
        Yaku::Tanyao => "Tanyao"@,
        Yaku::EastRound => "East round winds"@,
        Yaku::EastSeat => "East seat winds"@,
        Yaku::SouthRound => "South round winds"@,
        Yaku::SouthSeat => "South seat winds"@,
        Yaku::WestRound => "West round winds"@,
        Yaku::WestSeat => "West seat winds"@,
        Yaku::NorthSeat => "North seat winds"@,
        Yaku::WhiteDragons => "White dragons"@,
        Yaku::GreenDragons => "Green dragons"@,
        Yaku::RedDragons => "Red dragons"@,
        Yaku::DoubleRiichi => "Double riichi"@,
        Yaku::Chanta => "Chantaiyao"@,
        Yaku::SanshokuDoujun => "Sanshoku doujun"@,
        Yaku::Ittsu => "Ittsu"@,
        Yaku::Toitoi => "Toitoi"@,
        Yaku::Sanankou => "Sanankou"@,
        Yaku::SanshokuDoukou => "Sanshoku doukou"@,
        Yaku::Sankantsu => "Sankantsu"@,
        Yaku::Chiitoitsu => "Chiitoitsu"@,
        Yaku::Honroutou => "Honroutou"@,
        Yaku::Shousangen => "Shousangen"@,
        Yaku::Honitsu => "Honitsu"@,
        Yaku::Junchan => "Junchan taiyao"@,
        Yaku::Ryanpeikou => "Ryanpeikou"@,
        Yaku::Chinitsu => "Chinitsu"@,
        Yaku::Kazoe => "Kazoe yakuman"@,
        Yaku::Kokushi => "Kokushi musou"@,
        Yaku::Suuankou => "Suuankou"@,
        Yaku::Daisangen => "Daisangen"@,
        Yaku::Shousuushii => "Shousuushii"@,
        Yaku::Daisuushii => "Daisuushii"@,
        Yaku::Tsuuiisou => "Tsuuiisou"@,
        Yaku::Chinroutou => "Chinroutou"@,
        Yaku::Ryuuiisou => "Ryuuiisou"@,
        Yaku::Chuuren => "Chuuren poutou"@,
        Yaku::Suukantsu => "Suukantsu"@,
        Yaku::Tenhou => "Tenhou"@,
        Yaku::Chiihou => "Chiihou"@,
    }
}

impl Yaku {
    pub fn get_name(&self) -> (r: &str)
        ensures
            r@ == name_spec(*self),
    {
        match self {
            Yaku::MenzenTsumo => "Menzen tsumo",
            Yaku::Riichi => "Riichi",
            Yaku::Ippatsu => "Ippatsu",
            Yaku::Pinfu => "Pinfu",
            Yaku::Iipeikou => "Iipeikou",
            Yaku::Haitei => "Haitei raoyue",
            Yaku::Houtei => "Houtei raoyui",
            Yaku::Rinshan => "Rinshan kaihou",
            Yaku::Chankan => "Chankan",
            Yaku::Tanyao => "Tanyao",
            Yaku::EastRound => "East round winds",
            Yaku::EastSeat => "East seat winds",
            Yaku::SouthRound => "South round winds",
            Yaku::SouthSeat => "South seat winds",
            Yaku::WestRound => "West round winds",
            Yaku::WestSeat => "West seat winds",
            Yaku::NorthSeat => "North seat winds",
            Yaku::WhiteDragons => "White dragons",
            Yaku::GreenDragons => "Green dragons",
            Yaku::RedDragons => "Red dragons",
            Yaku::DoubleRiichi => "Double riichi",
            Yaku::Chanta => "Chantaiyao",
            Yaku::SanshokuDoujun => "Sanshoku doujun",
            Yaku::Ittsu => "Ittsu",
            Yaku::Toitoi => "Toitoi",
            Yaku::Sanankou => "Sanankou",
            Yaku::SanshokuDoukou => "Sanshoku doukou",
            Yaku::Sankantsu => "Sankantsu",
            Yaku::Chiitoitsu => "Chiitoitsu",
            Yaku::Honroutou => "Honroutou",
            Yaku::Shousangen => "Shousangen",
            Yaku::Honitsu => "Honitsu",
            Yaku::Junchan => "Junchan taiyao",
            Yaku::Ryanpeikou => "Ryanpeikou",
            Yaku::Chinitsu => "Chinitsu",
            Yaku::Kazoe => "Kazoe yakuman",
            Yaku::Kokushi => "Kokushi musou",
            Yaku::Suuankou => "Suuankou",
            Yaku::Daisangen => "Daisangen",
            Yaku::Shousuushii => "Shousuushii",
            Yaku::Daisuushii => "Daisuushii",
            Yaku::Tsuuiisou => "Tsuuiisou",
            Yaku::Chinroutou => "Chinroutou",
            Yaku::Ryuuiisou => "Ryuuiisou",
            Yaku::Chuuren => "Chuuren poutou",
            Yaku::Suukantsu => "Suukantsu",
            Yaku::Tenhou => "Tenhou",
            Yaku::Chiihou => "Chiihou",
        }
    }

    /// The han of this yaku with the table's hand (some are worth less when it is open).
    pub fn get_han(&self, table: &super::table::Table) -> (h: u8)
        requires
            table.my_hand is Some,
        ensures
            h == han_spec(*self, super::hand::open_shapes(table.my_hand.unwrap().shapes@).len() == 0),
    {
        let closed = table.get_my_hand().is_closed();
        match self {
            Yaku::DoubleRiichi => 2,
            Yaku::Chanta | Yaku::SanshokuDoujun | Yaku::Ittsu => if closed { 2 } else { 1 },
            Yaku::Toitoi | Yaku::Sanankou | Yaku::SanshokuDoukou | Yaku::Sankantsu | Yaku::Chiitoitsu
            | Yaku::Honroutou | Yaku::Shousangen => 2,
            Yaku::Honitsu | Yaku::Junchan | Yaku::Ryanpeikou => if closed { 3 } else { 2 },
            Yaku::Chinitsu => if closed { 6 } else { 5 },
            Yaku::Kazoe | Yaku::Kokushi | Yaku::Suuankou | Yaku::Daisangen | Yaku::Shousuushii
            | Yaku::Daisuushii | Yaku::Tsuuiisou | Yaku::Chinroutou | Yaku::Ryuuiisou | Yaku::Chuuren
            | Yaku::Suukantsu | Yaku::Tenhou | Yaku::Chiihou => 13,
            _ => 1,
        }
    }

    pub fn is_yakuman(&self) -> (b: bool)
        ensures
            b == is_yakuman_spec(*self),
    {
        match self {
            Yaku::Kokushi | Yaku::Suuankou | Yaku::Daisangen | Yaku::Shousuushii | Yaku::Daisuushii
            | Yaku::Tsuuiisou | Yaku::Chinroutou | Yaku::Ryuuiisou | Yaku::Chuuren | Yaku::Suukantsu
            | Yaku::Tenhou | Yaku::Chiihou => true,
            _ => false,
        }
    }

    /// The yaku at a place in the order they are looked for.
    pub fn at(i: usize) -> (y: Yaku)
        requires
            i < YAKU_COUNT,
        ensures
            y == yaku_at(i as int),
    {
        let list: [Yaku; 48] = [
            Yaku::MenzenTsumo, Yaku::Riichi, Yaku::Ippatsu, Yaku::Pinfu, Yaku::Iipeikou, Yaku::Haitei,
            Yaku::Houtei, Yaku::Rinshan, Yaku::Chankan, Yaku::Tanyao, Yaku::EastRound, Yaku::EastSeat,
            Yaku::SouthRound, Yaku::SouthSeat, Yaku::WestRound, Yaku::WestSeat, Yaku::NorthSeat,
            Yaku::WhiteDragons, Yaku::GreenDragons, Yaku::RedDragons, Yaku::DoubleRiichi, Yaku::Chanta,
            Yaku::SanshokuDoujun, Yaku::Ittsu, Yaku::Toitoi, Yaku::Sanankou, Yaku::SanshokuDoukou,
            Yaku::Sankantsu, Yaku::Chiitoitsu, Yaku::Honroutou, Yaku::Shousangen, Yaku::Honitsu,
            Yaku::Junchan, Yaku::Ryanpeikou, Yaku::Chinitsu, Yaku::Kazoe, Yaku::Kokushi, Yaku::Suuankou,
            Yaku::Daisangen, Yaku::Shousuushii, Yaku::Daisuushii, Yaku::Tsuuiisou, Yaku::Chinroutou,
            Yaku::Ryuuiisou, Yaku::Chuuren, Yaku::Suukantsu, Yaku::Tenhou, Yaku::Chiihou,
        ];
        list[i]
    }

    /// Checks if this yaku is in this shape variant of the table's hand.
    fn is_in_hand(&self, table: &super::table::Table, variant: &[Shape]) -> (b: bool)
        requires
            table.my_hand is Some,
            table.my_hand.unwrap().wf(),
            reads_winning_tile(*self) ==> has_drawn(table.my_hand.unwrap().tiles@),
            variant_ok(variant@),
        ensures
            b == in_hand_spec(*self, *table, variant@),
    {
        let hand = table.get_my_hand();
        let closed = hand.is_closed();
        let tsumo = table.did_i_tsumo();
        match self {
            Yaku::MenzenTsumo => closed && tsumo,
            Yaku::Riichi => closed && table.did_i_riichi(),
            Yaku::Pinfu => {
                if !closed {
                    return false;
                }
                let wt = winning_tile_of(table);
                pinfu_check(variant, &wt, table.get_prevalent_wind(), table.get_my_seat_wind())
            },
            Yaku::Iipeikou => {
                if !closed {
                    return false;
                }
                find_peikou(variant) == 1
            },
            Yaku::Haitei => match table.get_tiles_remaining() {
                None => false,
                Some(remaining) => tsumo && remaining == 0,
            },
            Yaku::Houtei => match table.get_tiles_remaining() {
                None => false,
                Some(remaining) => !tsumo && remaining == 0,
            },
            Yaku::Tanyao => tanyao_check(hand),
            Yaku::EastRound => table.get_prevalent_wind() == Some(1u8) && find_yakuhai(variant, 28),
            Yaku::EastSeat => table.get_my_seat_wind() == Some(1u8) && find_yakuhai(variant, 28),
            Yaku::SouthRound => table.get_prevalent_wind() == Some(2u8) && find_yakuhai(variant, 29),
            Yaku::SouthSeat => table.get_my_seat_wind() == Some(2u8) && find_yakuhai(variant, 29),
            Yaku::WestRound => table.get_prevalent_wind() == Some(3u8) && find_yakuhai(variant, 30),
            Yaku::WestSeat => table.get_my_seat_wind() == Some(3u8) && find_yakuhai(variant, 30),
            Yaku::NorthSeat => table.get_my_seat_wind() == Some(4u8) && find_yakuhai(variant, 31),
            Yaku::WhiteDragons => find_yakuhai(variant, 32),
            Yaku::GreenDragons => find_yakuhai(variant, 33),
            Yaku::RedDragons => find_yakuhai(variant, 34),
            Yaku::Chanta => chanta_check(variant),
            Yaku::SanshokuDoujun => doujun_check(variant),
            Yaku::Ittsu => ittsu_check(variant),
            Yaku::Toitoi => {
                let wt = winning_tile_of(table);
                toitoi_check(variant, closed, &wt)
            },
            Yaku::Sanankou => {
                let wt = winning_tile_of(table);
                sanankou_check(variant, closed, tsumo, &wt)
            },
            Yaku::SanshokuDoukou => doukou_check(variant),
            Yaku::Chiitoitsu => chiitoitsu_check(variant),
            Yaku::Honroutou => honroutou_check(variant),
            Yaku::Shousangen => shousangen_check(variant),
            Yaku::Honitsu => {
                let (stopped, answer) = suit_check(hand, true);
                answer
            },
            Yaku::Junchan => junchan_check(variant),
            Yaku::Ryanpeikou => {
                if !closed {
                    return false;
                }
                find_peikou(variant) == 2
            },
            Yaku::Chinitsu => {
                let (stopped, answer) = suit_check(hand, false);
                if stopped { answer } else { true }
            },
            Yaku::Kokushi => closed && kokushi_check(hand),
            Yaku::Suuankou => {
                if !closed {
                    return false;
                }
                let wt = winning_tile_of(table);
                suuankou_check(variant, tsumo, &wt)
            },
            Yaku::Daisangen => daisangen_check(variant),
            Yaku::Shousuushii => shousuushii_check(variant),
            Yaku::Daisuushii => daisuushii_check(variant),
            Yaku::Tsuuiisou => all_sets_check(variant, true),
            Yaku::Chinroutou => all_sets_check(variant, false),
            Yaku::Ryuuiisou => ryuuiisou_check(hand),
            Yaku::Chuuren => closed && chuuren_check(hand),
            // not looked for yet
            _ => false,
        }
    }
}

// ---- finding the yaku and the score of a hand

/// The yaku of one kind (yakuman or not) among the first `n`, in order, that are in the
/// variant.
pub open spec fn yaku_upto(table: super::table::Table, v: Seq<Shape>, n: int, yakuman: bool) -> Seq<Yaku>
    decreases n,
{
    if n <= 0 {
        seq![]
    } else {
        yaku_upto(table, v, n - 1, yakuman) + if is_yakuman_spec(yaku_at(n - 1)) == yakuman && in_hand_spec(yaku_at(n - 1), table, v) {
            seq![yaku_at(n - 1)]
        } else {
            seq![]
        }
    }
}

/// The han of some yaku together.
pub open spec fn han_total(l: Seq<Yaku>, closed: bool) -> int
    decreases l.len(),
{
    if l.len() == 0 {
        0
    } else {
        han_total(l.drop_last(), closed) + han_spec(l.last(), closed)
    }
}

/// The fu that some yaku set: pinfu 20 (by tsumo) or 30, chiitoitsu 25; 0 where none does.
pub open spec fn yaku_fu(l: Seq<Yaku>, tsumo: bool) -> int
    decreases l.len(),
{
    if l.len() == 0 {
        0
    } else if l.last() == Yaku::Pinfu {
        if tsumo { 20 } else { 30 }
    } else if l.last() == Yaku::Chiitoitsu {
        25
    } else {
        yaku_fu(l.drop_last(), tsumo)
    }
}

/// The fu of a shape, and whether the hand was won on it with a wait of value.
pub open spec fn shape_fu_step(pw: Option<u8>, sw: Option<u8>, wt: Tile, s: Shape) -> (int, bool) {
    let c = class_of(s);
    let t0 = tile_of_shape(s, 0);
    let t1 = tile_of_shape(s, 1);
    let t2 = tile_of_shape(s, 2);
    let ends = t0.spec_is_terminal() || t0.spec_is_honor();
    if c == 0 {
        (0, same(t1, wt) || (prev_id_spec(t0.spec_id(), false, 1) == 0int && same(t2, wt))
            || (next_id_spec(t2.spec_id(), false, 1) == 0 && same(t0, wt)))
    } else if c == 1 {
        (if ends { 8 } else { 4 }, same(t0, wt))
    } else if c == 2 {
        (if ends { 32 } else { 16 }, false)
    } else if c == 3 {
        (match t0.tile_type {
            TileType::Wind(v) => (if pw == Some(v) { 2int } else { 0 }) + (if sw == Some(v) { 2int } else { 0 }),
            TileType::Dragon(_) => 2,
            TileType::Number(_, _) => 0,
        }, same(t0, wt))
    } else if c == 6 {
        (if ends { 4 } else { 2 }, false)
    } else if c == 7 {
        (if ends { 8 } else { 4 }, false)
    } else {
        (0, false)
    }
}

/// The fu of the shapes so far and whether a wait of value was seen.
pub open spec fn shapes_fu(pw: Option<u8>, sw: Option<u8>, wt: Tile, v: Seq<Shape>) -> (int, bool)
    decreases v.len(),
{
    if v.len() == 0 {
        (0, false)
    } else {
        let (f, w) = shapes_fu(pw, sw, wt, v.drop_last());
        let (f2, w2) = shape_fu_step(pw, sw, wt, v.last());
        (f + f2, w || w2)
    }
}

/// A closed kan of the winning tile (which cannot be).
pub open spec fn kan_of_winning_tile(v: Seq<Shape>, wt: Tile) -> bool {
    exists|i: int| 0 <= i < v.len() && class_of(#[trigger] v[i]) == 2 && same(tile_of_shape(v[i], 0), wt)
}

/// The fu counted from the shapes: 20 for a tsumo, else 30, the shapes' fu and 2 for a wait of
/// value.
pub open spec fn counted_fu(table: super::table::Table, v: Seq<Shape>) -> int {
    let tsumo = table.my_tsumo.unwrap_or(false);
    let (f, w) = shapes_fu(table.prevalent_wind, table.my_seat_wind, winning_tile(table.my_hand.unwrap().tiles@), v);
    (if tsumo { 20int } else { 30int }) + f + if w { 2int } else { 0 }
}

/// The yaku, han and fu of a variant.
pub open spec fn variant_han_fu(table: super::table::Table, v: Seq<Shape>) -> (Seq<Yaku>, int, int) {
    let closed = super::hand::open_shapes(table.my_hand.unwrap().shapes@).len() == 0;
    let tsumo = table.my_tsumo.unwrap_or(false);
    let ym = yaku_upto(table, v, 48, true);
    if ym.len() > 0 {
        (ym, 13, 0)
    } else {
        let r = yaku_upto(table, v, 48, false);
        let han = han_total(r, closed);
        let fu0 = yaku_fu(r, tsumo);
        let fu = if han >= 5 { 0 } else if han > 0 && fu0 == 0 { counted_fu(table, v) } else { fu0 };
        (r, han, fu)
    }
}

/// The yaku and score of a variant.
pub open spec fn variant_score(table: super::table::Table, v: Seq<Shape>) -> (Seq<Yaku>, Score) {
    let (r, han, fu) = variant_han_fu(table, v);
    (r, score_of(han, fu, table.my_seat_wind == Some(1u8), table.my_tsumo.unwrap_or(false)))
}

/// The best of the first `n` variants: the first, or a later one worth more points.
pub open spec fn best_variant(table: super::table::Table, vars: Seq<Seq<Shape>>, n: int) -> (Seq<Yaku>, Score)
    decreases n,
{
    if n <= 0 {
        (seq![], score_of(0, 0, false, false))
    } else {
        let prev = best_variant(table, vars, n - 1);
        let cand = variant_score(table, vars[n - 1]);
        if n - 1 == 0 || total_points_spec(cand.1) > total_points_spec(prev.1) { cand } else { prev }
    }
}

/// The splits of a hand that the shape finder gives.
pub open spec fn hand_variants(h: super::hand::Hand) -> Seq<Seq<Shape>> {
    if super::hand::hand_size(h.tiles@) < 14 {
        seq![]
    } else {
        super::shape_finder::with_extras(search_spec(free_counts(h), 0, (seq![], seq![], seq![])).1, extra_shapes(h.shapes@))
    }
}

/// A table whose hand can be scored: ready for yaku, with at most four calls, and with
/// variants of real tiles whose fu fit in a byte and where no closed kan is of the winning tile.
pub open spec fn find_ok(table: super::table::Table) -> bool {
    let h = table.my_hand.unwrap();
    &&& table_ok(table)
    &&& h.sane()
    &&& forall|k: int| 0 <= k < hand_variants(h).len() ==> {
        let v = #[trigger] hand_variants(h)[k];
        &&& variant_ok(v)
        &&& !kan_of_winning_tile(v, winning_tile(h.tiles@))
        &&& counted_fu(table, v) <= 255
    }
}

/// What `YakuFinder::find` gives: nothing for a hand that is not complete, else the yaku and
/// score of its best variant.
pub open spec fn find_spec(table: super::table::Table) -> Option<(Seq<Yaku>, Score)> {
    let h = table.my_hand.unwrap();
    if super::improving::start_shanten(h) != -1 {
        None
    } else {
        let vars = hand_variants(h);
        Some(best_variant(table, vars, vars.len() as int))
    }
}

/// Finds the yaku of complete hands and their scores.
pub struct YakuFinder {}

/// The fu counted from the shapes of a variant.
fn shape_fu(table: &super::table::Table, variant: &[Shape]) -> (f: u8)
    requires
        table_ok(*table),
        variant_ok(variant@),
        !kan_of_winning_tile(variant@, winning_tile(table.my_hand.unwrap().tiles@)),
        counted_fu(*table, variant@) <= 255,
    ensures
        f == counted_fu(*table, variant@),
{
    let tsumo = table.did_i_tsumo();
    let pw = table.get_prevalent_wind();
    let sw = table.get_my_seat_wind();
    let wt = winning_tile_of(table);
    let base: u32 = if tsumo { 20 } else { 30 };
    let mut fu: u32 = base;
    // set for tanki, shanpon, kanchan and penchan waits
    let mut has_value_wait = false;
    let mut i: usize = 0;
    while i < variant.len()
        invariant
            i <= variant@.len(),
            variant_ok(variant@),
            !kan_of_winning_tile(variant@, wt),
            fu as int == base + shapes_fu(pw, sw, wt, variant@.take(i as int)).0,
            has_value_wait == shapes_fu(pw, sw, wt, variant@.take(i as int)).1,
            base <= 30,
            fu <= base + 32 * i,
        decreases variant.len() - i,
    {
        proof {
            assert(variant@.take(i + 1).drop_last() =~= variant@.take(i as int));
            assert(variant@.take(i + 1).last() == variant@[i as int]);
        }
        let (c, t0, t1, t2) = classify(&variant[i]);
        proof {
            assert(tile_of_shape(variant@[i as int], 0).valid());
            assert(tile_of_shape(variant@[i as int], 2).valid());
        }
        let ends = t0.is_terminal() || t0.is_honor();
        if c == 0 {
            if t1.eq(&wt) || (t0.prev_id(false, 1) == 0 && t2.eq(&wt)) || (t2.next_id(false, 1) == 0 && t0.eq(&wt)) {
                // kanchan and penchans
                has_value_wait = true;
            }
        } else if c == 1 {
            fu = fu + if ends { 8 } else { 4 };
            if t0.eq(&wt) {
                has_value_wait = true;
            }
        } else if c == 2 {
            fu = fu + if ends { 32 } else { 16 };
            if t0.eq(&wt) {
                // a hand is not won on a tile of a kan
                assert(kan_of_winning_tile(variant@, wt));
            }
        } else if c == 3 {
            match t0.tile_type {
                TileType::Wind(value) => {
                    // prevalent wind +2, own wind another +2
                    if pw == Some(value) {
                        fu = fu + 2;
                    }
                    if sw == Some(value) {
                        fu = fu + 2;
                    }
                },
                TileType::Dragon(_) => {
                    fu = fu + 2;
                },
                TileType::Number(_, _) => {},
            }
            if t0.eq(&wt) {
                has_value_wait = true;
            }
        } else if c == 6 {
            fu = fu + if ends { 4 } else { 2 };
        } else if c == 7 {
            fu = fu + if ends { 8 } else { 4 };
        }
        i = i + 1;
    }
    proof {
        assert(variant@.take(i as int) =~= variant@);
    }
    if has_value_wait {
        fu = fu + 2;
    }
    fu as u8
}

impl YakuFinder {
    pub fn new() -> (f: YakuFinder) {
        YakuFinder {}
    }

    /// The yaku, han and fu of one variant.
    fn variant_yaku(&self, table: &super::table::Table, variant: &[Shape]) -> (r: (Vec<Yaku>, u8, u8))
        requires
            table_ok(*table),
            variant_ok(variant@),
            !kan_of_winning_tile(variant@, winning_tile(table.my_hand.unwrap().tiles@)),
            counted_fu(*table, variant@) <= 255,
        ensures
            (r.0@, r.1 as int, r.2 as int) == variant_han_fu(*table, variant@),
    {
        let closed = table.get_my_hand().is_closed();
        let tsumo = table.did_i_tsumo();
        let mut yakus: Vec<Yaku> = Vec::new();
        // first the yakuman
        let mut k: usize = 0;
        while k < YAKU_COUNT
            invariant
                k <= YAKU_COUNT,
                table_ok(*table),
                variant_ok(variant@),
                yakus@ == yaku_upto(*table, variant@, k as int, true),
            decreases YAKU_COUNT - k,
        {
            let y = Yaku::at(k);
            if y.is_yakuman() && y.is_in_hand(table, variant) {
                yakus.push(y);
            }
            k = k + 1;
        }
        if yakus.len() > 0 {
            return (yakus, 13, 0);
        }
        let mut han: u8 = 0;
        let mut fu: u8 = 0;
        let mut k: usize = 0;
        while k < YAKU_COUNT
            invariant
                k <= YAKU_COUNT,
                table_ok(*table),
                variant_ok(variant@),
                closed == (super::hand::open_shapes(table.my_hand.unwrap().shapes@).len() == 0),
                tsumo == table.my_tsumo.unwrap_or(false),
                yakus@ == yaku_upto(*table, variant@, k as int, false),
                han as int == han_total(yakus@, closed),
                fu as int == yaku_fu(yakus@, tsumo),
                han <= 6 * (if k < 36 { k } else { 36 }),
            decreases YAKU_COUNT - k,
        {
            let y = Yaku::at(k);
            if !y.is_yakuman() && y.is_in_hand(table, variant) {
                match y {
                    Yaku::Pinfu => {
                        fu = if tsumo { 20 } else { 30 };
                    },
                    Yaku::Chiitoitsu => {
                        fu = 25;
                    },
                    _ => {},
                }
                let ghost before = yakus@;
                yakus.push(y);
                assert(yakus@.drop_last() =~= before);
                han = han + y.get_han(table);
            }
            k = k + 1;
        }
        if han >= 5 {
            fu = 0;
        } else if han > 0 && fu == 0 {
            // no yaku set the fu: count it from the shapes
            fu = shape_fu(table, variant);
        }
        (yakus, han, fu)
    }

    /// Finds the best variant of the hand and its score.
    pub fn find(&self, table: &mut super::table::Table) -> (r: Option<(Vec<Yaku>, Score)>)
        requires
            find_ok(*old(table)),
        ensures
            *final(table) == *old(table),
            match find_spec(*old(table)) {
                None => r is None,
                Some((l, sc)) => r matches Some((v, s2)) && v@ == l && s2 == sc,
            },
    {
        let ghost h = table.my_hand.unwrap();
        // only complete hands
        let mut hand = table.get_my_hand().copy();
        if hand.shanten() != -1 {
            return None;
        }
        let mut sf = ShapeFinder::new();
        assert(sf.current_variant@ =~= Seq::<Shape>::empty());
        assert(super::shape_finder::vars_view(sf.variants@) =~= Seq::<Seq<Shape>>::empty());
        let variants = sf.find(&hand);
        assert(super::shape_finder::vars_view(variants@) == hand_variants(h)) by {
            if super::hand::hand_size(h.tiles@) < 14 {
                assert(super::shape_finder::vars_view(variants@) =~= Seq::<Seq<Shape>>::empty());
            }
        }
        let mut best: (Vec<Yaku>, Score) = (Vec::new(), Score::new(0, 0, false, false));
        let mut i: usize = 0;
        while i < variants.len()
            invariant
                i <= variants@.len(),
                find_ok(*table),
                h == table.my_hand.unwrap(),
                super::shape_finder::vars_view(variants@) == hand_variants(h),
                best.0@ == best_variant(*table, hand_variants(h), i as int).0,
                best.1 == best_variant(*table, hand_variants(h), i as int).1,
            decreases variants.len() - i,
        {
            assert(super::shape_finder::vars_view(variants@)[i as int] == variants@[i as int]@);
            assert(hand_variants(h)[i as int] == variants@[i as int]@);
            let (yakus, han, fu) = self.variant_yaku(table, variants[i].as_slice());
            let score = Score::new(han, fu, table.am_i_oya(), table.did_i_tsumo());
            if i == 0 || score.total_points() > best.1.total_points() {
                best = (yakus, score);
            }
            i = i + 1;
        }
        Some(best)
    }
}

} // verus!
