use vstd::prelude::*;
use super::super::tile::{Tile, TileType, TileColor, color_index};
use super::super::hand::{Hand, open_shapes};
use super::super::tiles_seq::id_count;
use super::super::shapes::{OpenShape, OpenKan, CompleteShape, ClosedShape};
use super::resources::Resources;
use super::suit_classifier::{SuitClassifier, meld_walk, suit_walk, suit_adds};
use super::chiitoi_classifier::ChiitoiClassifier;
use super::kokushi_classifier::{KokushiClassifier, terminal_or_honor};
use super::progressive_honor_classifier::{ProgressiveHonorClassifier, honor_step};
use super::arrangement_classifier::{ArrangementClassifier, arrangement_walk};

verus! {

/// The state of a calculator as the contracts see it.
pub struct CalcView {
    /// arrangement values of the three suits and the honors
    pub arr: Seq<u32>,
    /// base 5 hashes of the concealed tiles of each suit
    pub b5: Seq<u32>,
    /// concealed tiles by type
    pub conc: Seq<u8>,
    /// tiles in hand by type, melds included (a kan counts 4)
    pub held: Seq<u8>,
    /// the melds of each suit, six bits each, youngest in the least significant bits
    pub melds: Seq<u32>,
    /// bits of the honor pons
    pub jihai: u8,
    /// meld count and entry of each suit classifier
    pub smc: Seq<int>,
    pub sent: Seq<int>,
    /// chiitoitsu shanten; kokushi shanten and pair mark; honor state
    pub chiitoi: int,
    pub kokushi: int,
    pub pairs: int,
    pub honor: int,
    /// calls and kans made
    pub mc: u8,
}

/// A calculator that has seen no tile.
pub open spec fn fresh_view() -> CalcView {
    CalcView {
        arr: seq![0u32, 0u32, 0u32, 0u32],
        b5: seq![0u32, 0u32, 0u32],
        conc: Seq::new(34, |k: int| 0u8),
        held: Seq::new(34, |k: int| 0u8),
        melds: seq![0u32, 0u32, 0u32],
        jihai: 0,
        smc: seq![0int, 0int, 0int],
        sent: seq![0int, 0int, 0int],
        chiitoi: 7,
        kokushi: 14,
        pairs: 1,
        honor: 0,
        mc: 0,
    }
}

/// 5 to the power of value - 1 (the base 5 digit of a value 1 to 9), 0 for 0.
pub open spec fn base5_unit(v: int) -> int {
    if v == 1 { 1 } else if v == 2 { 5 } else if v == 3 { 25 } else if v == 4 { 125 } else if v == 5 { 625 }
    else if v == 6 { 3125 } else if v == 7 { 15625 } else if v == 8 { 78125 } else if v == 9 { 390625 } else { 0 }
}

/// The index of a tile's type (id - 1).
pub open spec fn idx(t: Tile) -> int {
    t.spec_id() - 1
}

/// The counts of a type changed by `dh` (in hand) and `dc` (concealed); none where a count
/// leaves a byte.
pub open spec fn with_counts(s: CalcView, i: int, dh: int, dc: int) -> Option<CalcView> {
    if !(0 <= i < 34) || !(0 <= s.held[i] + dh <= 255) || !(0 <= s.conc[i] + dc <= 255) {
        None
    } else {
        Some(CalcView { held: s.held.update(i, (s.held[i] + dh) as u8), conc: s.conc.update(i, (s.conc[i] + dc) as u8), ..s })
    }
}

/// The kokushi classifier told of a draw of type `i`, `prev` held before.
pub open spec fn kokushi_draw(s: CalcView, i: int, prev: int) -> Option<CalcView> {
    let th = terminal_or_honor(i);
    if !(0 <= i < 34 && 0 <= prev <= 3) || (th && prev <= 1 && s.kokushi <= -128) {
        None
    } else {
        Some(CalcView {
            pairs: if th && prev == 1 { (s.pairs * 2) % 256 } else { s.pairs },
            kokushi: s.kokushi - if th && prev == 0 { 1int } else if th && prev == 1 { s.pairs % 2 } else { 0 },
            ..s
        })
    }
}

/// The kokushi classifier told of a discard of type `i`, `after` left.
pub open spec fn kokushi_discard(s: CalcView, i: int, after: int) -> Option<CalcView> {
    let th = terminal_or_honor(i);
    let pairs = if th && after == 1 { s.pairs / 2 } else { s.pairs };
    if !(0 <= i < 34 && 0 <= after <= 3) || (th && after <= 1 && s.kokushi >= 127) {
        None
    } else {
        Some(CalcView {
            pairs,
            kokushi: s.kokushi + if th && after == 0 { 1int } else if th && after == 1 { pairs % 2 } else { 0 },
            ..s
        })
    }
}

/// The chiitoitsu classifier told of a draw, `prev` of the type held before.
pub open spec fn chiitoi_draw(s: CalcView, prev: int) -> Option<CalcView> {
    if !(0 <= prev <= 4) || (prev == 1 && s.chiitoi <= -128) {
        None
    } else {
        Some(CalcView { chiitoi: s.chiitoi - if prev == 1 { 1int } else { 0 }, ..s })
    }
}

/// The chiitoitsu classifier told of a discard, `after` of the type left.
pub open spec fn chiitoi_discard(s: CalcView, after: int) -> Option<CalcView> {
    if !(0 <= after <= 4) || (after == 1 && s.chiitoi >= 127) {
        None
    } else {
        Some(CalcView { chiitoi: s.chiitoi + if after == 1 { 1int } else { 0 }, ..s })
    }
}

/// The pon bit that the honor classifier reads for an honor of this value.
pub open spec fn meld_bit(jihai: u8, shift: int) -> u8 {
    (jihai >> (shift as u8)) & 1u8
}

/// An honor step of this action: the honor state and the honors' arrangement value.
pub open spec fn honor_act(res: Resources, s: CalcView, action: int) -> Option<CalcView> {
    match honor_step(res.honor_states(), s.honor, action) {
        Some(r) => Some(CalcView { honor: r.0, arr: s.arr.update(3, r.1 as u32), ..s }),
        None => None,
    }
}

/// The honor classifier told of a draw of an honor of value `v`, `prev` held before.
pub open spec fn honor_draw(res: Resources, s: CalcView, prev: int, shift: int) -> Option<CalcView> {
    let bit = meld_bit(s.jihai, shift);
    if !(0 <= shift < 8 && 0 <= prev <= 3 && bit <= 1) {
        None
    } else {
        honor_act(res, s, prev + 4 * bit + 1)
    }
}

/// The honor classifier told of a discard of an honor, `after` left.
pub open spec fn honor_discard(res: Resources, s: CalcView, after: int, shift: int) -> Option<CalcView> {
    let bit = meld_bit(s.jihai, shift);
    if !(0 <= shift < 8 && 0 <= after <= 3 && bit <= 1) {
        None
    } else {
        honor_act(res, s, after + 4 * bit + 6)
    }
}

/// The arrangement value of suit `c` (see `SuitClassifier::get_value`).
pub open spec fn suit_value(res: Resources, s: CalcView, c: int) -> Option<int> {
    let mc = s.smc[c];
    if mc == 0 {
        if s.b5[c] < res.base_5_lookup().len() { Some(res.base_5_lookup()[s.b5[c] as int] as int) } else { None }
    } else if 1 <= mc <= 4 {
        suit_walk(res.second_phase(mc), s.sent[c], s.conc.subrange(9 * c, 9 * c + 9), suit_adds(mc), 0)
    } else if mc > 4 {
        Some(0)
    } else {
        None
    }
}

/// Suit `c`'s arrangement value brought up to date.
pub open spec fn update_value(res: Resources, s: CalcView, c: int) -> Option<CalcView> {
    match suit_value(res, s, c) {
        Some(v) => Some(CalcView { arr: s.arr.update(c, v as u32), ..s }),
        None => None,
    }
}

/// Suit `c`'s melds set to `m`, read by its classifier.
pub open spec fn set_melds(res: Resources, s: CalcView, c: int, m: u32) -> Option<CalcView> {
    match meld_walk(res.first_phase(), m as int, 0, 0) {
        Some(w) => if w.0 < res.first_phase().len() {
            Some(CalcView {
                melds: s.melds.update(c, m),
                smc: s.smc.update(c, w.1),
                sent: s.sent.update(c, res.first_phase()[w.0] as int),
                ..s
            })
        } else {
            None
        },
        None => None,
    }
}

/// A meld of this id added to suit `c` (the others moved up six bits), then the suit's value.
pub open spec fn suit_meld(res: Resources, s: CalcView, c: int, id: int) -> Option<CalcView> {
    let m = (s.melds[c] << 6u32) + id;
    if m > u32::MAX {
        None
    } else {
        match set_melds(res, s, c, m as u32) {
            Some(s1) => update_value(res, s1, c),
            None => None,
        }
    }
}

/// One more call or kan.
pub open spec fn one_meld_more(s: CalcView) -> Option<CalcView> {
    if s.mc >= 255 { None } else { Some(CalcView { mc: (s.mc + 1) as u8, ..s }) }
}

/// A concealed tile of the hand read in: counts, the kokushi and chiitoitsu classifiers, and
/// the suit's base 5 hash or the honor classifier.
pub open spec fn tile_in(res: Resources, s: CalcView, t: Tile) -> Option<CalcView> {
    let i = idx(t);
    if !(0 <= i < 34) {
        None
    } else {
        let prev = s.conc[i] as int;
        match with_counts(s, i, 1, 1) {
            None => None,
            Some(s1) => match kokushi_draw(s1, i, prev) {
                None => None,
                Some(s2) => match chiitoi_draw(s2, prev) {
                    None => None,
                    Some(s3) => match t.tile_type {
                        TileType::Number(v, c) => {
                            let nb = s3.b5[color_index(c)] + base5_unit(v as int);
                            if v > 9 || nb > u32::MAX {
                                None
                            } else {
                                Some(CalcView { b5: s3.b5.update(color_index(c), nb as u32), ..s3 })
                            }
                        },
                        TileType::Wind(v) => honor_draw(res, s3, prev, v - 1),
                        TileType::Dragon(v) => honor_draw(res, s3, prev, v - 1),
                    },
                },
            },
        }
    }
}

/// A tile of a call read in: counts, and the honor classifier for an honor.
pub open spec fn add_once(res: Resources, s: CalcView, t: Tile) -> Option<CalcView> {
    let i = idx(t);
    if !(0 <= i < 34) {
        None
    } else {
        let prev = s.conc[i] as int;
        match with_counts(s, i, 1, 1) {
            None => None,
            Some(s1) => match t.tile_type {
                TileType::Number(_, _) => Some(s1),
                TileType::Wind(v) => honor_draw(res, s1, prev, v - 1),
                TileType::Dragon(v) => honor_draw(res, s1, prev, v - 1),
            },
        }
    }
}

/// A chi from `lowest` (a number tile), `called` the tile called: the two other tiles leave
/// the concealed counts, the suit gets the chi's meld (its lowest value), one meld more, and
/// the called tile joins the hand.
pub open spec fn chii_spec(res: Resources, s: CalcView, lowest: Tile, called: Tile) -> Option<CalcView> {
    let li = idx(lowest);
    let ci = idx(called);
    if !(0 <= li && li + 2 < 34 && 0 <= ci < 34) {
        None
    } else {
        match lowest.tile_type {
            TileType::Number(v, color) => {
                let d0 = if li != ci { -1int } else { 0 };
                let d1 = if li + 1 != ci { -1int } else { 0 };
                let d2 = if li + 2 != ci { -1int } else { 0 };
                match with_counts(s, li, 0, d0) {
                    None => None,
                    Some(s1) => match with_counts(s1, li + 1, 0, d1) {
                        None => None,
                        Some(s2) => match with_counts(s2, li + 2, 0, d2) {
                            None => None,
                            Some(s3) => if !(1 <= v <= 9) {
                                None
                            } else {
                                match suit_meld(res, s3, color_index(color), v as int) {
                                    None => None,
                                    Some(s4) => match one_meld_more(s4) {
                                        None => None,
                                        Some(s5) => with_counts(s5, ci, 1, 0),
                                    },
                                }
                            },
                        },
                    },
                }
            },
            _ => None,
        }
    }
}

/// A pon of this tile's type: two concealed tiles leave, the suit gets a pon meld (or the
/// honor classifier a pon and the honor bits its bit), one meld more, one tile more in hand.
pub open spec fn pon_spec(res: Resources, s: CalcView, t: Tile) -> Option<CalcView> {
    let i = idx(t);
    if !(0 <= i < 34) {
        None
    } else {
        let prev = s.conc[i] as int;
        match with_counts(s, i, 0, -2) {
            None => None,
            Some(s1) => {
                let s2 = match t.tile_type {
                    TileType::Number(v, color) => if !(1 <= v <= 9) {
                        None
                    } else {
                        suit_meld(res, s1, color_index(color), v + 7)
                    },
                    _ => {
                        let v = t.spec_value();
                        match honor_act(res, s1, prev + 9) {
                            None => None,
                            Some(h) => if !(0 <= v < 8) || h.jihai + (1u8 << (v as u8)) > 255 {
                                None
                            } else {
                                Some(CalcView { jihai: (h.jihai + (1u8 << (v as u8))) as u8, ..h })
                            },
                        }
                    },
                };
                match s2 {
                    None => None,
                    Some(s3) => match one_meld_more(s3) {
                        None => None,
                        Some(s4) => with_counts(s4, i, 1, 0),
                    },
                }
            },
        }
    }
}

/// The melds of a suit with the first pon meld of this id (of the four youngest) turned into
/// a shouminkan (its id 9 higher); unchanged where there is none.
pub open spec fn shouminkan_melds(m: u32, pon: int, k: int) -> Option<u32>
    decreases 4 - k,
{
    if k >= 4 {
        Some(m)
    } else if ((m >> ((6 * k) as u32)) & 63u32) == pon {
        let add = 9u32 << ((6 * k) as u32);
        if m + add > u32::MAX { None } else { Some((m + add) as u32) }
    } else {
        shouminkan_melds(m, pon, k + 1)
    }
}

/// A pon of this tile's type made a kan: one concealed tile leaves, and the suit's pon meld
/// becomes a kan meld (or the honor classifier takes the shouminkan).
pub open spec fn shouminkan_spec(res: Resources, s: CalcView, t: Tile) -> Option<CalcView> {
    let i = idx(t);
    match with_counts(s, i, 0, -1) {
        None => None,
        Some(s1) => match t.tile_type {
            TileType::Number(v, color) => {
                let c = color_index(color);
                if !(1 <= v <= 9) {
                    None
                } else {
                    match shouminkan_melds(s1.melds[c], v + 7, 0) {
                        None => None,
                        Some(m) => match set_melds(res, s1, c, m) {
                            None => None,
                            Some(s2) => update_value(res, s2, c),
                        },
                    }
                }
            },
            _ => honor_act(res, s1, 14),
        },
    }
}

/// A kan of this tile's type (closed: `dh` 0, `dc` -4; called: `dh` 1, `dc` -3): one meld
/// more, and the suit gets a kan meld (or the honor classifier the kan's action).
pub open spec fn kan_spec(res: Resources, s: CalcView, t: Tile, dh: int, dc: int, action: int) -> Option<CalcView> {
    let i = idx(t);
    match with_counts(s, i, dh, dc) {
        None => None,
        Some(s1) => match one_meld_more(s1) {
            None => None,
            Some(s2) => match t.tile_type {
                TileType::Number(v, color) => if !(1 <= v <= 9) {
                    None
                } else {
                    suit_meld(res, s2, color_index(color), v + 16)
                },
                _ => honor_act(res, s2, action),
            },
        },
    }
}

/// The closed kan of this tile's type.
pub open spec fn ankan_spec(res: Resources, s: CalcView, t: Tile) -> Option<CalcView> {
    kan_spec(res, s, t, 0, -4, 15)
}

/// The called kan (daiminkan) of this tile's type.
pub open spec fn daiminkan_spec(res: Resources, s: CalcView, t: Tile) -> Option<CalcView> {
    kan_spec(res, s, t, 1, -3, 13)
}

/// The same tile read in `n` times.
pub open spec fn add_times(res: Resources, s: CalcView, t: Tile, n: nat) -> Option<CalcView>
    decreases n,
{
    if n == 0 {
        Some(s)
    } else {
        match add_once(res, s, t) {
            None => None,
            Some(s1) => add_times(res, s1, t, (n - 1) as nat),
        }
    }
}

/// The first tile called from another player, if any.
pub open spec fn first_called(t: Seq<Tile>) -> Option<Tile> {
    if t[0].called_from != 0 {
        Some(t[0])
    } else if t[1].called_from != 0 {
        Some(t[1])
    } else if t[2].called_from != 0 {
        Some(t[2])
    } else {
        None
    }
}

/// A call of the hand read in.
pub open spec fn open_in(res: Resources, s: CalcView, o: super::super::shapes::OpenShape) -> Option<CalcView> {
    match o {
        super::super::shapes::OpenShape::Chi(t) => match first_called(t@) {
            None => None,
            Some(called) => match with_counts(s, idx(t[0]), 1, 1) {
                None => None,
                Some(s1) => match with_counts(s1, idx(t[1]), 1, 1) {
                    None => None,
                    Some(s2) => match with_counts(s2, idx(t[2]), 1, 1) {
                        None => None,
                        Some(s3) => match with_counts(s3, idx(called), -1, -1) {
                            None => None,
                            Some(s4) => chii_spec(res, s4, t[0], called),
                        },
                    },
                },
            },
        },
        super::super::shapes::OpenShape::Pon(t) => match add_times(res, s, t[0], 2) {
            None => None,
            Some(s1) => pon_spec(res, s1, t[0]),
        },
        super::super::shapes::OpenShape::Kan(super::super::shapes::OpenKan::Daiminkan(t)) => match add_times(res, s, t[0], 3) {
            None => None,
            Some(s1) => daiminkan_spec(res, s1, t[0]),
        },
        super::super::shapes::OpenShape::Kan(super::super::shapes::OpenKan::Shouminkan(t)) => match add_times(res, s, t[0], 2) {
            None => None,
            Some(s1) => match pon_spec(res, s1, t[0]) {
                None => None,
                Some(s2) => match add_once(res, s2, t[0]) {
                    None => None,
                    Some(s3) => shouminkan_spec(res, s3, t[0]),
                },
            },
        },
    }
}

/// A shape of the hand read in: a closed kan's four tiles and its kan; nothing for others.
pub open spec fn kan_in(res: Resources, s: CalcView, c: super::super::shapes::CompleteShape) -> Option<CalcView> {
    match c {
        super::super::shapes::CompleteShape::Closed(super::super::shapes::ClosedShape::Kantsu(t)) => match add_times(res, s, t[0], 4) {
            None => None,
            Some(s1) => ankan_spec(res, s1, t[0]),
        },
        _ => Some(s),
    }
}

/// A slot of the hand read in: its tile where it is neither open nor a kan tile.
pub open spec fn slot_in(res: Resources, s: CalcView, o: Option<Tile>) -> Option<CalcView> {
    match o {
        Some(t) => if !t.is_open && !t.is_kan { tile_in(res, s, t) } else { Some(s) },
        None => Some(s),
    }
}

/// The slots read in, one after another.
pub open spec fn slots_in(res: Resources, s: CalcView, ts: Seq<Option<Tile>>) -> Option<CalcView>
    decreases ts.len(),
{
    if ts.len() == 0 {
        Some(s)
    } else {
        match slot_in(res, s, ts[0]) {
            None => None,
            Some(s1) => slots_in(res, s1, ts.drop_first()),
        }
    }
}

/// The calls read in, one after another.
pub open spec fn opens_in(res: Resources, s: CalcView, os: Seq<super::super::shapes::OpenShape>) -> Option<CalcView>
    decreases os.len(),
{
    if os.len() == 0 {
        Some(s)
    } else {
        match open_in(res, s, os[0]) {
            None => None,
            Some(s1) => opens_in(res, s1, os.drop_first()),
        }
    }
}

/// The shapes read in for their closed kans, one after another.
pub open spec fn kans_in(res: Resources, s: CalcView, cs: Seq<super::super::shapes::CompleteShape>) -> Option<CalcView>
    decreases cs.len(),
{
    if cs.len() == 0 {
        Some(s)
    } else {
        match kan_in(res, s, cs[0]) {
            None => None,
            Some(s1) => kans_in(res, s1, cs.drop_first()),
        }
    }
}

/// The three suits' values brought up to date.
pub open spec fn update_suits(res: Resources, s: CalcView) -> Option<CalcView> {
    match update_value(res, s, 0) {
        None => None,
        Some(s1) => match update_value(res, s1, 1) {
            None => None,
            Some(s2) => update_value(res, s2, 2),
        },
    }
}

/// What `init` makes of a fresh calculator and a hand: the concealed tiles, then the calls,
/// then the closed kans, then the suits' values; none where a step leaves a table or a count
/// leaves its range.
pub open spec fn init_spec(res: Resources, tiles: Seq<Option<Tile>>, shapes: Seq<super::super::shapes::CompleteShape>) -> Option<CalcView> {
    match slots_in(res, fresh_view(), tiles) {
        None => None,
        Some(a) => match opens_in(res, a, super::super::hand::open_shapes(shapes)) {
            None => None,
            Some(b) => match kans_in(res, b, shapes) {
                None => None,
                Some(c) => update_suits(res, c),
            },
        },
    }
}

/// The tiles of the hand: concealed ones plus three for each meld.
pub open spec fn conc_sum(c: Seq<u8>) -> int
    decreases c.len(),
{
    if c.len() == 0 { 0 } else { conc_sum(c.drop_last()) + c.last() }
}

pub open spec fn size_of(s: CalcView) -> int {
    conc_sum(s.conc) + 3 * s.mc
}

/// The shanten the tables give for these arrangement values: the arrangement classifier's,
/// or with no meld the least of it and the chiitoitsu and kokushi shanten (plus one).
pub open spec fn calc_shanten(res: Resources, s: CalcView, arr: Seq<u32>) -> Option<int> {
    match arrangement_walk(res.transitions(), arr) {
        Some(v) => {
            let sh = (v as i8) as int;
            if s.mc > 0 {
                Some(sh)
            } else {
                let m = if s.chiitoi < sh { s.chiitoi } else { sh };
                Some(if s.kokushi < m { s.kokushi } else { m })
            }
        },
        None => None,
    }
}

/// The hand's shanten as the tables give it.
pub open spec fn table_shanten(res: Resources, s: CalcView) -> Option<int> {
    match calc_shanten(res, s, s.arr) {
        Some(v) => if v <= -128 { None } else { Some(v - 1) },
        None => None,
    }
}

/// A draw: the tile read in, then its suit's value.
pub open spec fn draw_spec(res: Resources, s: CalcView, t: Tile) -> Option<CalcView> {
    let i = idx(t);
    if !(0 <= i < 34) || size_of(s) != 13 || s.held[i] == 4 {
        None
    } else {
        match tile_in(res, s, t) {
            None => None,
            Some(s1) => match t.tile_type {
                TileType::Number(_, c) => update_value(res, s1, color_index(c)),
                _ => Some(s1),
            },
        }
    }
}

/// A discard: counts, the kokushi and chiitoitsu classifiers, and the suit's hash and value
/// or the honor classifier.
pub open spec fn discard_spec(res: Resources, s: CalcView, t: Tile) -> Option<CalcView> {
    let i = idx(t);
    if !(0 <= i < 34) || size_of(s) != 13 || s.held[i] == 4 {
        None
    } else {
        match with_counts(s, i, -1, -1) {
            None => None,
            Some(s1) => {
                let after = s1.conc[i] as int;
                match kokushi_discard(s1, i, after) {
                    None => None,
                    Some(s2) => match chiitoi_discard(s2, after) {
                        None => None,
                        Some(s3) => match t.tile_type {
                            TileType::Number(v, c) => {
                                let nb = s3.b5[color_index(c)] - base5_unit(v as int);
                                if v > 9 || nb < 0 {
                                    None
                                } else {
                                    update_value(res, CalcView { b5: s3.b5.update(color_index(c), nb as u32), ..s3 }, color_index(c))
                                }
                            },
                            TileType::Wind(v) => honor_discard(res, s3, after, v - 1),
                            TileType::Dragon(v) => honor_discard(res, s3, after, v - 1),
                        },
                    },
                }
            },
        }
    }
}

/// 5 to the power of value - 1, as the table of base 5 digits holds it (0 at index 0).
fn base5_unit_exec(v: u8) -> (r: u32)
    requires
        v <= 9,
    ensures
        r as int == base5_unit(v as int),
{
    if v == 1 { 1 } else if v == 2 { 5 } else if v == 3 { 25 } else if v == 4 { 125 } else if v == 5 { 625 }
    else if v == 6 { 3125 } else if v == 7 { 15625 } else if v == 8 { 78125 } else if v == 9 { 390625 } else { 0 }
}

fn color_number(c: &TileColor) -> (r: usize)
    ensures
        r == color_index(*c),
        r < 3,
{
    match c {
        TileColor::Manzu => 0,
        TileColor::Pinzu => 1,
        TileColor::Souzu => 2,
    }
}

/// Calculates shanten and uke-ire of a hand progressively, through lookup tables.
pub struct HandCalculator {
    arrangement_values: [u32; 4],
    /// base 5 representation of concealed suits. Not relevant with a meld.
    base5hashes: [u32; 3],
    concealed_tiles: [u8; 34],
    /// tiles in hand by tile type, including melds, kan is 4 tiles here
    in_hand_by_type: [u8; 34],
    /// non-honors, identified by meldId, youngest meld in least significant bits
    melds: [u32; 3],
    /// bit=1 for honor pon, least significant bit represents east wind. bit=0 for both kan and no meld.
    jihai_meld_bit: u8,
    suit_manzu: SuitClassifier,
    suit_pinzu: SuitClassifier,
    suit_souzu: SuitClassifier,
    chiitoi: ChiitoiClassifier,
    kokushi: KokushiClassifier,
    honor_classifier: ProgressiveHonorClassifier,
    meld_count: u8,
}

impl HandCalculator {
    /// The calculator's state.
    pub closed spec fn state(&self) -> CalcView {
        CalcView {
            arr: self.arrangement_values@,
            b5: self.base5hashes@,
            conc: self.concealed_tiles@,
            held: self.in_hand_by_type@,
            melds: self.melds@,
            jihai: self.jihai_meld_bit,
            smc: seq![self.suit_manzu.meld_count_view(), self.suit_pinzu.meld_count_view(), self.suit_souzu.meld_count_view()],
            sent: seq![self.suit_manzu.entry_view(), self.suit_pinzu.entry_view(), self.suit_souzu.entry_view()],
            chiitoi: self.chiitoi.shanten_view(),
            kokushi: self.kokushi.shanten_view(),
            pairs: self.kokushi.pairs_view(),
            honor: self.honor_classifier.state(),
            mc: self.meld_count,
        }
    }

    /// Tiles of the type with this index (id - 1) in hand, melds included.
    pub open spec fn held(&self, i: int) -> int {
        self.state().held[i] as int
    }

    /// Concealed tiles of the type with this index (id - 1).
    pub open spec fn concealed(&self, i: int) -> int {
        self.state().conc[i] as int
    }

    /// Calls and kans made.
    pub open spec fn meld_count(&self) -> int {
        self.state().mc as int
    }

    /// The hand's size: concealed tiles plus three for each meld.
    pub open spec fn size(&self) -> int {
        size_of(self.state())
    }

    /// A calculator that has seen no tile.
    pub open spec fn fresh(&self) -> bool {
        self.state() == fresh_view()
    }

    pub fn new() -> (hc: HandCalculator)
        ensures
            hc.fresh(),
    {
        let hc = HandCalculator {
            arrangement_values: [0; 4],
            base5hashes: [0; 3],
            concealed_tiles: [0; 34],
            in_hand_by_type: [0; 34],
            melds: [0; 3],
            jihai_meld_bit: 0,
            suit_manzu: SuitClassifier::new(),
            suit_pinzu: SuitClassifier::new(),
            suit_souzu: SuitClassifier::new(),
            chiitoi: ChiitoiClassifier::new(None),
            kokushi: KokushiClassifier::new(None, None),
            honor_classifier: ProgressiveHonorClassifier::new(),
            meld_count: 0,
        };
        assert(hc.state().arr =~= fresh_view().arr);
        assert(hc.state().b5 =~= fresh_view().b5);
        assert(hc.state().conc =~= fresh_view().conc);
        assert(hc.state().held =~= fresh_view().held);
        assert(hc.state().melds =~= fresh_view().melds);
        assert(hc.state().smc =~= fresh_view().smc);
        assert(hc.state().sent =~= fresh_view().sent);
        hc
    }

    /// Changes the counts of a type.
    fn counts(&mut self, i: usize, dh: i8, dc: i8)
        requires
            with_counts(old(self).state(), i as int, dh as int, dc as int) is Some,
        ensures
            final(self).state() == with_counts(old(self).state(), i as int, dh as int, dc as int)->0,
    {
        let ghost s = self.state();
        self.in_hand_by_type[i] = (self.in_hand_by_type[i] as i16 + dh as i16) as u8;
        self.concealed_tiles[i] = (self.concealed_tiles[i] as i16 + dc as i16) as u8;
        assert(self.state().held =~= s.held.update(i as int, (s.held[i as int] + dh) as u8));
        assert(self.state().conc =~= s.conc.update(i as int, (s.conc[i as int] + dc) as u8));
        assert(self.state().smc =~= s.smc);
        assert(self.state().sent =~= s.sent);
    }

    /// Brings suit `c`'s arrangement value up to date.
    fn update_value(&mut self, c: usize, res: &Resources)
        requires
            c < 3,
            update_value(*res, old(self).state(), c as int) is Some,
        ensures
            final(self).state() == update_value(*res, old(self).state(), c as int)->0,
    {
        let ghost s = self.state();
        let v = self.suit_value(c, res);
        self.arrangement_values[c] = v;
        assert(self.state().arr =~= s.arr.update(c as int, v));
        assert(self.state().smc =~= s.smc);
        assert(self.state().sent =~= s.sent);
    }

    /// Suit `c`'s arrangement value for the current counts.
    fn suit_value(&self, c: usize, res: &Resources) -> (v: u32)
        requires
            c < 3,
            suit_value(*res, self.state(), c as int) is Some,
        ensures
            v as int == suit_value(*res, self.state(), c as int)->0,
    {
        let ghost s = self.state();
        if c == 0 {
            assert(s.smc[0] == self.suit_manzu.meld_count_view() && s.sent[0] == self.suit_manzu.entry_view());
            let r = self.suit_manzu.get_value(&self.concealed_tiles, 0, &self.base5hashes, res);
            assert(suit_value(*res, s, 0) == Some(r as int));
            r
        } else if c == 1 {
            assert(s.smc[1] == self.suit_pinzu.meld_count_view() && s.sent[1] == self.suit_pinzu.entry_view());
            let r = self.suit_pinzu.get_value(&self.concealed_tiles, 1, &self.base5hashes, res);
            assert(suit_value(*res, s, 1) == Some(r as int));
            r
        } else {
            assert(s.smc[2] == self.suit_souzu.meld_count_view() && s.sent[2] == self.suit_souzu.entry_view());
            let r = self.suit_souzu.get_value(&self.concealed_tiles, 2, &self.base5hashes, res);
            assert(suit_value(*res, s, 2) == Some(r as int));
            r
        }
    }

    /// Sets suit `c`'s melds and has its classifier read them.
    fn set_suit_melds(&mut self, c: usize, m: u32, res: &Resources)
        requires
            c < 3,
            set_melds(*res, old(self).state(), c as int, m) is Some,
        ensures
            final(self).state() == set_melds(*res, old(self).state(), c as int, m)->0,
    {
        let ghost s = self.state();
        self.melds[c] = m;
        if c == 0 {
            self.suit_manzu.set_melds(m, res);
        } else if c == 1 {
            self.suit_pinzu.set_melds(m, res);
        } else {
            self.suit_souzu.set_melds(m, res);
        }
        let ghost w = meld_walk(res.first_phase(), m as int, 0, 0)->0;
        assert(self.state().melds =~= s.melds.update(c as int, m));
        assert(self.state().smc =~= s.smc.update(c as int, w.1));
        assert(self.state().sent =~= s.sent.update(c as int, res.first_phase()[w.0] as int));
    }

    /// Adds a meld of this id to suit `c`, then brings the suit's value up to date.
    fn suit_meld(&mut self, c: usize, id: u32, res: &Resources)
        requires
            c < 3,
            id < 64,
            suit_meld(*res, old(self).state(), c as int, id as int) is Some,
        ensures
            final(self).state() == suit_meld(*res, old(self).state(), c as int, id as int)->0,
    {
        let m = (self.melds[c] << 6u32) + id;
        self.set_suit_melds(c, m, res);
        self.update_value(c, res);
    }

    /// One more call or kan.
    fn one_meld_more(&mut self)
        requires
            one_meld_more(old(self).state()) is Some,
        ensures
            final(self).state() == one_meld_more(old(self).state())->0,
    {
        self.meld_count = self.meld_count + 1;
    }

    /// Tells the honor classifier of a draw of an honor (`prev` held before, its pon bit at
    /// `shift`).
    fn honor_draw(&mut self, prev: u8, shift: u8, res: &Resources)
        requires
            honor_draw(*res, old(self).state(), prev as int, shift as int) is Some,
        ensures
            final(self).state() == honor_draw(*res, old(self).state(), prev as int, shift as int)->0,
    {
        let ghost s = self.state();
        let bit = (self.jihai_meld_bit >> shift) & 1u8;
        let v = self.honor_classifier.draw(prev, bit, res);
        self.arrangement_values[3] = v;
        assert(self.state().arr =~= s.arr.update(3, v));
        assert(self.state().smc =~= s.smc);
        assert(self.state().sent =~= s.sent);
    }

    /// Tells the honor classifier of a discard of an honor (`after` left, its pon bit at
    /// `shift`).
    fn honor_discard(&mut self, after: u8, shift: u8, res: &Resources)
        requires
            honor_discard(*res, old(self).state(), after as int, shift as int) is Some,
        ensures
            final(self).state() == honor_discard(*res, old(self).state(), after as int, shift as int)->0,
    {
        let ghost s = self.state();
        let bit = (self.jihai_meld_bit >> shift) & 1u8;
        let v = self.honor_classifier.discard(after, bit, res);
        self.arrangement_values[3] = v;
        assert(self.state().arr =~= s.arr.update(3, v));
        assert(self.state().smc =~= s.smc);
        assert(self.state().sent =~= s.sent);
    }

    /// Tells the kokushi and chiitoitsu classifiers of a draw of type `i`, `prev` held before.
    fn classifiers_draw(&mut self, i: usize, prev: u8)
        requires
            kokushi_draw(old(self).state(), i as int, prev as int) matches Some(s1) && chiitoi_draw(s1, prev as int) is Some,
        ensures
            final(self).state() == chiitoi_draw(kokushi_draw(old(self).state(), i as int, prev as int)->0, prev as int)->0,
    {
        let ghost s = self.state();
        self.kokushi.draw(i as u32, prev as u32);
        self.chiitoi.draw(prev);
        assert(self.state().smc =~= s.smc);
        assert(self.state().sent =~= s.sent);
    }

    /// Tells the kokushi and chiitoitsu classifiers of a discard of type `i`, `after` left.
    fn classifiers_discard(&mut self, i: usize, after: u8)
        requires
            kokushi_discard(old(self).state(), i as int, after as int) matches Some(s1) && chiitoi_discard(s1, after as int) is Some,
        ensures
            final(self).state() == chiitoi_discard(kokushi_discard(old(self).state(), i as int, after as int)->0, after as int)->0,
    {
        let ghost s = self.state();
        self.kokushi.discard(i as u32, after as u32);
        self.chiitoi.discard(after);
        assert(self.state().smc =~= s.smc);
        assert(self.state().sent =~= s.sent);
    }

    /// Reads in a concealed tile of the hand.
    fn tile_in(&mut self, tile: &Tile, res: &Resources)
        requires
            tile_in(*res, old(self).state(), *tile) is Some,
        ensures
            final(self).state() == tile_in(*res, old(self).state(), *tile)->0,
    {
        let i = tile.to_id_minus_1() as usize;
        let prev = self.concealed_tiles[i];
        self.counts(i, 1, 1);
        self.classifiers_draw(i, prev);
        match &tile.tile_type {
            TileType::Number(value, color) => {
                let ghost s = self.state();
                let c = color_number(color);
                self.base5hashes[c] = self.base5hashes[c] + base5_unit_exec(*value);
                assert(self.state().b5 =~= s.b5.update(c as int, self.base5hashes[c as int]));
                assert(self.state().smc =~= s.smc);
                assert(self.state().sent =~= s.sent);
            },
            TileType::Wind(value) => self.honor_draw(prev, *value - 1, res),
            TileType::Dragon(value) => self.honor_draw(prev, *value - 1, res),
        }
    }

    /// Reads in a tile of a call.
    fn add_once(&mut self, tile: &Tile, res: &Resources)
        requires
            add_once(*res, old(self).state(), *tile) is Some,
        ensures
            final(self).state() == add_once(*res, old(self).state(), *tile)->0,
    {
        let i = tile.to_id_minus_1() as usize;
        let prev = self.concealed_tiles[i];
        self.counts(i, 1, 1);
        match &tile.tile_type {
            TileType::Number(_, _) => {},
            TileType::Wind(value) => self.honor_draw(prev, *value - 1, res),
            TileType::Dragon(value) => self.honor_draw(prev, *value - 1, res),
        }
    }

    /// A chi from `lowest_tile` (a number tile), `called_tile` the tile called (see
    /// `chii_spec`).
    pub fn chii(&mut self, lowest_tile: &Tile, called_tile: &Tile, res: &Resources)
        requires
            chii_spec(*res, old(self).state(), *lowest_tile, *called_tile) is Some,
        ensures
            final(self).state() == chii_spec(*res, old(self).state(), *lowest_tile, *called_tile)->0,
    {
        let li = lowest_tile.to_id_minus_1() as usize;
        let ci = called_tile.to_id_minus_1() as usize;
        if li != ci {
            self.counts(li, 0, -1);
        } else {
            self.counts(li, 0, 0);
        }
        if li + 1 != ci {
            self.counts(li + 1, 0, -1);
        } else {
            self.counts(li + 1, 0, 0);
        }
        if li + 2 != ci {
            self.counts(li + 2, 0, -1);
        } else {
            self.counts(li + 2, 0, 0);
        }
        match &lowest_tile.tile_type {
            TileType::Number(value, color) => {
                let c = color_number(color);
                self.suit_meld(c, 1 + (*value - 1) as u32, res);
            },
            _ => {},
        }
        self.one_meld_more();
        self.counts(ci, 1, 0);
    }

    /// A pon of this tile's type (see `pon_spec`).
    pub fn pon(&mut self, tile: &Tile, res: &Resources)
        requires
            pon_spec(*res, old(self).state(), *tile) is Some,
        ensures
            final(self).state() == pon_spec(*res, old(self).state(), *tile)->0,
    {
        let i = tile.to_id_minus_1() as usize;
        let prev_tiles = self.concealed_tiles[i];
        self.counts(i, 0, -2);
        match &tile.tile_type {
            TileType::Number(value, color) => {
                let c = color_number(color);
                self.suit_meld(c, 1 + 7 + (*value - 1) as u32, res);
            },
            _ => {
                let ghost s = self.state();
                let v = self.honor_classifier.pon(prev_tiles, res);
                self.arrangement_values[3] = v;
                self.jihai_meld_bit = self.jihai_meld_bit + (1u8 << tile.get_value());
                assert(self.state().arr =~= s.arr.update(3, v));
                assert(self.state().smc =~= s.smc);
                assert(self.state().sent =~= s.sent);
            },
        }
        self.one_meld_more();
        self.counts(i, 1, 0);
    }

    /// A pon of this tile's type made a kan (see `shouminkan_spec`).
    pub fn shouminkan(&mut self, tile: &Tile, res: &Resources)
        requires
            shouminkan_spec(*res, old(self).state(), *tile) is Some,
        ensures
            final(self).state() == shouminkan_spec(*res, old(self).state(), *tile)->0,
    {
        let i = tile.to_id_minus_1() as usize;
        self.counts(i, 0, -1);
        match &tile.tile_type {
            TileType::Number(value, color) => {
                let c = color_number(color);
                let pon: u32 = 1 + 7 + (*value - 1) as u32;
                let mut m = self.melds[c];
                let mut k: u32 = 0;
                while k < 4
                    invariant_except_break
                        k <= 4,
                        c < 3,
                        shouminkan_melds(m, pon as int, k as int) == shouminkan_melds(self.melds@[c as int], pon as int, 0),
                        shouminkan_melds(m, pon as int, k as int) is Some,
                    ensures
                        shouminkan_melds(self.melds@[c as int], pon as int, 0) == Some(m),
                    decreases 4 - k,
                {
                    if (m >> (6 * k)) & 0b111111u32 == pon {
                        m = m + (9u32 << (6 * k));
                        break;
                    }
                    k = k + 1;
                }
                self.set_suit_melds(c, m, res);
                self.update_value(c, res);
            },
            _ => {
                let ghost s = self.state();
                let v = self.honor_classifier.shouminkan(res);
                self.arrangement_values[3] = v;
                assert(self.state().arr =~= s.arr.update(3, v));
                assert(self.state().smc =~= s.smc);
                assert(self.state().sent =~= s.sent);
            },
        }
    }

    /// A kan of this tile's type (see `kan_spec`).
    fn kan(&mut self, tile: &Tile, dh: i8, dc: i8, action: u8, res: &Resources)
        requires
            action == 13 || action == 15,
            kan_spec(*res, old(self).state(), *tile, dh as int, dc as int, action as int) is Some,
        ensures
            final(self).state() == kan_spec(*res, old(self).state(), *tile, dh as int, dc as int, action as int)->0,
    {
        let i = tile.to_id_minus_1() as usize;
        self.counts(i, dh, dc);
        self.one_meld_more();
        match &tile.tile_type {
            TileType::Number(value, color) => {
                let c = color_number(color);
                self.suit_meld(c, 1 + 7 + 9 + (*value - 1) as u32, res);
            },
            _ => {
                let ghost s = self.state();
                let v = if action == 13 { self.honor_classifier.daiminkan(res) } else { self.honor_classifier.ankan(res) };
                self.arrangement_values[3] = v;
                assert(self.state().arr =~= s.arr.update(3, v));
                assert(self.state().smc =~= s.smc);
                assert(self.state().sent =~= s.sent);
            },
        }
    }

    /// A closed kan of this tile's type (see `ankan_spec`).
    pub fn ankan(&mut self, tile: &Tile, res: &Resources)
        requires
            ankan_spec(*res, old(self).state(), *tile) is Some,
        ensures
            final(self).state() == ankan_spec(*res, old(self).state(), *tile)->0,
    {
        self.kan(tile, 0, -4, 15, res);
    }

    /// A called kan of this tile's type (see `daiminkan_spec`).
    pub fn daiminkan(&mut self, tile: &Tile, res: &Resources)
        requires
            daiminkan_spec(*res, old(self).state(), *tile) is Some,
        ensures
            final(self).state() == daiminkan_spec(*res, old(self).state(), *tile)->0,
    {
        self.kan(tile, 1, -3, 13, res);
    }

    /// A draw of this tile (see `draw_spec`); the hand must hold 13 tiles and fewer than 4 of
    /// the tile's type.
    pub fn draw(&mut self, tile: &Tile, res: &Resources)
        requires
            draw_spec(*res, old(self).state(), *tile) is Some,
        ensures
            final(self).state() == draw_spec(*res, old(self).state(), *tile)->0,
    {
        self.tile_in(tile, res);
        match &tile.tile_type {
            TileType::Number(_, color) => self.update_value(color_number(color), res),
            _ => {},
        }
    }

    /// A discard of this tile (see `discard_spec`); as the draw, it asks for a hand of 13
    /// tiles and fewer than 4 of the tile's type.
    pub fn discard(&mut self, tile: &Tile, res: &Resources)
        requires
            discard_spec(*res, old(self).state(), *tile) is Some,
        ensures
            final(self).state() == discard_spec(*res, old(self).state(), *tile)->0,
    {
        let i = tile.to_id_minus_1() as usize;
        self.counts(i, -1, -1);
        let after = self.concealed_tiles[i];
        self.classifiers_discard(i, after);
        match &tile.tile_type {
            TileType::Number(value, color) => {
                let ghost s = self.state();
                let c = color_number(color);
                self.base5hashes[c] = self.base5hashes[c] - base5_unit_exec(*value);
                assert(self.state().b5 =~= s.b5.update(c as int, self.base5hashes[c as int]));
                assert(self.state().smc =~= s.smc);
                assert(self.state().sent =~= s.sent);
                self.update_value(c, res);
            },
            TileType::Wind(value) => self.honor_discard(after, *value - 1, res),
            TileType::Dragon(value) => self.honor_discard(after, *value - 1, res),
        }
    }

    /// The hand's size: concealed tiles plus three for each meld.
    fn tiles_in_hand(&self) -> (n: u32)
        ensures
            n == self.size(),
    {
        let mut sum: u32 = 0;
        let mut i: usize = 0;
        while i < 34
            invariant
                i <= 34,
                sum == conc_sum(self.concealed_tiles@.take(i as int)),
                sum <= 255 * i,
            decreases 34 - i,
        {
            assert(self.concealed_tiles@.take(i + 1).drop_last() =~= self.concealed_tiles@.take(i as int));
            sum = sum + self.concealed_tiles[i] as u32;
            i = i + 1;
        }
        assert(self.concealed_tiles@.take(34) =~= self.concealed_tiles@);
        sum + 3 * self.meld_count as u32
    }

    /// The shanten the tables give for these arrangement values (see `calc_shanten`).
    fn calculate_shanten(&self, arrangement_values: &[u32; 4], res: &Resources) -> (r: i8)
        requires
            calc_shanten(*res, self.state(), arrangement_values@) is Some,
        ensures
            r as int == calc_shanten(*res, self.state(), arrangement_values@)->0,
    {
        let shanten = ArrangementClassifier::new().classify(arrangement_values, res);
        let sh = shanten as i8;
        if self.meld_count > 0 {
            return sh;
        }
        let c = self.chiitoi.get_shanten();
        let k = self.kokushi.get_shanten();
        let m = if c < sh { c } else { sh };
        if k < m { k } else { m }
    }

    /// The hand's shanten as the tables give it (see `table_shanten`).
    pub fn shanten(&self, res: &Resources) -> (r: i8)
        requires
            table_shanten(*res, self.state()) is Some,
        ensures
            r as int == table_shanten(*res, self.state())->0,
    {
        self.calculate_shanten(&self.arrangement_values, res) - 1
    }

    /// Reads in a call of the hand.
    fn open_in(&mut self, shape: &OpenShape, res: &Resources)
        requires
            open_in(*res, old(self).state(), *shape) is Some,
        ensures
            final(self).state() == open_in(*res, old(self).state(), *shape)->0,
    {
        reveal_with_fuel(add_times, 5);
        match shape {
            OpenShape::Chi(tiles) => {
                let called = if tiles[0].called_from != 0 {
                    tiles[0]
                } else if tiles[1].called_from != 0 {
                    tiles[1]
                } else {
                    tiles[2]
                };
                self.counts(tiles[0].to_id_minus_1() as usize, 1, 1);
                self.counts(tiles[1].to_id_minus_1() as usize, 1, 1);
                self.counts(tiles[2].to_id_minus_1() as usize, 1, 1);
                self.counts(called.to_id_minus_1() as usize, -1, -1);
                self.chii(&tiles[0], &called, res);
            },
            OpenShape::Pon(tiles) => {
                self.add_once(&tiles[0], res);
                self.add_once(&tiles[0], res);
                self.pon(&tiles[0], res);
            },
            OpenShape::Kan(OpenKan::Daiminkan(tiles)) => {
                self.add_once(&tiles[0], res);
                self.add_once(&tiles[0], res);
                self.add_once(&tiles[0], res);
                self.daiminkan(&tiles[0], res);
            },
            OpenShape::Kan(OpenKan::Shouminkan(tiles)) => {
                // first we pon, then shouminkan
                self.add_once(&tiles[0], res);
                self.add_once(&tiles[0], res);
                self.pon(&tiles[0], res);
                self.add_once(&tiles[0], res);
                self.shouminkan(&tiles[0], res);
            },
        }
    }

    /// Reads in a shape of the hand for its closed kan.
    fn kan_in(&mut self, shape: &CompleteShape, res: &Resources)
        requires
            kan_in(*res, old(self).state(), *shape) is Some,
        ensures
            final(self).state() == kan_in(*res, old(self).state(), *shape)->0,
    {
        reveal_with_fuel(add_times, 5);
        match shape {
            CompleteShape::Closed(ClosedShape::Kantsu(tiles)) => {
                self.add_once(&tiles[0], res);
                self.add_once(&tiles[0], res);
                self.add_once(&tiles[0], res);
                self.add_once(&tiles[0], res);
                self.ankan(&tiles[0], res);
            },
            _ => {},
        }
    }

    /// Reads in slots of a hand, one after another.
    fn slots_in(&mut self, tiles: &Vec<Option<Tile>>, res: &Resources)
        requires
            slots_in(*res, old(self).state(), tiles@) is Some,
        ensures
            final(self).state() == slots_in(*res, old(self).state(), tiles@)->0,
    {
        let ghost a = slots_in(*res, self.state(), tiles@);
        let mut j: usize = 0;
        assert(tiles@.skip(0) =~= tiles@);
        while j < tiles.len()
            invariant
                j <= tiles@.len(),
                a is Some,
                slots_in(*res, self.state(), tiles@.skip(j as int)) == a,
            decreases tiles.len() - j,
        {
            let ghost rest = tiles@.skip(j as int);
            assert(rest.drop_first() =~= tiles@.skip(j + 1));
            assert(rest[0] == tiles@[j as int]);
            match &tiles[j] {
                Some(t) => {
                    if !t.is_open && !t.is_kan {
                        self.tile_in(t, res);
                    }
                },
                None => {},
            }
            j = j + 1;
        }
        assert(tiles@.skip(j as int) =~= Seq::<Option<Tile>>::empty());
    }

    /// Reads in calls of a hand, one after another.
    fn opens_in(&mut self, opens: &Vec<OpenShape>, res: &Resources)
        requires
            opens_in(*res, old(self).state(), opens@) is Some,
        ensures
            final(self).state() == opens_in(*res, old(self).state(), opens@)->0,
    {
        let ghost b = opens_in(*res, self.state(), opens@);
        let mut j: usize = 0;
        assert(opens@.skip(0) =~= opens@);
        while j < opens.len()
            invariant
                j <= opens@.len(),
                b is Some,
                opens_in(*res, self.state(), opens@.skip(j as int)) == b,
            decreases opens.len() - j,
        {
            let ghost rest = opens@.skip(j as int);
            assert(rest.drop_first() =~= opens@.skip(j + 1));
            assert(rest[0] == opens@[j as int]);
            self.open_in(&opens[j], res);
            j = j + 1;
        }
        assert(opens@.skip(j as int) =~= Seq::<OpenShape>::empty());
    }

    /// Reads in shapes of a hand for their closed kans, one after another.
    fn kans_in(&mut self, shapes: &Vec<CompleteShape>, res: &Resources)
        requires
            kans_in(*res, old(self).state(), shapes@) is Some,
        ensures
            final(self).state() == kans_in(*res, old(self).state(), shapes@)->0,
    {
        let ghost c = kans_in(*res, self.state(), shapes@);
        let mut j: usize = 0;
        assert(shapes@.skip(0) =~= shapes@);
        while j < shapes.len()
            invariant
                j <= shapes@.len(),
                c is Some,
                kans_in(*res, self.state(), shapes@.skip(j as int)) == c,
            decreases shapes.len() - j,
        {
            let ghost rest = shapes@.skip(j as int);
            assert(rest.drop_first() =~= shapes@.skip(j + 1));
            assert(rest[0] == shapes@[j as int]);
            self.kan_in(&shapes[j], res);
            j = j + 1;
        }
        assert(shapes@.skip(j as int) =~= Seq::<CompleteShape>::empty());
    }

    /// Reads in a hand (see `init_spec`): its concealed tiles, its calls, its closed kans,
    /// then the values of the three suits.
    pub fn init(&mut self, hand: &Hand, res: &Resources)
        requires
            old(self).fresh(),
            init_spec(*res, hand.tiles@, hand.shapes@) is Some,
        ensures
            final(self).state() == init_spec(*res, hand.tiles@, hand.shapes@)->0,
            forall|k: int| 0 <= k < 34 ==> #[trigger] final(self).held(k) == id_count(hand.tiles@, k + 1, true)
                + calls_held(open_shapes(hand.shapes@), k) + kans_held(hand.shapes@, k),
            (forall|j: int| 0 <= j < open_shapes(hand.shapes@).len() ==> chi_is_run(#[trigger] open_shapes(hand.shapes@)[j]))
                ==> forall|k: int| 0 <= k < 34 ==> #[trigger] final(self).concealed(k) == id_count(hand.tiles@, k + 1, true),
            final(self).meld_count() == open_shapes(hand.shapes@).len() + closed_kans(hand.shapes@),
    {
        proof {
            lemma_init_counts(*res, hand.tiles@, hand.shapes@);
        }
        self.slots_in(hand.get_tiles(), res);
        let opens = hand.get_open_shapes();
        self.opens_in(&opens, res);
        self.kans_in(hand.get_shapes(), res);
        self.update_value(0, res);
        self.update_value(1, res);
        self.update_value(2, res);
    }
}

/// The counts of a state have a place for each of the 34 types.
pub open spec fn lens_ok(s: CalcView) -> bool {
    s.conc.len() == 34 && s.held.len() == 34
}

/// 1 where the tile's type has this index, else 0.
pub open spec fn at(t: Tile, k: int) -> int {
    if idx(t) == k { 1 } else { 0 }
}

/// The tiles of type `k` that a call puts in hand.
pub open spec fn call_held(o: OpenShape, k: int) -> int {
    match o {
        OpenShape::Chi(t) => at(t[0], k) + at(t[1], k) + at(t[2], k),
        OpenShape::Pon(t) => 3 * at(t[0], k),
        OpenShape::Kan(OpenKan::Daiminkan(t)) => 4 * at(t[0], k),
        OpenShape::Kan(OpenKan::Shouminkan(t)) => 4 * at(t[0], k),
    }
}

/// The tiles of type `k` that the calls put in hand.
pub open spec fn calls_held(os: Seq<OpenShape>, k: int) -> int
    decreases os.len(),
{
    if os.len() == 0 { 0 } else { call_held(os[0], k) + calls_held(os.drop_first(), k) }
}

/// A chi whose tiles are a run, its called tile among them.
pub open spec fn chi_is_run(o: OpenShape) -> bool {
    match o {
        OpenShape::Chi(t) => idx(t[1]) == idx(t[0]) + 1 && idx(t[2]) == idx(t[0]) + 2,
        _ => true,
    }
}

/// The closed kans among some shapes.
pub open spec fn closed_kans(cs: Seq<CompleteShape>) -> int
    decreases cs.len(),
{
    if cs.len() == 0 {
        0
    } else {
        (if cs[0] matches CompleteShape::Closed(ClosedShape::Kantsu(_)) { 1int } else { 0 }) + closed_kans(cs.drop_first())
    }
}

/// The tiles of type `k` that the closed kans put in hand.
pub open spec fn kans_held(cs: Seq<CompleteShape>, k: int) -> int
    decreases cs.len(),
{
    if cs.len() == 0 {
        0
    } else {
        (match cs[0] {
            CompleteShape::Closed(ClosedShape::Kantsu(t)) => 4 * at(t[0], k),
            _ => 0,
        }) + kans_held(cs.drop_first(), k)
    }
}

/// A state's counts moved by `dh` and `dc` at type `i` (as `with_counts` does), and nothing
/// else of them.
pub open spec fn counts_moved(s: CalcView, a: CalcView, i: int, dh: int, dc: int) -> bool {
    &&& lens_ok(a)
    &&& a.mc == s.mc
    &&& forall|k: int| 0 <= k < 34 ==> #[trigger] a.held[k] == s.held[k] + if k == i { dh } else { 0 }
    &&& forall|k: int| 0 <= k < 34 ==> #[trigger] a.conc[k] == s.conc[k] + if k == i { dc } else { 0 }
}

/// Counts kept as they are.
pub open spec fn same_counts(s: CalcView, a: CalcView) -> bool {
    &&& lens_ok(a)
    &&& a.mc == s.mc
    &&& a.held == s.held
    &&& a.conc == s.conc
}

proof fn lemma_id_count_front(s: Seq<Option<Tile>>, id: int, r: bool)
    requires
        s.len() > 0,
    ensures
        id_count(s, id, r) == super::super::tiles_seq::slot_in(s[0], id, r) + id_count(s.drop_first(), id, r),
    decreases s.len(),
{
    if s.len() > 1 {
        lemma_id_count_front(s.drop_last(), id, r);
        assert(s.drop_last().drop_first() =~= s.drop_first().drop_last());
        assert(s.drop_first().last() == s.last());
        assert(s.drop_last()[0] == s[0]);
    } else {
        assert(s.drop_last().len() == 0);
        assert(s.drop_first().len() == 0);
        assert(id_count(s.drop_last(), id, r) == 0);
        assert(id_count(s.drop_first(), id, r) == 0);
        assert(s.last() == s[0]);
    }
}

proof fn lemma_with_counts(s: CalcView, i: int, dh: int, dc: int)
    requires
        lens_ok(s),
        with_counts(s, i, dh, dc) is Some,
    ensures
        counts_moved(s, with_counts(s, i, dh, dc)->0, i, dh, dc),
{
}

proof fn lemma_honor_draw(res: Resources, s: CalcView, prev: int, shift: int)
    requires
        lens_ok(s),
        honor_draw(res, s, prev, shift) is Some,
    ensures
        same_counts(s, honor_draw(res, s, prev, shift)->0),
{
}

proof fn lemma_suit_meld(res: Resources, s: CalcView, c: int, id: int)
    requires
        lens_ok(s),
        suit_meld(res, s, c, id) is Some,
    ensures
        same_counts(s, suit_meld(res, s, c, id)->0),
{
}

proof fn lemma_update_suits(res: Resources, s: CalcView)
    requires
        lens_ok(s),
        update_suits(res, s) is Some,
    ensures
        same_counts(s, update_suits(res, s)->0),
{
}

proof fn lemma_tile_in(res: Resources, s: CalcView, t: Tile)
    requires
        lens_ok(s),
        tile_in(res, s, t) is Some,
    ensures
        counts_moved(s, tile_in(res, s, t)->0, idx(t), 1, 1),
{
    let i = idx(t);
    let prev = s.conc[i] as int;
    let s1 = with_counts(s, i, 1, 1)->0;
    lemma_with_counts(s, i, 1, 1);
    let s3 = chiitoi_draw(kokushi_draw(s1, i, prev)->0, prev)->0;
    match t.tile_type {
        TileType::Wind(v) => lemma_honor_draw(res, s3, prev, v - 1),
        TileType::Dragon(v) => lemma_honor_draw(res, s3, prev, v - 1),
        _ => {},
    }
}

proof fn lemma_add_once(res: Resources, s: CalcView, t: Tile)
    requires
        lens_ok(s),
        add_once(res, s, t) is Some,
    ensures
        counts_moved(s, add_once(res, s, t)->0, idx(t), 1, 1),
{
    let i = idx(t);
    let prev = s.conc[i] as int;
    lemma_with_counts(s, i, 1, 1);
    let s1 = with_counts(s, i, 1, 1)->0;
    match t.tile_type {
        TileType::Wind(v) => lemma_honor_draw(res, s1, prev, v - 1),
        TileType::Dragon(v) => lemma_honor_draw(res, s1, prev, v - 1),
        _ => {},
    }
}

proof fn lemma_add_times(res: Resources, s: CalcView, t: Tile, n: nat)
    requires
        lens_ok(s),
        add_times(res, s, t, n) is Some,
    ensures
        counts_moved(s, add_times(res, s, t, n)->0, idx(t), n as int, n as int),
    decreases n,
{
    if n > 0 {
        lemma_add_once(res, s, t);
        lemma_add_times(res, add_once(res, s, t)->0, t, (n - 1) as nat);
    }
}

proof fn lemma_chii(res: Resources, s: CalcView, lowest: Tile, called: Tile)
    requires
        lens_ok(s),
        chii_spec(res, s, lowest, called) is Some,
    ensures
        ({
            let a = chii_spec(res, s, lowest, called)->0;
            let li = idx(lowest);
            let ci = idx(called);
            &&& lens_ok(a)
            &&& a.mc == s.mc + 1
            &&& forall|k: int| 0 <= k < 34 ==> #[trigger] a.held[k] == s.held[k] + at(called, k)
            &&& forall|k: int| 0 <= k < 34 ==> #[trigger] a.conc[k] == s.conc[k]
                - (if k == li && li != ci { 1int } else { 0 })
                - (if k == li + 1 && li + 1 != ci { 1int } else { 0 })
                - (if k == li + 2 && li + 2 != ci { 1int } else { 0 })
        }),
{
    let li = idx(lowest);
    let ci = idx(called);
    let d0 = if li != ci { -1int } else { 0 };
    let d1 = if li + 1 != ci { -1int } else { 0 };
    let d2 = if li + 2 != ci { -1int } else { 0 };
    lemma_with_counts(s, li, 0, d0);
    let s1 = with_counts(s, li, 0, d0)->0;
    lemma_with_counts(s1, li + 1, 0, d1);
    let s2 = with_counts(s1, li + 1, 0, d1)->0;
    lemma_with_counts(s2, li + 2, 0, d2);
    let s3 = with_counts(s2, li + 2, 0, d2)->0;
    match lowest.tile_type {
        TileType::Number(v, color) => {
            lemma_suit_meld(res, s3, color_index(color), v as int);
            let s4 = suit_meld(res, s3, color_index(color), v as int)->0;
            let s5 = one_meld_more(s4)->0;
            lemma_with_counts(s5, ci, 1, 0);
        },
        _ => {},
    }
}

proof fn lemma_pon(res: Resources, s: CalcView, t: Tile)
    requires
        lens_ok(s),
        pon_spec(res, s, t) is Some,
    ensures
        ({
            let a = pon_spec(res, s, t)->0;
            &&& lens_ok(a)
            &&& a.mc == s.mc + 1
            &&& forall|k: int| 0 <= k < 34 ==> #[trigger] a.held[k] == s.held[k] + at(t, k)
            &&& forall|k: int| 0 <= k < 34 ==> #[trigger] a.conc[k] == s.conc[k] - 2 * at(t, k)
        }),
{
    let i = idx(t);
    lemma_with_counts(s, i, 0, -2);
    let s1 = with_counts(s, i, 0, -2)->0;
    let s2 = match t.tile_type {
        TileType::Number(v, color) => {
            lemma_suit_meld(res, s1, color_index(color), v + 7);
            suit_meld(res, s1, color_index(color), v + 7)
        },
        _ => {
            let v = t.spec_value();
            match honor_act(res, s1, s.conc[i] + 9) {
                None => None,
                Some(h) => if !(0 <= v < 8) || h.jihai + (1u8 << (v as u8)) > 255 {
                    None
                } else {
                    Some(CalcView { jihai: (h.jihai + (1u8 << (v as u8))) as u8, ..h })
                },
            }
        },
    };
    let s3 = s2->0;
    let s4 = one_meld_more(s3)->0;
    lemma_with_counts(s4, i, 1, 0);
}

proof fn lemma_shouminkan(res: Resources, s: CalcView, t: Tile)
    requires
        lens_ok(s),
        shouminkan_spec(res, s, t) is Some,
    ensures
        counts_moved(s, shouminkan_spec(res, s, t)->0, idx(t), 0, -1),
{
    lemma_with_counts(s, idx(t), 0, -1);
}

proof fn lemma_kan(res: Resources, s: CalcView, t: Tile, dh: int, dc: int, action: int)
    requires
        lens_ok(s),
        kan_spec(res, s, t, dh, dc, action) is Some,
    ensures
        ({
            let a = kan_spec(res, s, t, dh, dc, action)->0;
            &&& lens_ok(a)
            &&& a.mc == s.mc + 1
            &&& forall|k: int| 0 <= k < 34 ==> #[trigger] a.held[k] == s.held[k] + dh * at(t, k)
            &&& forall|k: int| 0 <= k < 34 ==> #[trigger] a.conc[k] == s.conc[k] + dc * at(t, k)
        }),
{
    lemma_with_counts(s, idx(t), dh, dc);
    let s1 = with_counts(s, idx(t), dh, dc)->0;
    let s2 = one_meld_more(s1)->0;
    match t.tile_type {
        TileType::Number(v, color) => lemma_suit_meld(res, s2, color_index(color), v + 16),
        _ => {},
    }
}

#[verifier::spinoff_prover]
#[verifier::rlimit(60)]
proof fn lemma_open_in(res: Resources, s: CalcView, o: OpenShape)
    requires
        lens_ok(s),
        open_in(res, s, o) is Some,
    ensures
        ({
            let a = open_in(res, s, o)->0;
            &&& lens_ok(a)
            &&& a.mc == s.mc + 1
            &&& forall|k: int| 0 <= k < 34 ==> #[trigger] a.held[k] == s.held[k] + call_held(o, k)
            &&& chi_is_run(o) ==> forall|k: int| 0 <= k < 34 ==> #[trigger] a.conc[k] == s.conc[k]
        }),
{
    match o {
        OpenShape::Chi(t) => {
            let called = first_called(t@)->0;
            lemma_with_counts(s, idx(t[0]), 1, 1);
            let s1 = with_counts(s, idx(t[0]), 1, 1)->0;
            lemma_with_counts(s1, idx(t[1]), 1, 1);
            let s2 = with_counts(s1, idx(t[1]), 1, 1)->0;
            lemma_with_counts(s2, idx(t[2]), 1, 1);
            let s3 = with_counts(s2, idx(t[2]), 1, 1)->0;
            lemma_with_counts(s3, idx(called), -1, -1);
            let s4 = with_counts(s3, idx(called), -1, -1)->0;
            lemma_chii(res, s4, t[0], called);
        },
        OpenShape::Pon(t) => {
            lemma_add_times(res, s, t[0], 2);
            lemma_pon(res, add_times(res, s, t[0], 2)->0, t[0]);
        },
        OpenShape::Kan(OpenKan::Daiminkan(t)) => {
            lemma_add_times(res, s, t[0], 3);
            lemma_kan(res, add_times(res, s, t[0], 3)->0, t[0], 1, -3, 13);
        },
        OpenShape::Kan(OpenKan::Shouminkan(t)) => {
            lemma_add_times(res, s, t[0], 2);
            let s1 = add_times(res, s, t[0], 2)->0;
            lemma_pon(res, s1, t[0]);
            let s2 = pon_spec(res, s1, t[0])->0;
            lemma_add_once(res, s2, t[0]);
            let s3 = add_once(res, s2, t[0])->0;
            lemma_shouminkan(res, s3, t[0]);
        },
    }
}

proof fn lemma_kan_in(res: Resources, s: CalcView, c: CompleteShape)
    requires
        lens_ok(s),
        kan_in(res, s, c) is Some,
    ensures
        ({
            let a = kan_in(res, s, c)->0;
            let q = if c matches CompleteShape::Closed(ClosedShape::Kantsu(_)) { 1int } else { 0 };
            &&& lens_ok(a)
            &&& a.mc == s.mc + q
            &&& forall|k: int| 0 <= k < 34 ==> #[trigger] a.held[k] == s.held[k] + match c {
                CompleteShape::Closed(ClosedShape::Kantsu(t)) => 4 * at(t[0], k),
                _ => 0,
            }
            &&& forall|k: int| 0 <= k < 34 ==> #[trigger] a.conc[k] == s.conc[k]
        }),
{
    match c {
        CompleteShape::Closed(ClosedShape::Kantsu(t)) => {
            lemma_add_times(res, s, t[0], 4);
            lemma_kan(res, add_times(res, s, t[0], 4)->0, t[0], 0, -4, 15);
        },
        _ => {},
    }
}

proof fn lemma_slots(res: Resources, s: CalcView, ts: Seq<Option<Tile>>)
    requires
        lens_ok(s),
        slots_in(res, s, ts) is Some,
    ensures
        ({
            let a = slots_in(res, s, ts)->0;
            &&& lens_ok(a)
            &&& a.mc == s.mc
            &&& forall|k: int| 0 <= k < 34 ==> #[trigger] a.held[k] == s.held[k] + id_count(ts, k + 1, true)
            &&& forall|k: int| 0 <= k < 34 ==> #[trigger] a.conc[k] == s.conc[k] + id_count(ts, k + 1, true)
        }),
    decreases ts.len(),
{
    if ts.len() > 0 {
        let s1 = slot_in(res, s, ts[0])->0;
        match ts[0] {
            Some(t) => if !t.is_open && !t.is_kan { lemma_tile_in(res, s, t); },
            None => {},
        }
        lemma_slots(res, s1, ts.drop_first());
        assert forall|k: int| 0 <= k < 34 implies #[trigger] id_count(ts, k + 1, true)
            == super::super::tiles_seq::slot_in(ts[0], k + 1, true) + id_count(ts.drop_first(), k + 1, true) by {
            lemma_id_count_front(ts, k + 1, true);
        }
    }
}

proof fn lemma_opens(res: Resources, s: CalcView, os: Seq<OpenShape>)
    requires
        lens_ok(s),
        opens_in(res, s, os) is Some,
    ensures
        ({
            let a = opens_in(res, s, os)->0;
            &&& lens_ok(a)
            &&& a.mc == s.mc + os.len()
            &&& forall|k: int| 0 <= k < 34 ==> #[trigger] a.held[k] == s.held[k] + calls_held(os, k)
            &&& (forall|j: int| 0 <= j < os.len() ==> chi_is_run(#[trigger] os[j]))
                ==> forall|k: int| 0 <= k < 34 ==> #[trigger] a.conc[k] == s.conc[k]
        }),
    decreases os.len(),
{
    if os.len() > 0 {
        lemma_open_in(res, s, os[0]);
        let s1 = open_in(res, s, os[0])->0;
        lemma_opens(res, s1, os.drop_first());
        if forall|j: int| 0 <= j < os.len() ==> chi_is_run(#[trigger] os[j]) {
            assert(chi_is_run(os[0]));
            assert forall|j: int| 0 <= j < os.drop_first().len() implies chi_is_run(#[trigger] os.drop_first()[j]) by {
                assert(os.drop_first()[j] == os[j + 1]);
            }
        }
    }
}

proof fn lemma_kans(res: Resources, s: CalcView, cs: Seq<CompleteShape>)
    requires
        lens_ok(s),
        kans_in(res, s, cs) is Some,
    ensures
        ({
            let a = kans_in(res, s, cs)->0;
            &&& lens_ok(a)
            &&& a.mc == s.mc + closed_kans(cs)
            &&& forall|k: int| 0 <= k < 34 ==> #[trigger] a.held[k] == s.held[k] + kans_held(cs, k)
            &&& forall|k: int| 0 <= k < 34 ==> #[trigger] a.conc[k] == s.conc[k]
        }),
    decreases cs.len(),
{
    if cs.len() > 0 {
        lemma_kan_in(res, s, cs[0]);
        lemma_kans(res, kan_in(res, s, cs[0])->0, cs.drop_first());
    }
}

/// What `init` makes of a hand holds its counts: the tiles in hand by type are the concealed
/// tiles plus those of the calls and closed kans; with every chi a run the concealed counts
/// are the concealed tiles; a meld for each call and closed kan.
pub proof fn lemma_init_counts(res: Resources, tiles: Seq<Option<Tile>>, shapes: Seq<CompleteShape>)
    requires
        init_spec(res, tiles, shapes) is Some,
    ensures
        ({
            let a = init_spec(res, tiles, shapes)->0;
            let os = open_shapes(shapes);
            &&& forall|k: int| 0 <= k < 34 ==> #[trigger] a.held[k] == id_count(tiles, k + 1, true) + calls_held(os, k) + kans_held(shapes, k)
            &&& (forall|j: int| 0 <= j < os.len() ==> chi_is_run(#[trigger] os[j]))
                ==> forall|k: int| 0 <= k < 34 ==> #[trigger] a.conc[k] == id_count(tiles, k + 1, true)
            &&& a.mc == os.len() + closed_kans(shapes)
        }),
{
    let f = fresh_view();
    lemma_slots(res, f, tiles);
    let a = slots_in(res, f, tiles)->0;
    let os = open_shapes(shapes);
    lemma_opens(res, a, os);
    let b = opens_in(res, a, os)->0;
    lemma_kans(res, b, shapes);
    let c = kans_in(res, b, shapes)->0;
    lemma_update_suits(res, c);
}

/// What one tile of the uke-ire search leaves: the state, the arrangement values tried and
/// the result row.
pub type UkeState = (CalcView, Seq<u32>, Seq<i32>);

/// A result row entry: `(5 - held) * delta - 1` (4 - held where the shanten drops by one, -1
/// where it stays), none where it leaves a byte.
pub open spec fn uke_value(held: u8, delta: int) -> Option<i32> {
    let f = (5 - held) * delta;
    if held > 5 || !(-128 <= delta <= 127) || !(-127 <= f <= 127) { None } else { Some((f - 1) as i32) }
}

/// The search at number tile `k` (below 27): where fewer than 4 are held, the tile is drawn
/// into the concealed counts and its suit's hash (the hash grows by the digit of `k % 9`, a
/// value one lower than the tile's), the suit's value and the shanten taken, the row entry
/// written, and the draw undone; after a suit's ninth tile its tried value is set back.
pub open spec fn uke_suit_step(res: Resources, st: UkeState, k: int, cur: int) -> Option<UkeState> {
    let s = st.0;
    let suit = k / 9;
    let value = k % 9;
    let r = if s.held[k] == 4 {
        Some(st)
    } else {
        let c0 = s.conc[k] as int;
        match kokushi_draw(s, k, c0) {
            None => None,
            Some(s1) => match chiitoi_draw(s1, c0) {
                None => None,
                Some(s2) => {
                    let nb = s2.b5[suit] + base5_unit(value);
                    if c0 >= 255 || nb > u32::MAX {
                        None
                    } else {
                        let s3 = CalcView { conc: s2.conc.update(k, (c0 + 1) as u8), b5: s2.b5.update(suit, nb as u32), ..s2 };
                        match suit_value(res, s3, suit) {
                            None => None,
                            Some(v) => {
                                let local = st.1.update(suit, v as u32);
                                match calc_shanten(res, s3, local) {
                                    None => None,
                                    Some(ns) => match uke_value(s3.held[k], cur - ns) {
                                        None => None,
                                        Some(u) => {
                                            let s4 = CalcView { conc: s2.conc, b5: s2.b5, ..s3 };
                                            match kokushi_discard(s4, k, c0) {
                                                None => None,
                                                Some(s5) => match chiitoi_discard(s5, c0) {
                                                    None => None,
                                                    Some(s6) => Some((s6, local, st.2.update(k, u))),
                                                },
                                            }
                                        },
                                    },
                                }
                            },
                        }
                    }
                },
            },
        }
    };
    match r {
        None => None,
        Some(t) => if value == 8 { Some((t.0, t.1.update(suit, t.0.arr[suit]), t.2)) } else { Some(t) },
    }
}

/// The search at honor `k` (27 and up): where fewer than 4 are held, the honor classifier
/// is told of a draw (its pon bit at `k - 27`) and keeps it, its value tried, the shanten
/// taken and the row entry written; the kokushi and chiitoitsu classifiers are told of the
/// draw and of a discard.
pub open spec fn uke_honor_step(res: Resources, st: UkeState, k: int, cur: int) -> Option<UkeState> {
    let s = st.0;
    if s.held[k] == 4 {
        Some(st)
    } else {
        let c0 = s.conc[k] as int;
        let bit = meld_bit(s.jihai, k - 27);
        match kokushi_draw(s, k, c0) {
            None => None,
            Some(s1) => match chiitoi_draw(s1, c0) {
                None => None,
                Some(s2) => if !(0 <= c0 <= 3 && bit <= 1) {
                    None
                } else {
                    match honor_step(res.honor_states(), s2.honor, c0 + 4 * bit + 1) {
                        None => None,
                        Some(h) => {
                            let s3 = CalcView { honor: h.0, ..s2 };
                            let local = st.1.update(3, h.1 as u32);
                            match calc_shanten(res, s3, local) {
                                None => None,
                                Some(ns) => match uke_value(s3.held[k], cur - ns) {
                                    None => None,
                                    Some(u) => match kokushi_discard(s3, k, c0) {
                                        None => None,
                                        Some(s5) => match chiitoi_discard(s5, c0) {
                                            None => None,
                                            Some(s6) => Some((s6, local, st.2.update(k, u))),
                                        },
                                    },
                                },
                            }
                        },
                    }
                },
            },
        }
    }
}

/// The search from tile `k` on.
pub open spec fn uke_run(res: Resources, st: UkeState, k: int, cur: int) -> Option<UkeState>
    decreases 34 - k,
{
    if k >= 34 || k < 0 {
        Some(st)
    } else {
        let step = if k < 27 { uke_suit_step(res, st, k, cur) } else { uke_honor_step(res, st, k, cur) };
        match step {
            None => None,
            Some(st1) => uke_run(res, st1, k + 1, cur),
        }
    }
}

/// The uke-ire search of a 13 tile hand: the state it leaves and its row.
pub open spec fn uke_spec(res: Resources, s: CalcView) -> Option<(CalcView, Seq<i32>)> {
    if size_of(s) != 13 {
        None
    } else {
        match calc_shanten(res, s, s.arr) {
            None => None,
            Some(cur) => match uke_run(res, (s, s.arr, Seq::new(34, |k: int| -1i32)), 0, cur) {
                None => None,
                Some(r) => Some((r.0, r.2)),
            },
        }
    }
}

impl HandCalculator {
    /// A row entry from the tiles held and the shanten's drop.
    fn uke_entry(held: u8, delta: i8) -> (r: i32)
        requires
            uke_value(held, delta as int) is Some,
        ensures
            r == uke_value(held, delta as int)->0,
    {
        ((5 - held) as i8 * delta - 1) as i32
    }

    /// The search at number tile `k` (see `uke_suit_step`).
    fn uke_suit(&mut self, k: usize, local: &mut [u32; 4], uke: &mut [i32; 34], cur: i8, res: &Resources)
        requires
            k < 27,
            uke_suit_step(*res, (old(self).state(), old(local)@, old(uke)@), k as int, cur as int) is Some,
        ensures
            (final(self).state(), final(local)@, final(uke)@)
                == uke_suit_step(*res, (old(self).state(), old(local)@, old(uke)@), k as int, cur as int)->0,
    {
        let suit = k / 9;
        let value = k % 9;
        if self.in_hand_by_type[k] != 4 {
            let c0 = self.concealed_tiles[k];
            self.classifiers_draw(k, c0);
            let ghost s2 = self.state();
            self.concealed_tiles[k] = c0 + 1;
            let unit = base5_unit_exec(value as u8);
            self.base5hashes[suit] = self.base5hashes[suit] + unit;
            let ghost s3 = self.state();
            assert(s3.conc =~= s2.conc.update(k as int, (c0 + 1) as u8));
            assert(s3.b5 =~= s2.b5.update(suit as int, self.base5hashes[suit as int]));
            assert(s3.smc =~= s2.smc);
            assert(s3.sent =~= s2.sent);
            let v = self.suit_value(suit, res);
            local[suit] = v;
            let ns = self.calculate_shanten(local, res);
            let delta = cur - ns;
            uke[k] = Self::uke_entry(self.in_hand_by_type[k], delta);
            self.concealed_tiles[k] = c0;
            self.base5hashes[suit] = self.base5hashes[suit] - unit;
            assert(self.state().conc =~= s2.conc);
            assert(self.state().b5 =~= s2.b5);
            assert(self.state().smc =~= s2.smc);
            assert(self.state().sent =~= s2.sent);
            self.classifiers_discard(k, c0);
        }
        if value == 8 {
            local[suit] = self.arrangement_values[suit];
        }
    }

    /// The search at honor `k` (see `uke_honor_step`).
    fn uke_honor(&mut self, k: usize, local: &mut [u32; 4], uke: &mut [i32; 34], cur: i8, res: &Resources)
        requires
            27 <= k < 34,
            uke_honor_step(*res, (old(self).state(), old(local)@, old(uke)@), k as int, cur as int) is Some,
        ensures
            (final(self).state(), final(local)@, final(uke)@)
                == uke_honor_step(*res, (old(self).state(), old(local)@, old(uke)@), k as int, cur as int)->0,
    {
        if self.in_hand_by_type[k] != 4 {
            let c0 = self.concealed_tiles[k];
            let bit = (self.jihai_meld_bit >> ((k - 27) as u8)) & 1u8;
            self.classifiers_draw(k, c0);
            let ghost s2 = self.state();
            // the honor classifier keeps the state this draw reaches
            let v = self.honor_classifier.draw(c0, bit, res);
            assert(self.state().smc =~= s2.smc);
            assert(self.state().sent =~= s2.sent);
            local[3] = v;
            let ns = self.calculate_shanten(local, res);
            let delta = cur - ns;
            uke[k] = Self::uke_entry(self.in_hand_by_type[k], delta);
            self.classifiers_discard(k, c0);
        }
    }

    /// 34 entries, one per tile type: -1 where drawing the type does not lower the shanten
    /// (or 4 are held), else `(5 - held) * drop - 1`, i.e. the tiles of the type not in hand
    /// for a drop of one (see `uke_spec`). The search leaves the honor classifier at the
    /// state its last draw reached.
    pub fn get_uke_ire_for_13(&mut self, res: &Resources) -> (r: [i32; 34])
        requires
            uke_spec(*res, old(self).state()) is Some,
        ensures
            final(self).state() == uke_spec(*res, old(self).state()).unwrap().0,
            r@ == uke_spec(*res, old(self).state()).unwrap().1,
    {
        let current_shanten = self.calculate_shanten(&self.arrangement_values, res);
        let mut uke_ire: [i32; 34] = [-1; 34];
        let mut local_arrangements: [u32; 4] = [
            self.arrangement_values[0],
            self.arrangement_values[1],
            self.arrangement_values[2],
            self.arrangement_values[3],
        ];
        let ghost s0 = self.state();
        assert(local_arrangements@ =~= s0.arr);
        assert(uke_ire@ =~= Seq::new(34, |k: int| -1i32));
        let ghost target = uke_run(*res, (s0, s0.arr, Seq::new(34, |k: int| -1i32)), 0, current_shanten as int);
        let mut tile_id: usize = 0;
        while tile_id < 34
            invariant
                tile_id <= 34,
                target is Some,
                uke_run(*res, (self.state(), local_arrangements@, uke_ire@), tile_id as int, current_shanten as int) == target,
            decreases 34 - tile_id,
        {
            if tile_id < 27 {
                self.uke_suit(tile_id, &mut local_arrangements, &mut uke_ire, current_shanten, res);
            } else {
                self.uke_honor(tile_id, &mut local_arrangements, &mut uke_ire, current_shanten, res);
            }
            tile_id = tile_id + 1;
        }
        uke_ire
    }
}

} // verus!
