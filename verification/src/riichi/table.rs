use vstd::prelude::*;
use super::hand::{Hand, first_drawn};
use super::hand_parse::{hand_text_readable, from_text_spec};
use super::riichi_error::RiichiError;
use super::rules::Rules;
use super::shapes::{Shape, CompleteShape};
use super::tile::Tile;
use super::text::{chars_of, digit_value};
use super::yaku::{Yaku, YakuFinder, find_ok, find_spec};
use super::scores::Score;

verus! {

/// Representation of the game state
#[derive(Debug)]
pub struct Table {
    pub my_hand: Option<Hand>,
    pub my_discards: Vec<Tile>,
    pub my_riichi: Option<bool>,
    pub my_tsumo: Option<bool>,
    pub my_points: Option<i32>,
    // player to the right (shimocha)
    pub p1_discards: Vec<Tile>,
    pub p1_safe_tiles: Vec<Tile>,
    pub p1_open_tiles: Vec<Shape>,
    pub p1_riichi: Option<bool>,
    pub p1_tsumo: Option<bool>,
    pub p1_points: Option<i32>,
    // opposite player (toimen)
    pub p2_discards: Vec<Tile>,
    pub p2_safe_tiles: Vec<Tile>,
    pub p2_open_tiles: Vec<Shape>,
    pub p2_riichi: Option<bool>,
    pub p2_tsumo: Option<bool>,
    pub p2_points: Option<i32>,
    // player to the left (kamicha)
    pub p3_discards: Vec<Tile>,
    pub p3_safe_tiles: Vec<Tile>,
    pub p3_open_tiles: Vec<Shape>,
    pub p3_riichi: Option<bool>,
    pub p3_tsumo: Option<bool>,
    pub p3_points: Option<i32>,
    pub riichi_declaring_player: Option<u8>,
    // 1 = east, 2 = south, 3 = west, 4 = north
    pub prevalent_wind: Option<u8>,
    pub my_seat_wind: Option<u8>,
    pub my_initial_seat_wind: Option<u8>,
    /// E1 - E4, S1-S4...
    pub dealer_turn: Option<u8>,
    pub total_round: Option<u8>,
    pub tiles_remaining: Option<u8>,
    pub riichi_sticks_in_pot: Option<u8>,
    pub tsumibo: Option<u8>,
    pub dora_indicators: Vec<Tile>,
    /// in array_34 format
    pub visible_tiles: [u8; 34],
    pub rules: Option<Rules>,
}

/// A value of the parameters a table is read from.
pub enum TableParam {
    Text(String),
    Flag(bool),
    /// A number, with its value where it is a whole number that fits in 64 bits.
    Number(Option<u64>),
    Other,
}

/// The value of a decimal byte written in text, as `str::parse::<u8>` reads it: an optional
/// `+` and then digits, at most 255.
pub open spec fn u8_text_value(s: Seq<char>) -> Option<int> {
    let d = unsigned_digits(s);
    if d.len() == 0 || has_non_digit(d) {
        None
    } else if digits_value(d) > 255 {
        None
    } else {
        Some(digits_value(d))
    }
}

/// A text without its leading `+`.
pub open spec fn unsigned_digits(s: Seq<char>) -> Seq<char> {
    if s.len() > 0 && s[0] == '+' { s.drop_first() } else { s }
}

/// Some character is not a digit.
pub open spec fn has_non_digit(d: Seq<char>) -> bool {
    exists|i: int| 0 <= i < d.len() && #[trigger] digit_value(d[i]) is None
}

/// The value of a string of digits.
pub open spec fn digits_value(d: Seq<char>) -> int
    decreases d.len(),
{
    if d.len() == 0 {
        0
    } else {
        digits_value(d.drop_last()) * 10 + digit_value(d.last()).unwrap()
    }
}

/// The parameters as the contracts see them.
pub open spec fn params_view(p: Seq<(String, TableParam)>) -> Seq<(Seq<char>, TableParam)> {
    p.map_values(|e: (String, TableParam)| (e.0@, e.1))
}

/// A parameter that reads without a panic: a hand text that reads, a wind given as a whole
/// number or as a byte in text.
pub open spec fn param_readable(key: Seq<char>, v: TableParam) -> bool {
    &&& (key == "my_hand"@ && v is Text) ==> hand_text_readable(v->Text_0@)
    &&& (key == "prevalent_wind"@ || key == "my_seat_wind"@) ==> match v {
        TableParam::Number(n) => n is Some,
        TableParam::Text(s) => u8_text_value(s@) is Some,
        _ => true,
    }
}

/// The last flag given for a key, over the first `n` parameters.
pub open spec fn flag_param(p: Seq<(Seq<char>, TableParam)>, key: Seq<char>, n: int) -> Option<bool>
    decreases n,
{
    if n <= 0 {
        None
    } else if p[n - 1].0 == key && p[n - 1].1 is Flag {
        Some(p[n - 1].1->Flag_0)
    } else {
        flag_param(p, key, n - 1)
    }
}

/// The last wind given for a key, over the first `n` parameters (a number is cut to a byte).
pub open spec fn wind_param(p: Seq<(Seq<char>, TableParam)>, key: Seq<char>, n: int) -> Option<u8>
    decreases n,
{
    if n <= 0 {
        None
    } else if p[n - 1].0 == key {
        match p[n - 1].1 {
            TableParam::Number(Some(v)) => Some(v as u8),
            TableParam::Text(s) => Some(u8_text_value(s@).unwrap() as u8),
            _ => wind_param(p, key, n - 1),
        }
    } else {
        wind_param(p, key, n - 1)
    }
}

/// A wind after a parameter for it.
pub open spec fn step_wind(old: Option<u8>, v: TableParam) -> Option<u8> {
    match v {
        TableParam::Number(Some(n)) => Some(n as u8),
        TableParam::Text(s) => Some(u8_text_value(s@).unwrap() as u8),
        _ => old,
    }
}

/// The outcome of the hand texts among the first `n` parameters: the first error, or the last
/// hand read (none where there is no hand text).
pub open spec fn hand_param(p: Seq<(Seq<char>, TableParam)>, n: int) -> Result<Option<(Seq<Option<Tile>>, Seq<CompleteShape>)>, u16>
    decreases n,
{
    if n <= 0 {
        Ok(None)
    } else {
        match hand_param(p, n - 1) {
            Err(e) => Err(e),
            Ok(h) => if p[n - 1].0 == "my_hand"@ && p[n - 1].1 is Text {
                match from_text_spec(p[n - 1].1->Text_0@, false) {
                    Ok(r) => Ok(Some(r)),
                    Err(e) => Err(e),
                }
            } else {
                Ok(h)
            },
        }
    }
}

/// A table where nothing is known yet but what these fields hold.
pub open spec fn blank_but(t: Table) -> bool {
    &&& t.my_discards@.len() == 0
    &&& t.my_points is None
    &&& t.p1_discards@.len() == 0
    &&& t.p1_safe_tiles@.len() == 0
    &&& t.p1_open_tiles@.len() == 0
    &&& t.p1_riichi is None
    &&& t.p1_tsumo is None
    &&& t.p1_points is None
    &&& t.p2_discards@.len() == 0
    &&& t.p2_safe_tiles@.len() == 0
    &&& t.p2_open_tiles@.len() == 0
    &&& t.p2_riichi is None
    &&& t.p2_tsumo is None
    &&& t.p2_points is None
    &&& t.p3_discards@.len() == 0
    &&& t.p3_safe_tiles@.len() == 0
    &&& t.p3_open_tiles@.len() == 0
    &&& t.p3_riichi is None
    &&& t.p3_tsumo is None
    &&& t.p3_points is None
    &&& t.riichi_declaring_player is None
    &&& t.my_initial_seat_wind is None
    &&& t.dealer_turn is None
    &&& t.total_round is None
    &&& t.tiles_remaining is None
    &&& t.riichi_sticks_in_pot is None
    &&& t.tsumibo is None
    &&& t.dora_indicators@.len() == 0
    &&& forall|k: int| 0 <= k < 34 ==> #[trigger] t.visible_tiles@[k] == 0
    &&& t.rules is None
}

/// The placing of a player among four: one more than the players with more points, or as many
/// points and a lower initial seat wind.
pub open spec fn rank_of(points: Seq<int>, winds: Seq<int>, i: int) -> int {
    1 + (if 0 != i && (points[0] > points[i] || (points[0] == points[i] && winds[0] < winds[i])) { 1int } else { 0 })
      + (if 1 != i && (points[1] > points[i] || (points[1] == points[i] && winds[1] < winds[i])) { 1int } else { 0 })
      + (if 2 != i && (points[2] > points[i] || (points[2] == points[i] && winds[2] < winds[i])) { 1int } else { 0 })
      + (if 3 != i && (points[3] > points[i] || (points[3] == points[i] && winds[3] < winds[i])) { 1int } else { 0 })
}

/// The initial seat winds of the player and of the players to the right, opposite and left.
pub open spec fn seat_winds(initial: Option<u8>) -> Seq<int> {
    if initial == Some(1u8) {
        seq![1, 2, 3, 4]
    } else if initial == Some(2u8) {
        seq![2, 3, 4, 1]
    } else if initial == Some(3u8) {
        seq![3, 4, 1, 2]
    } else {
        seq![4, 1, 2, 3]
    }
}

/// The points of the four players, 25000 where not known.
pub open spec fn table_points(t: Table) -> Seq<int> {
    seq![
        t.my_points.unwrap_or(25000) as int,
        t.p1_points.unwrap_or(25000) as int,
        t.p2_points.unwrap_or(25000) as int,
        t.p3_points.unwrap_or(25000) as int,
    ]
}

/// The player's placing: by points, ties broken by initial seat wind; 5 where the player's
/// initial seat wind is none of the four.
pub open spec fn placing_spec(t: Table) -> int {
    let winds = seat_winds(t.my_initial_seat_wind);
    let me = t.my_initial_seat_wind.unwrap_or(4) as int;
    if winds[0] == me {
        rank_of(table_points(t), winds, 0)
    } else if winds[1] == me {
        rank_of(table_points(t), winds, 1)
    } else if winds[2] == me {
        rank_of(table_points(t), winds, 2)
    } else if winds[3] == me {
        rank_of(table_points(t), winds, 3)
    } else {
        5
    }
}

fn text_is(k: &Vec<char>, lit: &str) -> (b: bool)
    ensures
        b == (k@ == lit@),
{
    let l = chars_of(lit);
    if k.len() != l.len() {
        return false;
    }
    let mut i: usize = 0;
    while i < k.len()
        invariant
            k@.len() == l@.len(),
            l@ == lit@,
            i <= k@.len(),
            forall|j: int| 0 <= j < i ==> k@[j] == l@[j],
        decreases k.len() - i,
    {
        if k[i] != l[i] {
            return false;
        }
        i = i + 1;
    }
    assert(k@ =~= l@);
    true
}

/// Reads a byte written in decimal, as `str::parse::<u8>` does.
pub fn parse_u8(s: &str) -> (r: Option<u8>)
    ensures
        match u8_text_value(s@) {
            Some(v) => r == Some(v as u8),
            None => r is None,
        },
{
    let c = chars_of(s);
    let start: usize = if c.len() > 0 && c[0] == '+' { 1 } else { 0 };
    let ghost d = if c@.len() > 0 && c@[0] == '+' { c@.drop_first() } else { c@ };
    assert(d =~= c@.skip(start as int));
    if start == c.len() {
        return None;
    }
    let mut value: u32 = 0;
    let mut i: usize = start;
    while i < c.len()
        invariant
            c@ == s@,
            start <= i <= c@.len(),
            d == c@.skip(start as int),
            d == unsigned_digits(s@),
            value as int == digits_value(d.take(i - start)),
            value <= 255,
            forall|j: int| 0 <= j < i - start ==> #[trigger] digit_value(d[j]) is Some,
        decreases c.len() - i,
    {
        assert(d.take(i - start + 1).drop_last() =~= d.take(i - start));
        assert(d[i - start] == c@[i as int]);
        match super::text::from_digit_char(c[i]) {
            None => {
                assert(digit_value(d[i - start]) is None);
                assert(exists|k: int| 0 <= k < d.len() && #[trigger] digit_value(d[k]) is None);
                assert(u8_text_value(s@) is None);
                return None;
            },
            Some(v) => {
                let next = value * 10 + v as u32;
                assert(d.take(i - start + 1).last() == d[i - start]);
                assert(digits_value(d.take(i - start + 1)) == next);
                if next > 255 {
                    proof {
                        if forall|j: int| 0 <= j < d.len() ==> #[trigger] digit_value(d[j]) is Some {
                            lemma_digits_grow(d, i - start + 1);
                            assert(digits_value(d) > 255);
                        } else {
                            assert(exists|k: int| 0 <= k < d.len() && #[trigger] digit_value(d[k]) is None);
                        }
                        assert(u8_text_value(s@) is None);
                    }
                    return None;
                }
                value = next;
            },
        }
        i = i + 1;
    }
    assert(d.take(i - start) =~= d);
    Some(value as u8)
}

pub proof fn lemma_digits_grow(d: Seq<char>, n: int)
    requires
        0 <= n <= d.len(),
        forall|j: int| 0 <= j < d.len() ==> #[trigger] digit_value(d[j]) is Some,
    ensures
        digits_value(d) >= digits_value(d.take(n)),
    decreases d.len() - n,
{
    if n < d.len() {
        lemma_digits_grow(d, n + 1);
        assert(d.take(n + 1).drop_last() =~= d.take(n));
        assert(d.take(n + 1).last() == d[n]);
        assert(digit_value(d[n]) is Some);
        let e = d.take(n);
        assert forall|j: int| 0 <= j < e.len() implies #[trigger] digit_value(e[j]) is Some by {
            assert(e[j] == d[j]);
        }
        lemma_digits_nonneg(e);
    } else {
        assert(d.take(n) =~= d);
    }
}

pub proof fn lemma_digits_nonneg(d: Seq<char>)
    requires
        forall|j: int| 0 <= j < d.len() ==> #[trigger] digit_value(d[j]) is Some,
    ensures
        digits_value(d) >= 0,
    decreases d.len(),
{
    if d.len() > 0 {
        let e = d.drop_last();
        assert forall|j: int| 0 <= j < e.len() implies #[trigger] digit_value(e[j]) is Some by {
            assert(e[j] == d[j]);
        }
        lemma_digits_nonneg(e);
        assert(digit_value(d[d.len() - 1]) is Some);
    }
}

impl Table {
    /// A table where nothing is known.
    fn blank() -> (t: Table)
        ensures
            blank_but(t),
            t.my_hand is None,
            t.my_riichi is None,
            t.my_tsumo is None,
            t.prevalent_wind is None,
            t.my_seat_wind is None,
    {
        Table {
            my_hand: None,
            my_discards: Vec::new(),
            my_riichi: None,
            my_tsumo: None,
            my_points: None,
            p1_discards: Vec::new(),
            p1_safe_tiles: Vec::new(),
            p1_open_tiles: Vec::new(),
            p1_riichi: None,
            p1_tsumo: None,
            p1_points: None,
            p2_discards: Vec::new(),
            p2_safe_tiles: Vec::new(),
            p2_open_tiles: Vec::new(),
            p2_riichi: None,
            p2_tsumo: None,
            p2_points: None,
            p3_discards: Vec::new(),
            p3_safe_tiles: Vec::new(),
            p3_open_tiles: Vec::new(),
            p3_riichi: None,
            p3_tsumo: None,
            p3_points: None,
            riichi_declaring_player: None,
            prevalent_wind: None,
            my_seat_wind: None,
            my_initial_seat_wind: None,
            dealer_turn: None,
            total_round: None,
            tiles_remaining: None,
            riichi_sticks_in_pot: None,
            tsumibo: None,
            dora_indicators: Vec::new(),
            visible_tiles: [0; 34],
            rules: None,
        }
    }


    /// Takes in one parameter.
    fn apply_param(&mut self, key: &Vec<char>, value: &TableParam) -> (r: Result<(), RiichiError>)
        requires
            param_readable(key@, *value),
        ensures
            blank_but(*old(self)) ==> blank_but(*final(self)),
            (key@ == "my_hand"@ && value is Text) ==> match from_text_spec(value->Text_0@, false) {
                Ok((tiles, shapes)) => r is Ok && (final(self).my_hand matches Some(hand) && hand.tiles@ == tiles
                    && hand.shapes@ == shapes && hand.shanten == 99 && hand.array_34 is None),
                Err(code) => r matches Err(e) && e.code == code,
            },
            !(key@ == "my_hand"@ && value is Text) ==> r is Ok && final(self).my_hand == old(self).my_hand,
            final(self).my_riichi == (if key@ == "my_riichi"@ && value is Flag { Some(value->Flag_0) } else { old(self).my_riichi }),
            final(self).my_tsumo == (if key@ == "my_tsumo"@ && value is Flag { Some(value->Flag_0) } else { old(self).my_tsumo }),
            final(self).prevalent_wind == (if key@ == "prevalent_wind"@ { step_wind(old(self).prevalent_wind, *value) } else { old(self).prevalent_wind }),
            final(self).my_seat_wind == (if key@ == "my_seat_wind"@ { step_wind(old(self).my_seat_wind, *value) } else { old(self).my_seat_wind }),
    {
        proof {
            reveal_strlit("my_hand");
            reveal_strlit("my_riichi");
            reveal_strlit("my_tsumo");
            reveal_strlit("prevalent_wind");
            reveal_strlit("my_seat_wind");
            assert("my_hand"@.len() == 7);
            assert("my_riichi"@.len() == 9);
            assert("my_tsumo"@.len() == 8);
            assert("prevalent_wind"@.len() == 14);
            assert("my_seat_wind"@.len() == 12);
        }
        if text_is(key, "my_hand") {
            if let TableParam::Text(s) = value {
                match Hand::from_text(s.as_str(), false) {
                    Ok(hand) => self.my_hand = Some(hand),
                    Err(error) => return Err(error),
                }
            }
        } else if text_is(key, "my_riichi") {
            if let TableParam::Flag(b) = value {
                self.my_riichi = Some(*b);
            }
        } else if text_is(key, "my_tsumo") {
            if let TableParam::Flag(b) = value {
                self.my_tsumo = Some(*b);
            }
        } else if text_is(key, "prevalent_wind") {
            match value {
                TableParam::Number(v) => {
                    self.prevalent_wind = Some(v.unwrap() as u8);
                },
                TableParam::Text(v) => {
                    let number: u8 = parse_u8(v.as_str()).unwrap();
                    self.prevalent_wind = Some(number);
                },
                _ => {},
            }
        } else if text_is(key, "my_seat_wind") {
            match value {
                TableParam::Number(v) => {
                    self.my_seat_wind = Some(v.unwrap() as u8);
                },
                TableParam::Text(v) => {
                    let number: u8 = parse_u8(v.as_str()).unwrap();
                    self.my_seat_wind = Some(number);
                },
                _ => {},
            }
        }
        Ok(())
    }

    /// Reads a table from its parameters (`my_hand`, `my_riichi`, `my_tsumo`,
    /// `prevalent_wind`, `my_seat_wind`); the others are ignored.
    pub fn from_map(params: &Vec<(String, TableParam)>) -> (r: Result<Table, RiichiError>)
        requires
            forall|i: int| 0 <= i < params@.len() ==> param_readable(#[trigger] params@[i].0@, params@[i].1),
        ensures
            ({
                let p = params_view(params@);
                let n = p.len() as int;
                match hand_param(p, n) {
                    Err(code) => r matches Err(e) && e.code == code,
                    Ok(h) => r matches Ok(t) && blank_but(t)
                        && match h {
                            None => t.my_hand is None,
                            Some((tiles, shapes)) => t.my_hand matches Some(hand) && hand.tiles@ == tiles
                                && hand.shapes@ == shapes && hand.shanten == 99 && hand.array_34 is None,
                        }
                        && t.my_riichi == flag_param(p, "my_riichi"@, n)
                        && t.my_tsumo == flag_param(p, "my_tsumo"@, n)
                        && t.prevalent_wind == wind_param(p, "prevalent_wind"@, n)
                        && t.my_seat_wind == wind_param(p, "my_seat_wind"@, n),
                }
            }),
    {
        let ghost p = params_view(params@);
        let mut t = Table::blank();
        let mut i: usize = 0;
        while i < params.len()
            invariant
                i <= params@.len(),
                p == params_view(params@),
                forall|k: int| 0 <= k < params@.len() ==> param_readable(#[trigger] params@[k].0@, params@[k].1),
                blank_but(t),
                hand_param(p, i as int) matches Ok(h) && match h {
                    None => t.my_hand is None,
                    Some((tiles, shapes)) => t.my_hand matches Some(hand) && hand.tiles@ == tiles
                        && hand.shapes@ == shapes && hand.shanten == 99 && hand.array_34 is None,
                },
                t.my_riichi == flag_param(p, "my_riichi"@, i as int),
                t.my_tsumo == flag_param(p, "my_tsumo"@, i as int),
                t.prevalent_wind == wind_param(p, "prevalent_wind"@, i as int),
                t.my_seat_wind == wind_param(p, "my_seat_wind"@, i as int),
            decreases params.len() - i,
        {
            let (index, value) = &params[i];
            assert(p[i as int] == (index@, *value));
            let key = chars_of(index.as_str());
            proof {
                assert(param_readable(params@[i as int].0@, params@[i as int].1));
            }
            match t.apply_param(&key, value) {
                Ok(()) => {},
                Err(error) => {
                    proof {
                        lemma_hand_param_err(p, i + 1, p.len() as int);
                    }
                    return Err(error);
                },
            }
            i = i + 1;
        }
        Ok(t)
    }
}

impl Table {
    pub fn set_seat(&mut self, seat: u8)
        ensures
            *final(self) == (Table { my_seat_wind: Some(seat), ..*old(self) }),
    {
        self.my_seat_wind = Some(seat);
    }

    pub fn am_i_oya(&self) -> (b: bool)
        ensures
            b == (self.my_seat_wind == Some(1u8)),
    {
        match self.my_seat_wind {
            None => false,
            Some(seat) => seat == 1,
        }
    }

    pub fn set_my_tsumo(&mut self, value: bool)
        ensures
            *final(self) == (Table { my_tsumo: Some(value), ..*old(self) }),
    {
        self.my_tsumo = Some(value);
    }

    pub fn set_p1_tsumo(&mut self, value: bool)
        ensures
            *final(self) == (Table { p1_tsumo: Some(value), ..*old(self) }),
    {
        self.p1_tsumo = Some(value);
    }

    pub fn set_p2_tsumo(&mut self, value: bool)
        ensures
            *final(self) == (Table { p2_tsumo: Some(value), ..*old(self) }),
    {
        self.p2_tsumo = Some(value);
    }

    pub fn set_p3_tsumo(&mut self, value: bool)
        ensures
            *final(self) == (Table { p3_tsumo: Some(value), ..*old(self) }),
    {
        self.p3_tsumo = Some(value);
    }

    pub fn did_i_tsumo(&self) -> (b: bool)
        ensures
            b == self.my_tsumo.unwrap_or(false),
    {
        match self.my_tsumo {
            Some(v) => v,
            None => false,
        }
    }

    pub fn set_my_riichi(&mut self, value: bool)
        ensures
            *final(self) == (Table { my_riichi: Some(value), ..*old(self) }),
    {
        self.my_riichi = Some(value);
    }

    pub fn set_p1_riichi(&mut self, value: bool)
        ensures
            *final(self) == (Table { p1_riichi: Some(value), ..*old(self) }),
    {
        self.p1_riichi = Some(value);
    }

    pub fn set_p2_riichi(&mut self, value: bool)
        ensures
            *final(self) == (Table { p2_riichi: Some(value), ..*old(self) }),
    {
        self.p2_riichi = Some(value);
    }

    pub fn set_p3_riichi(&mut self, value: bool)
        ensures
            *final(self) == (Table { p3_riichi: Some(value), ..*old(self) }),
    {
        self.p3_riichi = Some(value);
    }

    pub fn get_p1_riichi(&self) -> (b: bool)
        ensures
            b == self.p1_riichi.unwrap_or(false),
    {
        match self.p1_riichi {
            Some(v) => v,
            None => false,
        }
    }

    pub fn get_p2_riichi(&self) -> (b: bool)
        ensures
            b == self.p2_riichi.unwrap_or(false),
    {
        match self.p2_riichi {
            Some(v) => v,
            None => false,
        }
    }

    pub fn get_p3_riichi(&self) -> (b: bool)
        ensures
            b == self.p3_riichi.unwrap_or(false),
    {
        match self.p3_riichi {
            Some(v) => v,
            None => false,
        }
    }

    /// Records who declared riichi; players 1-3 are also marked as in riichi.
    pub fn set_riichi_declaring_player(&mut self, player_id: u8)
        ensures
            *final(self) == (Table {
                riichi_declaring_player: Some(player_id),
                p1_riichi: if player_id == 1 { Some(true) } else { old(self).p1_riichi },
                p2_riichi: if player_id == 2 { Some(true) } else { old(self).p2_riichi },
                p3_riichi: if player_id == 3 { Some(true) } else { old(self).p3_riichi },
                ..*old(self)
            }),
    {
        self.riichi_declaring_player = Some(player_id);
        if player_id == 1 {
            self.set_p1_riichi(true);
        } else if player_id == 2 {
            self.set_p2_riichi(true);
        } else if player_id == 3 {
            self.set_p3_riichi(true);
        }
    }

    pub fn unset_riichi_declaring_player(&mut self)
        ensures
            *final(self) == (Table { riichi_declaring_player: None, ..*old(self) }),
    {
        self.riichi_declaring_player = None;
    }

    pub fn get_riichi_declaring_player(&self) -> (r: Option<u8>)
        ensures
            r == self.riichi_declaring_player,
    {
        self.riichi_declaring_player
    }

    pub fn did_i_riichi(&self) -> (b: bool)
        ensures
            b == self.my_riichi.unwrap_or(false),
    {
        match &self.my_riichi {
            None => false,
            Some(value) => *value,
        }
    }

    pub fn set_my_hand(&mut self, hand: Hand)
        ensures
            *final(self) == (Table { my_hand: Some(hand), ..*old(self) }),
    {
        self.my_hand = Some(hand);
    }

    pub fn get_my_hand(&self) -> (h: &Hand)
        requires
            self.my_hand is Some,
        ensures
            *h == self.my_hand.unwrap(),
    {
        match &self.my_hand {
            Some(hand) => hand,
            None => vstd::pervasive::unreached(),
        }
    }

    pub fn get_my_hand_option(&self) -> (h: &Option<Hand>)
        ensures
            *h == self.my_hand,
    {
        &self.my_hand
    }

    /// The drawn tile of the player's hand (the first one marked drawn).
    pub fn get_my_winning_tile(&self) -> (t: Tile)
        requires
            self.my_hand matches Some(h) && exists|i: int| 0 <= i < h.tiles@.len() && (#[trigger] h.tiles@[i] matches Some(x) && x.is_draw),
        ensures
            exists|i: int| first_drawn(self.my_hand.unwrap().tiles@, i) && self.my_hand.unwrap().tiles@[i] == Some(t),
    {
        let hand = self.get_my_hand();
        match hand.get_drawn_tile() {
            Some(t) => *t,
            None => vstd::pervasive::unreached(),
        }
    }

    pub fn set_tiles_remaining(&mut self, value: u8)
        ensures
            *final(self) == (Table { tiles_remaining: Some(value), ..*old(self) }),
    {
        self.tiles_remaining = Some(value);
    }

    pub fn get_tiles_remaining(&self) -> (r: Option<u8>)
        ensures
            r == self.tiles_remaining,
    {
        self.tiles_remaining
    }

    /// One tile less in the wall (0 where the count was not known).
    pub fn decrement_tiles_remaining(&mut self)
        requires
            old(self).tiles_remaining != Some(0u8),
        ensures
            *final(self) == (Table {
                tiles_remaining: match old(self).tiles_remaining {
                    None => Some(0u8),
                    Some(v) => Some((v - 1) as u8),
                },
                ..*old(self)
            }),
    {
        match self.tiles_remaining {
            None => {
                self.set_tiles_remaining(0);
            },
            Some(value) => {
                self.set_tiles_remaining(value - 1);
            },
        }
    }

    pub fn set_my_seat_wind(&mut self, value: u8)
        ensures
            *final(self) == (Table { my_seat_wind: Some(value), ..*old(self) }),
    {
        self.my_seat_wind = Some(value);
    }

    pub fn get_my_seat_wind(&self) -> (r: Option<u8>)
        ensures
            r == self.my_seat_wind,
    {
        self.my_seat_wind
    }

    pub fn set_my_initial_seat_wind(&mut self, value: u8)
        ensures
            *final(self) == (Table { my_initial_seat_wind: Some(value), ..*old(self) }),
    {
        self.my_initial_seat_wind = Some(value);
    }

    pub fn get_my_initial_seat_wind(&self) -> (r: Option<u8>)
        ensures
            r == self.my_initial_seat_wind,
    {
        self.my_initial_seat_wind
    }

    pub fn set_prevalent_wind(&mut self, value: u8)
        ensures
            *final(self) == (Table { prevalent_wind: Some(value), ..*old(self) }),
    {
        self.prevalent_wind = Some(value);
    }

    pub fn get_prevalent_wind(&self) -> (r: Option<u8>)
        ensures
            r == self.prevalent_wind,
    {
        self.prevalent_wind
    }

    pub fn set_dealer_turn(&mut self, value: u8)
        ensures
            *final(self) == (Table { dealer_turn: Some(value), ..*old(self) }),
    {
        self.dealer_turn = Some(value);
    }

    pub fn get_dealer_turn(&self) -> (r: Option<u8>)
        ensures
            r == self.dealer_turn,
    {
        self.dealer_turn
    }

    pub fn get_my_points(&self) -> (r: Option<i32>)
        ensures
            r == self.my_points,
    {
        self.my_points
    }

    /// The player's placing by points (25000 where not known), ties broken by initial seat
    /// wind.
    pub fn get_placing(&self) -> (p: u8)
        ensures
            p == placing_spec(*self),
    {
        let winds: [u8; 4] = match self.my_initial_seat_wind {
            Some(1) => [1, 2, 3, 4],
            Some(2) => [2, 3, 4, 1],
            Some(3) => [3, 4, 1, 2],
            _ => [4, 1, 2, 3],
        };
        let points: [i32; 4] = [
            match self.my_points { Some(v) => v, None => 25000 },
            match self.p1_points { Some(v) => v, None => 25000 },
            match self.p2_points { Some(v) => v, None => 25000 },
            match self.p3_points { Some(v) => v, None => 25000 },
        ];
        let me: u8 = match self.my_initial_seat_wind { Some(v) => v, None => 4 };
        let ghost sw = seat_winds(self.my_initial_seat_wind);
        let ghost tp = table_points(*self);
        assert(forall|k: int| 0 <= k < 4 ==> sw[k] == winds@[k] as int);
        assert(forall|k: int| 0 <= k < 4 ==> tp[k] == points@[k] as int);
        let mut i: usize = 0;
        while i < 4
            invariant
                i <= 4,
                sw == seat_winds(self.my_initial_seat_wind),
                tp == table_points(*self),
                forall|k: int| 0 <= k < 4 ==> sw[k] == winds@[k] as int,
                forall|k: int| 0 <= k < 4 ==> tp[k] == points@[k] as int,
                me as int == self.my_initial_seat_wind.unwrap_or(4) as int,
                forall|j: int| 0 <= j < i ==> winds@[j] != me,
            decreases 4 - i,
        {
            if winds[i] == me {
                let mut rank: u8 = 1;
                let mut j: usize = 0;
                while j < 4
                    invariant
                        j <= 4,
                        i < 4,
                        rank as int == 1 + count_before(points@, winds@, i as int, j as int),
                        rank <= 1 + j,
                    decreases 4 - j,
                {
                    if j != i && (points[j] > points[i] || (points[j] == points[i] && winds[j] < winds[i])) {
                        rank = rank + 1;
                    }
                    j = j + 1;
                }
                proof {
                    reveal_with_fuel(count_before, 5);
                    assert(rank_of(tp, sw, i as int) == 1 + count_before(points@, winds@, i as int, 4));
                }
                return rank;
            }
            i = i + 1;
        }
        5
    }

    pub fn set_dora_indicators(&mut self, indicators: Vec<Tile>)
        ensures
            *final(self) == (Table { dora_indicators: indicators, ..*old(self) }),
    {
        self.dora_indicators = indicators;
    }

    /// Adds a dora indicator, which is then a visible tile.
    pub fn add_dora_indicator(&mut self, indicator: Tile)
        requires
            indicator.valid(),
            old(self).visible_tiles@[indicator.spec_id() - 1] < 255,
        ensures
            final(self).dora_indicators@ == old(self).dora_indicators@.push(indicator),
            final(self).visible_tiles@ == old(self).visible_tiles@.update(indicator.spec_id() - 1,
                (old(self).visible_tiles@[indicator.spec_id() - 1] + 1) as u8),
            *final(self) == (Table { dora_indicators: final(self).dora_indicators, visible_tiles: final(self).visible_tiles, ..*old(self) }),
    {
        proof { super::tile::lemma_valid_key_id(indicator.tile_type, indicator.tile_type); }
        self.dora_indicators.push(indicator);
        let idx = (indicator.to_id() - 1) as usize;
        self.visible_tiles[idx] = self.visible_tiles[idx] + 1;
    }

    pub fn get_dora_indicators(&self) -> (r: &Vec<Tile>)
        ensures
            r@ == self.dora_indicators@,
    {
        &self.dora_indicators
    }

    pub fn add_tile_to_visible_tiles(&mut self, tile: Tile)
        requires
            tile.valid(),
            old(self).visible_tiles@[tile.spec_id() - 1] < 255,
        ensures
            final(self).visible_tiles@ == old(self).visible_tiles@.update(tile.spec_id() - 1,
                (old(self).visible_tiles@[tile.spec_id() - 1] + 1) as u8),
            *final(self) == (Table { visible_tiles: final(self).visible_tiles, ..*old(self) }),
    {
        proof { super::tile::lemma_valid_key_id(tile.tile_type, tile.tile_type); }
        let idx = (tile.to_id() - 1) as usize;
        self.visible_tiles[idx] = self.visible_tiles[idx] + 1;
    }

    /// Forgets the visible tiles, the discards and the safe tiles.
    pub fn reset_tile_vectors(&mut self)
        ensures
            forall|k: int| 0 <= k < 34 ==> #[trigger] final(self).visible_tiles@[k] == 0,
            final(self).my_discards@.len() == 0,
            final(self).p1_discards@.len() == 0,
            final(self).p2_discards@.len() == 0,
            final(self).p3_discards@.len() == 0,
            final(self).p1_safe_tiles@.len() == 0,
            final(self).p2_safe_tiles@.len() == 0,
            final(self).p3_safe_tiles@.len() == 0,
            *final(self) == (Table {
                visible_tiles: final(self).visible_tiles,
                my_discards: final(self).my_discards,
                p1_discards: final(self).p1_discards,
                p2_discards: final(self).p2_discards,
                p3_discards: final(self).p3_discards,
                p1_safe_tiles: final(self).p1_safe_tiles,
                p2_safe_tiles: final(self).p2_safe_tiles,
                p3_safe_tiles: final(self).p3_safe_tiles,
                ..*old(self)
            }),
    {
        self.visible_tiles = [0; 34];
        self.my_discards = Vec::new();
        self.p1_discards = Vec::new();
        self.p2_discards = Vec::new();
        self.p3_discards = Vec::new();
        self.p1_safe_tiles = Vec::new();
        self.p2_safe_tiles = Vec::new();
        self.p3_safe_tiles = Vec::new();
    }

    pub fn get_visible_tiles(&self) -> (r: &[u8; 34])
        ensures
            r@ == self.visible_tiles@,
    {
        &self.visible_tiles
    }

    pub fn set_total_round(&mut self, value: u8)
        ensures
            *final(self) == (Table { total_round: Some(value), ..*old(self) }),
    {
        self.total_round = Some(value);
    }

    pub fn get_total_round(&self) -> (r: Option<u8>)
        ensures
            r == self.total_round,
    {
        self.total_round
    }

    pub fn set_riichi_sticks(&mut self, value: u8)
        ensures
            *final(self) == (Table { riichi_sticks_in_pot: Some(value), ..*old(self) }),
    {
        self.riichi_sticks_in_pot = Some(value);
    }

    pub fn get_riichi_sticks(&self) -> (r: u8)
        ensures
            r == self.riichi_sticks_in_pot.unwrap_or(0),
    {
        match self.riichi_sticks_in_pot {
            Some(v) => v,
            None => 0,
        }
    }

    pub fn set_tsumibo(&mut self, value: u8)
        ensures
            *final(self) == (Table { tsumibo: Some(value), ..*old(self) }),
    {
        self.tsumibo = Some(value);
    }

    pub fn get_tsumibo(&self) -> (r: u8)
        ensures
            r == self.tsumibo.unwrap_or(0),
    {
        match self.tsumibo {
            Some(v) => v,
            None => 0,
        }
    }

    pub fn set_rules(&mut self, rules: Rules)
        ensures
            *final(self) == (Table { rules: Some(rules), ..*old(self) }),
    {
        self.rules = Some(rules);
    }

    pub fn get_rules(&self) -> (r: &Option<Rules>)
        ensures
            *r == self.rules,
    {
        &self.rules
    }

    pub fn get_my_discards(&self) -> (r: &Vec<Tile>)
        ensures
            r@ == self.my_discards@,
    {
        &self.my_discards
    }

    /// Adds a discard of a player (0 is this player, 1-3 the others).
    pub fn add_tile_to_discards(&mut self, player: u8, tile: Tile)
        requires
            player <= 3,
        ensures
            final(self).my_discards@ == if player == 0 { old(self).my_discards@.push(tile) } else { old(self).my_discards@ },
            final(self).p1_discards@ == if player == 1 { old(self).p1_discards@.push(tile) } else { old(self).p1_discards@ },
            final(self).p2_discards@ == if player == 2 { old(self).p2_discards@.push(tile) } else { old(self).p2_discards@ },
            final(self).p3_discards@ == if player == 3 { old(self).p3_discards@.push(tile) } else { old(self).p3_discards@ },
            *final(self) == (Table {
                my_discards: final(self).my_discards,
                p1_discards: final(self).p1_discards,
                p2_discards: final(self).p2_discards,
                p3_discards: final(self).p3_discards,
                ..*old(self)
            }),
    {
        if player == 0 {
            self.my_discards.push(tile);
        } else if player == 1 {
            self.p1_discards.push(tile);
        } else if player == 2 {
            self.p2_discards.push(tile);
        } else {
            self.p3_discards.push(tile);
        }
    }

    /// Adds a tile that is safe against a player (1-3).
    pub fn add_tile_to_safe_tiles(&mut self, player: u8, tile: Tile)
        requires
            1 <= player <= 3,
        ensures
            final(self).p1_safe_tiles@ == if player == 1 { old(self).p1_safe_tiles@.push(tile) } else { old(self).p1_safe_tiles@ },
            final(self).p2_safe_tiles@ == if player == 2 { old(self).p2_safe_tiles@.push(tile) } else { old(self).p2_safe_tiles@ },
            final(self).p3_safe_tiles@ == if player == 3 { old(self).p3_safe_tiles@.push(tile) } else { old(self).p3_safe_tiles@ },
            *final(self) == (Table {
                p1_safe_tiles: final(self).p1_safe_tiles,
                p2_safe_tiles: final(self).p2_safe_tiles,
                p3_safe_tiles: final(self).p3_safe_tiles,
                ..*old(self)
            }),
    {
        if player == 1 {
            self.p1_safe_tiles.push(tile);
        } else if player == 2 {
            self.p2_safe_tiles.push(tile);
        } else {
            self.p3_safe_tiles.push(tile);
        }
    }

    /// Finds yaku based on the table state. Some yaku depend on winds, tsumo / ron, tiles
    /// remaining etc.
    pub fn yaku(&mut self) -> (r: Option<(Vec<Yaku>, Score)>)
        requires
            find_ok(*old(self)),
        ensures
            *final(self) == *old(self),
            match find_spec(*old(self)) {
                None => r is None,
                Some((l, sc)) => r matches Some((v, s2)) && v@ == l && s2 == sc,
            },
    {
        let yf = YakuFinder::new();
        yf.find(self)
    }

    /// Whether a tile was among the last discards of the other players (temporary furiten).
    pub fn is_temporary_furiten(&self, tile: &Tile, last_discards: &Vec<Option<Tile>>) -> (b: bool)
        ensures
            b == exists|i: int| 0 <= i < last_discards@.len() && (#[trigger] last_discards@[i] matches Some(t) && t.spec_key() == tile.spec_key()),
    {
        let mut i: usize = 0;
        while i < last_discards.len()
            invariant
                i <= last_discards@.len(),
                forall|j: int| 0 <= j < i ==> !(#[trigger] last_discards@[j] matches Some(t) && t.spec_key() == tile.spec_key()),
            decreases last_discards.len() - i,
        {
            if let Some(ld) = &last_discards[i] {
                if ld.eq(tile) {
                    return true;
                }
            }
            i = i + 1;
        }
        false
    }
}

/// How many of the first `n` players rank before player `i`.
pub open spec fn count_before(points: Seq<i32>, winds: Seq<u8>, i: int, n: int) -> int
    decreases n,
{
    if n <= 0 {
        0
    } else {
        count_before(points, winds, i, n - 1) + if n - 1 != i && (points[n - 1] > points[i] || (points[n - 1] == points[i]
            && winds[n - 1] < winds[i])) {
            1int
        } else {
            0
        }
    }
}

proof fn lemma_hand_param_err(p: Seq<(Seq<char>, TableParam)>, i: int, n: int)
    requires
        0 <= i <= n,
        hand_param(p, i) is Err,
    ensures
        hand_param(p, n) == hand_param(p, i),
    decreases n - i,
{
    if i < n {
        lemma_hand_param_err(p, i, n - 1);
    }
}

} // verus!
