use vstd::prelude::*;
use crate::riichi::riichi_error::RiichiError;
use crate::riichi::text::{decimal, digit_value, push_decimal, string_from_chars, from_digit_char};
use vstd::string::StrSliceExecFns;
use vstd::string::StringSliceAdditionalSpecFns;

verus! {

// '0m', '1m', '2m', '3m', '4m', '5m', '6m', '7m', '8m', '9m',
// '0p', '1p', '2p', '3p', '4p', '5p', '6p', '7p', '8p', '9p',
// '0s', '1s', '2s', '3s', '4s', '5s', '6s', '7s', '8s', '9s',
//  E    S    W     N
// '1z', '2z', '3z', '4z',
//  W    G     R
// '5z', '6z', '7z'

#[derive(Debug, Clone, Copy, Hash)]
pub enum TileType {
    Number(u8, TileColor),
    Wind(u8),
    Dragon(u8),
}

#[derive(Debug, Clone, Copy, Hash)]
pub enum TileColor {
    Manzu,
    Pinzu,
    Souzu,
}

/// 0 for manzu, 1 for pinzu, 2 for souzu.
pub open spec fn color_index(c: TileColor) -> int {
    match c {
        TileColor::Manzu => 0,
        TileColor::Pinzu => 1,
        TileColor::Souzu => 2,
    }
}

impl TileColor {
    /// The letter of the color in hand notation.
    pub open spec fn spec_char(self) -> char {
        match self {
            TileColor::Manzu => 'm',
            TileColor::Pinzu => 'p',
            TileColor::Souzu => 's',
        }
    }

    pub fn from_char(rep: &char) -> (r: Result<TileColor, RiichiError>)
        ensures
            *rep == 'm' ==> r == Ok::<TileColor, RiichiError>(TileColor::Manzu),
            *rep == 'p' ==> r == Ok::<TileColor, RiichiError>(TileColor::Pinzu),
            *rep == 's' ==> r == Ok::<TileColor, RiichiError>(TileColor::Souzu),
            (*rep != 'm' && *rep != 'p' && *rep != 's') ==> (r matches Err(e) && e.code == 106
                && e.message@ == "Wrong representation of tile color!"@),
    {
        match rep {
            'm' => Ok(TileColor::Manzu),
            'p' => Ok(TileColor::Pinzu),
            's' => Ok(TileColor::Souzu),
            _ => Err(RiichiError::new(106, "Wrong representation of tile color!")),
        }
    }

    pub fn to_char(&self) -> (c: char)
        ensures
            c == self.spec_char(),
    {
        match self {
            TileColor::Manzu => 'm',
            TileColor::Pinzu => 'p',
            TileColor::Souzu => 's',
        }
    }

    /// The letter of the color, as a string.
    pub fn to_string(&self) -> (s: String)
        ensures
            s@ == seq![self.spec_char()],
    {
        let v = vec![self.to_char()];
        string_from_chars(&v)
    }
}

impl TileType {
    /// The id of a tile type: 1-9 manzu, 10-18 pinzu, 19-27 souzu, 28-31 winds, 32-34 dragons.
    pub open spec fn spec_id(self) -> int {
        match self {
            TileType::Number(n, c) => n + 9 * color_index(c),
            TileType::Wind(n) => n + 27,
            TileType::Dragon(n) => n + 27,
        }
    }

    /// The order of tile types: numbers by color then value, then winds, then dragons.
    pub open spec fn spec_key(self) -> int {
        match self {
            TileType::Number(n, c) => 65536 + (color_index(c) + 1) * 256 + n,
            TileType::Wind(n) => 2 * 65536 + n,
            TileType::Dragon(n) => 3 * 65536 + n,
        }
    }

    /// The letter of the type in hand notation.
    pub open spec fn spec_char(self) -> char {
        match self {
            TileType::Number(_, c) => c.spec_char(),
            _ => 'z',
        }
    }

    /// The type is a real tile: numbers 1-9, winds 1-4, dragons 5-7.
    pub open spec fn valid(self) -> bool {
        match self {
            TileType::Number(n, _) => 1 <= n <= 9,
            TileType::Wind(n) => 1 <= n <= 4,
            TileType::Dragon(n) => 5 <= n <= 7,
        }
    }

    /// What `Tile::new` accepts.
    pub open spec fn constructible(self) -> bool {
        match self {
            TileType::Number(n, _) => n <= 9,
            TileType::Wind(n) => n <= 4,
            TileType::Dragon(n) => 5 <= n <= 7,
        }
    }

    pub fn to_char(&self) -> (c: char)
        ensures
            c == self.spec_char(),
    {
        match self {
            TileType::Number(_number, color) => color.to_char(),
            TileType::Wind(_number) => 'z',
            TileType::Dragon(_number) => 'z',
        }
    }
}

/// The tile type that has the given id (1-34).
pub open spec fn type_of_id(id: int) -> TileType {
    if id <= 9 {
        TileType::Number(id as u8, TileColor::Manzu)
    } else if id <= 18 {
        TileType::Number((id - 9) as u8, TileColor::Pinzu)
    } else if id <= 27 {
        TileType::Number((id - 18) as u8, TileColor::Souzu)
    } else if id <= 31 {
        TileType::Wind((id - 27) as u8)
    } else {
        TileType::Dragon((id - 27) as u8)
    }
}

pub proof fn lemma_type_of_id(id: int)
    requires
        1 <= id <= 34,
    ensures
        type_of_id(id).valid(),
        type_of_id(id).spec_id() == id,
{
}

/// For real tiles, the order of keys is the order of ids.
pub proof fn lemma_valid_key_id(a: TileType, b: TileType)
    requires
        a.valid(),
        b.valid(),
    ensures
        1 <= a.spec_id() <= 34,
        (a.spec_key() == b.spec_key()) <==> (a.spec_id() == b.spec_id()),
        (a.spec_key() < b.spec_key()) <==> (a.spec_id() < b.spec_id()),
        a.spec_id() == b.spec_id() ==> a == b,
        type_of_id(a.spec_id()) == a,
{
}

#[derive(Debug, Clone, Copy)]
pub struct Tile {
    pub tile_type: TileType,
    pub is_red: bool,
    pub is_open: bool,
    pub is_draw: bool,
    pub is_chi: bool,
    pub is_pon: bool,
    pub called_from: u8,
    pub is_kan: bool,
    pub is_riichi: bool,
    pub is_tsumogiri: bool,
    pub id_136: Option<u8>,
}

/// A tile of the given type with no flags set.
pub open spec fn blank(tile_type: TileType) -> Tile {
    Tile {
        tile_type,
        is_red: false,
        is_open: false,
        is_draw: false,
        is_chi: false,
        is_pon: false,
        called_from: 0,
        is_kan: false,
        is_riichi: false,
        is_tsumogiri: false,
        id_136: None,
    }
}

/// The value (1 to 9) of a number tile's id.
pub open spec fn id_value(id: int) -> int {
    (id - 1) % 9 + 1
}

/// The id `depth` steps after `id` in order (0 for none). A number stays in its suit: past 9
/// there is none, but for dora, where the suit goes round (9 to 1). Honors have none but for
/// dora, where winds go round and dragons follow (a step past the red dragon goes back three
/// ids from it).
pub open spec fn next_id_spec(id: int, dora: bool, depth: int) -> int {
    if 1 <= id <= 27 {
        let v = id_value(id);
        if v + depth <= 9 {
            id + depth
        } else if dora {
            id - v + (v - 1 + depth) % 9 + 1
        } else {
            0
        }
    } else if 28 <= id <= 34 && dora {
        if id < 31 - (depth - 1) {
            id + depth
        } else if id == 31 {
            28 + (depth - 1)
        } else if id < 34 - (depth - 1) {
            id + depth
        } else if id == 34 {
            31 + (depth - 1)
        } else {
            0
        }
    } else {
        0
    }
}

/// The id `depth` steps before `id` in order (0 for none). A number stays in its suit: before
/// 1 there is none, but for dora, where the suit goes round (1 to 9). Honors have none but for
/// dora, where winds and dragons go round.
pub open spec fn prev_id_spec(id: int, dora: bool, depth: int) -> int {
    if 1 <= id <= 27 {
        let v = id_value(id);
        if v - depth >= 1 {
            id - depth
        } else if dora {
            id - v + (v - 1 - depth) % 9 + 1
        } else {
            0
        }
    } else if 28 <= id <= 34 && dora {
        if id > 28 + depth - 1 && id < 32 {
            id - depth
        } else if id == 28 {
            31 - (depth - 1)
        } else if id > 32 + depth - 1 && id <= 34 {
            id - depth
        } else if id == 32 {
            34 - (depth - 1)
        } else {
            0
        }
    } else {
        0
    }
}

/// The tile that follows in order, as `Tile::next` gives it.
pub open spec fn next_spec(t: Tile, dora: bool) -> Option<Tile> {
    match t.tile_type {
        TileType::Number(n, c) => {
            if n < 9 {
                Some(blank(TileType::Number((n + 1) as u8, c)))
            } else if dora {
                Some(blank(TileType::Number(1, c)))
            } else {
                None
            }
        },
        TileType::Wind(n) => {
            if !dora {
                None
            } else if n < 4 {
                Some(blank(TileType::Wind((n + 1) as u8)))
            } else {
                Some(blank(TileType::Wind(1)))
            }
        },
        TileType::Dragon(n) => {
            if !dora {
                None
            } else if n < 7 {
                Some(blank(TileType::Dragon((n + 1) as u8)))
            } else {
                Some(blank(TileType::Dragon(5)))
            }
        },
    }
}

/// The digits and letter of a tile in hand notation (a red five is written as 0).
pub open spec fn tile_notation(t: Tile) -> Seq<char> {
    match t.tile_type {
        TileType::Number(n, c) => if t.is_red {
            seq!['0', c.spec_char()]
        } else {
            decimal(n as nat) + seq![c.spec_char()]
        },
        TileType::Wind(n) => decimal(n as nat) + seq!['z'],
        TileType::Dragon(n) => decimal(n as nat) + seq!['z'],
    }
}

/// The outcome of reading a two-character tile; errors are given by their code.
pub open spec fn tile_from_chars(s: Seq<char>) -> Result<Tile, u16> {
    let d = digit_value(s[0]).unwrap();
    let c = s[1];
    if c == 'm' || c == 'p' || c == 's' {
        let color = if c == 'm' {
            TileColor::Manzu
        } else if c == 'p' {
            TileColor::Pinzu
        } else {
            TileColor::Souzu
        };
        if d == 0 {
            Ok(Tile { is_red: true, ..blank(TileType::Number(5, color)) })
        } else {
            Ok(blank(TileType::Number(d as u8, color)))
        }
    } else if c == 'z' {
        if 0 < d <= 4 {
            Ok(blank(TileType::Wind(d as u8)))
        } else if 4 < d <= 7 {
            Ok(blank(TileType::Dragon(d as u8)))
        } else {
            Err(103)
        }
    } else {
        Err(104)
    }
}

/// What `Tile::from_text` needs not to panic: a two-byte text is two characters, the first a digit.
pub open spec fn tile_text_readable(s: &str) -> bool {
    s.spec_bytes().len() == 2 ==> (s@.len() == 2 && digit_value(s@[0]) is Some)
}

impl Tile {
    pub open spec fn spec_id(self) -> int {
        self.tile_type.spec_id()
    }

    pub open spec fn spec_key(self) -> int {
        self.tile_type.spec_key()
    }

    pub open spec fn valid(self) -> bool {
        self.tile_type.valid()
    }

    pub open spec fn spec_value(self) -> int {
        match self.tile_type {
            TileType::Number(n, _) => if self.is_red { 0 } else { n as int },
            TileType::Wind(n) => n as int,
            TileType::Dragon(n) => n as int,
        }
    }

    pub open spec fn spec_is_terminal(self) -> bool {
        match self.tile_type {
            TileType::Number(n, _) => n == 1 || n == 9,
            _ => false,
        }
    }

    pub open spec fn spec_is_honor(self) -> bool {
        !(self.tile_type is Number)
    }

    pub fn new(tile_type: TileType) -> (t: Tile)
        requires
            tile_type.constructible(),
        ensures
            t == blank(tile_type),
    {
        Tile {
            tile_type,
            is_red: false,
            is_open: false,
            is_draw: false,
            is_chi: false,
            is_pon: false,
            called_from: 0,
            is_kan: false,
            is_riichi: false,
            is_tsumogiri: false,
            id_136: None,
        }
    }

    pub fn from_text(representation: &str) -> (r: Result<Tile, RiichiError>)
        requires
            tile_text_readable(representation),
        ensures
            representation.spec_bytes().len() != 2 ==> (r matches Err(e) && e.code == 105
                && e.message@ == "Tile length must be 2"@),
            representation.spec_bytes().len() == 2 ==> match tile_from_chars(representation@) {
                Ok(t) => r == Ok::<Tile, RiichiError>(t),
                Err(code) => r matches Err(e) && e.code == code,
            },
            r matches Err(e) ==> (e.code == 103 ==> e.message@ == "Wrong number for honors!"@),
            r matches Err(e) ==> (e.code == 104 ==> e.message@ == "Invalid tile definition"@),
    {
        if representation.as_bytes().len() != 2 {
            return Err(RiichiError::new(105, "Tile length must be 2"));
        }
        let first_char = representation.get_char(0);
        let second_char = representation.get_char(1);
        Tile::from_chars(first_char, second_char)
    }

    /// Reads a tile from its digit and its letter.
    pub fn from_chars(first_char: char, second_char: char) -> (r: Result<Tile, RiichiError>)
        requires
            digit_value(first_char) is Some,
        ensures
            match tile_from_chars(seq![first_char, second_char]) {
                Ok(t) => r == Ok::<Tile, RiichiError>(t),
                Err(code) => r matches Err(e) && e.code == code,
            },
            r matches Err(e) ==> (e.code == 103 ==> e.message@ == "Wrong number for honors!"@),
            r matches Err(e) ==> (e.code == 104 ==> e.message@ == "Invalid tile definition"@),
    {
        let mut number = from_digit_char(first_char).unwrap();
        if second_char == 'm' || second_char == 'p' || second_char == 's' {
            let color: TileColor;
            if second_char == 'm' {
                color = TileColor::Manzu;
            } else if second_char == 'p' {
                color = TileColor::Pinzu;
            } else {
                color = TileColor::Souzu;
            }
            // red fives are represented by a 0
            let mut is_red = false;
            if number == 0 {
                number = 5;
                is_red = true;
            }
            let mut new_tile = Tile::new(TileType::Number(number, color));
            new_tile.is_red = is_red;
            Ok(new_tile)
        } else if second_char == 'z' {
            if number > 0 && number <= 4 {
                // winds
                Ok(Tile::new(TileType::Wind(number)))
            } else if number > 4 && number <= 7 {
                // dragons
                Ok(Tile::new(TileType::Dragon(number)))
            } else {
                Err(RiichiError::new(103, "Wrong number for honors!"))
            }
        } else {
            Err(RiichiError::new(104, "Invalid tile definition"))
        }
    }

    /// id is an integer value > 0 of a tile.
    /// The order is Manzu - Pinzu - Souzu - Winds - Dragons
    pub fn from_id(id: u8) -> (r: Result<Tile, RiichiError>)
        ensures
            1 <= id <= 34 ==> r == Ok::<Tile, RiichiError>(blank(type_of_id(id as int))),
            !(1 <= id <= 34) ==> (r matches Err(e) && e.code == 107
                && e.message@ == "Wrong tile ID "@ + decimal(id as nat)),
    {
        if !(1 <= id && id <= 34) {
            let mut v: Vec<char> = crate::riichi::text::chars_of("Wrong tile ID ");
            push_decimal(&mut v, id as u32);
            let message = string_from_chars(&v);
            return Err(RiichiError { code: 107, message });
        }
        if id <= 9 {
            return Ok(Tile::new(TileType::Number(id, TileColor::Manzu)));
        }
        if id <= 18 {
            return Ok(Tile::new(TileType::Number(id - 9, TileColor::Pinzu)));
        }
        if id <= 27 {
            return Ok(Tile::new(TileType::Number(id - 18, TileColor::Souzu)));
        }
        if id <= 31 {
            return Ok(Tile::new(TileType::Wind(id - 27)));
        }
        Ok(Tile::new(TileType::Dragon(id - 27)))
    }

    /// Gets the id of this tile based on its type
    pub fn to_id(&self) -> (id: u8)
        requires
            self.spec_id() <= 255,
        ensures
            id == self.spec_id(),
    {
        match &self.tile_type {
            TileType::Number(number, color) => match color {
                TileColor::Manzu => *number,
                TileColor::Pinzu => number + 9,
                TileColor::Souzu => number + 18,
            },
            TileType::Wind(number) => number + 27,
            TileType::Dragon(number) => number + 27,
        }
    }

    /// Some algorithms use ids starting from 0
    pub fn to_id_minus_1(&self) -> (id: u8)
        requires
            1 <= self.spec_id() <= 255,
        ensures
            id == self.spec_id() - 1,
    {
        self.to_id() - 1
    }

    /// Returns an ID of the next tile in order.
    pub fn next_id(&self, dora: bool, depth: u8) -> (r: u8)
        requires
            self.spec_id() <= 255,
            1 <= depth <= 10,
        ensures
            r == next_id_spec(self.spec_id(), dora, depth as int),
    {
        let id = self.to_id();
        if 1 <= id && id <= 27 {
            let v = (id - 1) % 9 + 1;
            if v + depth <= 9 {
                return id + depth;
            }
            if dora {
                // the suit goes round
                return id - v + (v - 1 + depth) % 9 + 1;
            }
            return 0;
        }
        // honors
        if 28 <= id && id <= 34 && dora {
            if id < 31 - (depth - 1) {
                // winds
                return id + depth;
            } else if id == 31 {
                return 28 + (depth - 1);
            } else if id < 34 - (depth - 1) {
                // dragons
                return id + depth;
            } else if id == 34 {
                return 31 + (depth - 1);
            }
        }
        0
    }

    /// Returns an ID of the previous tile in order.
    pub fn prev_id(&self, dora: bool, depth: u8) -> (r: u8)
        requires
            self.spec_id() <= 255,
            1 <= depth <= 10,
        ensures
            r == prev_id_spec(self.spec_id(), dora, depth as int),
    {
        let id = self.to_id();
        if 1 <= id && id <= 27 {
            let v = (id - 1) % 9 + 1;
            if v > depth {
                return id - depth;
            }
            if dora {
                // the suit goes round
                let r = id - v + (v - 1 + 18 - depth) % 9 + 1;
                assert((v - 1 + 18 - depth) as int % 9 == (v - 1 - depth) as int % 9);
                return r;
            }
            return 0;
        }
        // honors
        if 28 <= id && id <= 34 && dora {
            if id > 28 + depth - 1 && id < 32 {
                return id - depth;
            } else if id == 28 {
                return 31 - (depth - 1);
            } else if id > 32 + depth - 1 && id <= 34 {
                return id - depth;
            } else if id == 32 {
                return 34 - (depth - 1);
            }
        }
        0
    }

    /// 1-8 returns the next number
    /// 9 returns None for dora = false, 1 for dora = true
    /// honors return None for dora = false, honor order for dora = true
    pub fn next(&self, dora: bool) -> (r: Option<Tile>)
        requires
            !(dora && (self.tile_type matches TileType::Dragon(n) && n < 4)),
        ensures
            r == next_spec(*self, dora),
    {
        match &self.tile_type {
            TileType::Number(number, color) => {
                let new_color = *color;
                if *number < 9 {
                    Some(Tile::new(TileType::Number(number + 1, new_color)))
                } else if dora {
                    Some(Tile::new(TileType::Number(1, new_color)))
                } else {
                    None
                }
            },
            TileType::Wind(number) => {
                if !dora {
                    return None;
                }
                if *number < 4 {
                    Some(Tile::new(TileType::Wind(number + 1)))
                } else {
                    Some(Tile::new(TileType::Wind(1)))
                }
            },
            TileType::Dragon(number) => {
                if !dora {
                    return None;
                }
                if *number < 7 {
                    Some(Tile::new(TileType::Dragon(number + 1)))
                } else {
                    Some(Tile::new(TileType::Dragon(5)))
                }
            },
        }
    }

    pub fn prev(&self) -> (r: Option<Tile>)
        requires
            !(self.tile_type matches TileType::Number(n, _) && n > 10),
        ensures
            r == match self.tile_type {
                TileType::Number(n, c) => if n > 1 {
                    Some(blank(TileType::Number((n - 1) as u8, c)))
                } else {
                    None
                },
                _ => None,
            },
    {
        match &self.tile_type {
            TileType::Number(number, color) => {
                let new_color = *color;
                if *number > 1 {
                    Some(Tile::new(TileType::Number(number - 1, new_color)))
                } else {
                    None
                }
            },
            _ => None,
        }
    }

    pub fn is_terminal(&self) -> (r: bool)
        ensures
            r == self.spec_is_terminal(),
    {
        match &self.tile_type {
            TileType::Number(number, _color) => *number == 1 || *number == 9,
            TileType::Wind(_) | TileType::Dragon(_) => false,
        }
    }

    pub fn is_honor(&self) -> (r: bool)
        ensures
            r == self.spec_is_honor(),
    {
        match &self.tile_type {
            TileType::Number(_, _) => false,
            TileType::Wind(_) | TileType::Dragon(_) => true,
        }
    }

    pub fn is_terminal_or_honor(&self) -> (r: bool)
        ensures
            r == (self.spec_is_terminal() || self.spec_is_honor()),
    {
        self.is_terminal() || self.is_honor()
    }

    pub fn get_type_char(&self) -> (c: char)
        ensures
            c == self.tile_type.spec_char(),
    {
        match &self.tile_type {
            TileType::Number(_number, color) => color.to_char(),
            TileType::Wind(_number) => 'z',
            TileType::Dragon(_number) => 'z',
        }
    }

    pub fn get_value(&self) -> (v: u8)
        ensures
            v == self.spec_value(),
    {
        match &self.tile_type {
            TileType::Number(number, _color) => {
                if self.is_red {
                    return 0;
                }
                *number
            },
            TileType::Wind(number) => *number,
            TileType::Dragon(number) => *number,
        }
    }

    /// The position of this tile's type in the order of tile types.
    pub fn ord_key(&self) -> (k: u32)
        ensures
            k == self.spec_key(),
    {
        match &self.tile_type {
            TileType::Number(number, color) => {
                let c: u32 = match color {
                    TileColor::Manzu => 1,
                    TileColor::Pinzu => 2,
                    TileColor::Souzu => 3,
                };
                65536 + c * 256 + *number as u32
            },
            TileType::Wind(number) => 2 * 65536 + *number as u32,
            TileType::Dragon(number) => 3 * 65536 + *number as u32,
        }
    }

    /// Appends the notation of this tile to `out`.
    pub fn push_notation(&self, out: &mut Vec<char>)
        ensures
            final(out)@ == old(out)@ + tile_notation(*self),
    {
        match &self.tile_type {
            TileType::Number(number, color) => {
                if self.is_red {
                    out.push('0');
                } else {
                    push_decimal(out, *number as u32);
                }
                out.push(color.to_char());
            },
            TileType::Wind(number) => {
                push_decimal(out, *number as u32);
                out.push('z');
            },
            TileType::Dragon(number) => {
                push_decimal(out, *number as u32);
                out.push('z');
            },
        }
        assert(final(out)@ =~= old(out)@ + tile_notation(*self));
    }

    /// The notation of this tile, as it is displayed.
    pub fn to_string(&self) -> (s: String)
        ensures
            s@ == tile_notation(*self),
    {
        let mut v: Vec<char> = Vec::new();
        self.push_notation(&mut v);
        string_from_chars(&v)
    }
}

impl Default for Tile {
    fn default() -> (t: Tile)
        ensures
            t == blank(TileType::Dragon(1)),
    {
        Tile {
            tile_type: TileType::Dragon(1),
            is_red: false,
            is_draw: false,
            is_open: false,
            is_chi: false,
            is_pon: false,
            called_from: 0,
            is_kan: false,
            is_riichi: false,
            is_tsumogiri: false,
            id_136: None,
        }
    }
}

impl PartialEq for Tile {
    fn eq(&self, other: &Tile) -> (r: bool) {
        self.ord_key() == other.ord_key()
    }
}

impl vstd::std_specs::cmp::PartialEqSpecImpl for Tile {
    open spec fn obeys_eq_spec() -> bool {
        true
    }

    open spec fn eq_spec(&self, other: &Tile) -> bool {
        self.spec_key() == other.spec_key()
    }
}

} // verus!
