use vstd::prelude::*;
use super::tile::{Tile, TileType, tile_notation, next_spec, blank};
use crate::riichi::riichi_error::RiichiError;
use crate::riichi::text::{decimal, push_decimal, string_from_chars};

verus! {

/// A hand consists of shapes.
/// A tenpai hand has (usually) only 1 incomplete shape.
/// Exceptions are for example 23456 wait, where you can either have 234 (complete) & 56 (incomplete), or 23 (incomplete) and 456 (complete)
/// Or, shanpon wait (1155 = 11 pair 55 incomplete, or 11 incomplete 55 pair)
/// Or, 13-sided kokushi, or 9-sided nine gates
#[derive(Debug, Clone, Copy)]
pub struct Shape {
    pub shape_type: ShapeType,
    pub tile_count: u8,
    pub is_open: bool,
}

#[derive(Debug, Clone, Copy)]
pub enum ShapeType {
    Complete(CompleteShape),
    Incomplete(ClosedShape, Tile),
}

#[derive(Debug, Clone, Copy)]
pub enum CompleteShape {
    Closed(ClosedShape),
    Open(OpenShape),
}

#[derive(Debug, Clone, Copy)]
pub enum ClosedShape {
    // meld
    Shuntsu([Tile; 3]),
    // triplet
    Koutsu([Tile; 3]),
    // kan
    Kantsu([Tile; 4]),
    // pair
    Toitsu([Tile; 2]),
    Single(Tile),
}

#[derive(Debug, Clone, Copy)]
pub enum OpenShape {
    Chi([Tile; 3]),
    Pon([Tile; 3]),
    Kan(OpenKan),
}

/// An open kan: called from a discard (daiminkan) or added to a pon (shouminkan).
#[derive(Debug, Clone, Copy)]
pub enum OpenKan {
    Daiminkan([Tile; 4]),
    Shouminkan([Tile; 4]),
}

impl OpenKan {
    pub open spec fn spec_tiles(self) -> [Tile; 4] {
        match self {
            OpenKan::Daiminkan(t) => t,
            OpenKan::Shouminkan(t) => t,
        }
    }

    /// The four tiles of the kan.
    pub fn tiles(&self) -> (t: [Tile; 4])
        ensures
            t == self.spec_tiles(),
    {
        match self {
            OpenKan::Daiminkan(t) => *t,
            OpenKan::Shouminkan(t) => *t,
        }
    }
}

/// The notation of some tiles, one after another.
pub open spec fn tiles_notation(tiles: Seq<Tile>) -> Seq<char>
    decreases tiles.len(),
{
    if tiles.len() == 0 {
        seq![]
    } else {
        tiles_notation(tiles.drop_last()) + tile_notation(tiles.last())
    }
}

/// The index of the first tile that was called from another player (0 if none was).
pub open spec fn called_index(tiles: Seq<Tile>) -> int
    decreases tiles.len(),
{
    if tiles.len() == 0 {
        0
    } else if tiles[0].called_from != 0 {
        0
    } else if exists|i: int| 1 <= i < tiles.len() && tiles[i].called_from != 0 {
        1 + called_index(tiles.drop_first())
    } else {
        0
    }
}

/// The notation of a called triplet or quad: the letter, the first tile's value and color,
/// the player it was called from and `r` when the called tile is the first (red) one.
pub open spec fn call_notation(letter: char, tiles: Seq<Tile>) -> Seq<char> {
    let i = called_index(tiles);
    let t0 = tiles[0];
    seq!['(', letter] + decimal(t0.spec_value() as nat) + seq![t0.tile_type.spec_char()] + (
    if tiles[i].called_from != 0 {
        decimal(tiles[i].called_from as nat)
    } else {
        seq![]
    }) + (if i == 0 && t0.called_from != 0 && t0.is_red {
        seq!['r']
    } else {
        seq![]
    }) + seq![')']
}

/// The notation of a chi: the three values, the color and the index of the called tile.
pub open spec fn chi_notation(tiles: Seq<Tile>) -> Seq<char> {
    seq!['('] + decimal(tiles[0].spec_value() as nat) + decimal(tiles[1].spec_value() as nat)
        + decimal(tiles[2].spec_value() as nat) + seq![tiles[0].tile_type.spec_char()] + decimal(
        called_index(tiles) as nat,
    ) + seq![')']
}

/// The notation of a closed kan: `(k` + value + color + `)`.
pub open spec fn closed_kan_notation(tiles: Seq<Tile>) -> Seq<char> {
    seq!['(', 'k'] + decimal(tiles[0].spec_value() as nat) + seq![tiles[0].tile_type.spec_char(), ')']
}

/// The notation of a closed shape: its tiles one after another.
pub open spec fn closed_notation(c: ClosedShape) -> Seq<char> {
    match c {
        ClosedShape::Shuntsu(t) => tiles_notation(t@),
        ClosedShape::Koutsu(t) => tiles_notation(t@),
        ClosedShape::Kantsu(t) => tiles_notation(t@),
        ClosedShape::Toitsu(t) => tiles_notation(t@),
        ClosedShape::Single(t) => tile_notation(t),
    }
}

/// The notation of a call: its tiles one after another.
pub open spec fn open_notation(o: OpenShape) -> Seq<char> {
    match o {
        OpenShape::Chi(t) => tiles_notation(t@),
        OpenShape::Pon(t) => tiles_notation(t@),
        OpenShape::Kan(k) => tiles_notation(k.spec_tiles()@),
    }
}

/// A call in hand notation: in brackets, as `call_notation` and `chi_notation` write it.
pub open spec fn call_text(o: OpenShape) -> Seq<char> {
    match o {
        OpenShape::Chi(t) => chi_notation(t@),
        OpenShape::Pon(t) => call_notation('p', t@),
        OpenShape::Kan(OpenKan::Daiminkan(t)) => call_notation('k', t@),
        OpenShape::Kan(OpenKan::Shouminkan(t)) => call_notation('s', t@),
    }
}

/// The notation of a shape.
pub open spec fn shape_notation(s: Shape) -> Seq<char> {
    match s.shape_type {
        ShapeType::Complete(CompleteShape::Closed(c)) => closed_notation(c),
        ShapeType::Complete(CompleteShape::Open(o)) => open_notation(o),
        ShapeType::Incomplete(c, missing) => closed_notation(c) + tile_notation(missing),
    }
}

/// Are these two tile ids in a shape together?
pub open spec fn in_shape(first: int, second: int) -> bool {
    if first == second {
        true
    } else if first > 27 || second > 27 {
        false
    } else {
        let fc = if first <= 9 { 1int } else if first <= 18 { 2int } else { 3int };
        let sc = if second <= 9 { 1int } else if second <= 18 { 2int } else { 3int };
        fc == sc && -2 <= first - second <= 2
    }
}

/// The number of tiles `from_tiles` counts: the length, kept to a byte.
pub open spec fn byte_count(tiles: Seq<Tile>) -> int {
    tiles.len() as int % 256
}

/// Each neighbouring pair of the first `n` tiles is in a shape.
pub open spec fn neighbours_in_shape(tiles: Seq<Tile>, n: int) -> bool {
    forall|j: int| 0 <= j < n - 1 ==> in_shape(#[trigger] tiles[j].spec_id(), tiles[j + 1].spec_id())
}

/// What `from_tiles` needs not to panic: every pair of tiles it compares has real ids.
pub open spec fn from_tiles_readable(tiles: Seq<Tile>) -> bool {
    let n = byte_count(tiles);
    1 <= n <= 4 ==> forall|i: int|
        0 <= i < n - 1 && neighbours_in_shape(tiles, i) ==> (1 <= #[trigger] tiles[i].spec_id() <= 34
            && 1 <= tiles[i + 1].spec_id() <= 34)
}

/// Three equal tiles make a triplet (a pon when open); anything else is code 122.
pub open spec fn koutsu_spec(t1: Tile, t2: Tile, t3: Tile, is_open: bool) -> Result<Shape, u16> {
    if t1.spec_key() == t2.spec_key() && t2.spec_key() == t3.spec_key() {
        Ok(
            Shape {
                shape_type: if is_open {
                    ShapeType::Complete(CompleteShape::Open(OpenShape::Pon([t1, t2, t3])))
                } else {
                    ShapeType::Complete(CompleteShape::Closed(ClosedShape::Koutsu([t1, t2, t3])))
                },
                tile_count: 3,
                is_open,
            },
        )
    } else {
        Err(122)
    }
}

/// Three tiles: a run of numbers in one color, or a triplet.
pub open spec fn three_spec(t1: Tile, t2: Tile, t3: Tile, is_open: bool) -> Result<Shape, u16> {
    match t1.tile_type {
        TileType::Number(_, _) => match next_spec(t1, false) {
            None => koutsu_spec(t1, t2, t3, is_open),
            Some(n1) => match next_spec(t2, false) {
                None => koutsu_spec(t1, t2, t3, is_open),
                Some(n2) => if t2.spec_key() == n1.spec_key() && t3.spec_key() == n2.spec_key() {
                    Ok(
                        Shape {
                            shape_type: if is_open {
                                ShapeType::Complete(CompleteShape::Open(OpenShape::Chi([t1, t2, t3])))
                            } else {
                                ShapeType::Complete(CompleteShape::Closed(ClosedShape::Shuntsu([t1, t2, t3])))
                            },
                            tile_count: 3,
                            is_open,
                        },
                    )
                } else {
                    koutsu_spec(t1, t2, t3, is_open)
                },
            },
        },
        _ => koutsu_spec(t1, t2, t3, is_open),
    }
}

/// The shape that `from_tiles` makes of some tiles, or the code of its error.
pub open spec fn from_tiles_spec(tiles: Seq<Tile>, is_open: bool, only_complete: bool) -> Result<Shape, u16> {
    let n = byte_count(tiles);
    if n < 1 || n > 4 {
        Err(120)
    } else if !neighbours_in_shape(tiles, n) {
        Err(121)
    } else if n == 3 {
        three_spec(tiles[0], tiles[1], tiles[2], is_open)
    } else if n == 2 && !is_open {
        if tiles[0].spec_key() == tiles[1].spec_key() && only_complete {
            Ok(
                Shape {
                    shape_type: ShapeType::Complete(CompleteShape::Closed(ClosedShape::Toitsu([tiles[0], tiles[1]]))),
                    tile_count: 2,
                    is_open,
                },
            )
        } else {
            Err(124)
        }
    } else if n == 1 && !is_open && only_complete {
        Ok(
            Shape {
                shape_type: ShapeType::Complete(CompleteShape::Closed(ClosedShape::Single(tiles[0]))),
                tile_count: 1,
                is_open,
            },
        )
    } else {
        Err(124)
    }
}

/// The message of each error of `from_tiles`.
pub open spec fn shape_error_message(code: u16) -> Seq<char> {
    if code == 120 {
        "Not a valid shape - wrong tile count"@
    } else if code == 121 {
        "Not a valid shape - tiles are not relevant to each other"@
    } else if code == 122 {
        "Bad shape"@
    } else {
        "No suitable shape found"@
    }
}

/// Appends the notation of some tiles.
pub fn push_tiles_notation(out: &mut Vec<char>, tiles: &[Tile])
    ensures
        final(out)@ == old(out)@ + tiles_notation(tiles@),
{
    let mut i: usize = 0;
    while i < tiles.len()
        invariant
            i <= tiles@.len(),
            out@ == old(out)@ + tiles_notation(tiles@.take(i as int)),
        decreases tiles.len() - i,
    {
        tiles[i].push_notation(out);
        assert(tiles@.take(i + 1).drop_last() =~= tiles@.take(i as int));
        i = i + 1;
    }
    assert(tiles@.take(i as int) =~= tiles@);
}

/// The index of the first called tile (0 if none was).
fn find_called(tiles: &[Tile]) -> (i: usize)
    ensures
        i == called_index(tiles@),
        tiles@.len() > 0 ==> i < tiles@.len(),
{
    let mut i: usize = 0;
    while i < tiles.len()
        invariant
            i <= tiles@.len(),
            forall|j: int| 0 <= j < i ==> tiles@[j].called_from == 0,
        decreases tiles.len() - i,
    {
        if tiles[i].called_from != 0 {
            proof { lemma_called_index_is_first(tiles@, i as int); }
            return i;
        }
        i = i + 1;
    }
    proof { lemma_called_index_none(tiles@); }
    0
}

proof fn lemma_called_index_is_first(tiles: Seq<Tile>, i: int)
    requires
        0 <= i < tiles.len(),
        tiles[i].called_from != 0,
        forall|j: int| 0 <= j < i ==> tiles[j].called_from == 0,
    ensures
        called_index(tiles) == i,
    decreases i,
{
    if i > 0 {
        let rest = tiles.drop_first();
        assert(tiles[i].called_from != 0 && 1 <= i < tiles.len());
        lemma_called_index_is_first(rest, i - 1);
    }
}

proof fn lemma_called_index_none(tiles: Seq<Tile>)
    requires
        forall|j: int| 0 <= j < tiles.len() ==> tiles[j].called_from == 0,
    ensures
        called_index(tiles) == 0,
{
    if tiles.len() > 0 {
        assert(!(exists|i: int| 1 <= i < tiles.len() && tiles[i].called_from != 0));
    }
}

fn push_call_notation(out: &mut Vec<char>, letter: char, tiles: &[Tile])
    requires
        tiles@.len() >= 1,
    ensures
        final(out)@ == old(out)@ + call_notation(letter, tiles@),
{
    let i = find_called(tiles);
    let t0 = tiles[0];
    out.push('(');
    out.push(letter);
    push_decimal(out, t0.get_value() as u32);
    out.push(t0.get_type_char());
    if tiles[i].called_from != 0 {
        push_decimal(out, tiles[i].called_from as u32);
    }
    if i == 0 && t0.called_from != 0 && t0.is_red {
        out.push('r');
    }
    out.push(')');
    assert(final(out)@ =~= old(out)@ + call_notation(letter, tiles@));
}

/// Appends the notation of a closed shape.
pub fn push_closed_notation(out: &mut Vec<char>, closed: &ClosedShape)
    ensures
        final(out)@ == old(out)@ + closed_notation(*closed),
{
    match closed {
        ClosedShape::Shuntsu(tiles) | ClosedShape::Koutsu(tiles) => push_tiles_notation(out, tiles),
        ClosedShape::Kantsu(tiles) => push_tiles_notation(out, tiles),
        ClosedShape::Toitsu(tiles) => push_tiles_notation(out, tiles),
        ClosedShape::Single(tile) => tile.push_notation(out),
    }
}

/// Appends the notation of a call.
pub fn push_open_notation(out: &mut Vec<char>, open: &OpenShape)
    ensures
        final(out)@ == old(out)@ + open_notation(*open),
{
    match open {
        OpenShape::Chi(tiles) | OpenShape::Pon(tiles) => push_tiles_notation(out, tiles),
        OpenShape::Kan(kan) => {
            let tiles = kan.tiles();
            push_tiles_notation(out, &tiles);
        },
    }
}

/// Appends a closed kan in hand notation.
pub fn push_closed_kan_notation(out: &mut Vec<char>, tiles: &[Tile; 4])
    ensures
        final(out)@ == old(out)@ + closed_kan_notation(tiles@),
{
    out.push('(');
    out.push('k');
    push_decimal(out, tiles[0].get_value() as u32);
    out.push(tiles[0].get_type_char());
    out.push(')');
    assert(final(out)@ =~= old(out)@ + closed_kan_notation(tiles@));
}

/// Appends a call in hand notation.
pub fn push_call_text(out: &mut Vec<char>, open: &OpenShape)
    ensures
        final(out)@ == old(out)@ + call_text(*open),
{
    match open {
        OpenShape::Chi(tiles) => {
            let i = find_called(tiles);
            out.push('(');
            push_decimal(out, tiles[0].get_value() as u32);
            push_decimal(out, tiles[1].get_value() as u32);
            push_decimal(out, tiles[2].get_value() as u32);
            out.push(tiles[0].get_type_char());
            push_decimal(out, i as u32);
            out.push(')');
            assert(final(out)@ =~= old(out)@ + call_text(*open));
        },
        OpenShape::Pon(tiles) => push_call_notation(out, 'p', tiles),
        OpenShape::Kan(OpenKan::Daiminkan(tiles)) => push_call_notation(out, 'k', tiles),
        OpenShape::Kan(OpenKan::Shouminkan(tiles)) => push_call_notation(out, 's', tiles),
    }
}

/// Appends the notation of a shape.
pub fn push_shape_notation(out: &mut Vec<char>, shape: &Shape)
    ensures
        final(out)@ == old(out)@ + shape_notation(*shape),
{
    match &shape.shape_type {
        ShapeType::Complete(CompleteShape::Closed(closed)) => push_closed_notation(out, closed),
        ShapeType::Complete(CompleteShape::Open(open)) => push_open_notation(out, open),
        ShapeType::Incomplete(closed, missing) => {
            push_closed_notation(out, closed);
            missing.push_notation(out);
            assert(final(out)@ =~= old(out)@ + shape_notation(*shape));
        },
    }
}

impl Shape {
    pub fn new(shape_type: ShapeType, tile_count: u8, is_open: bool) -> (s: Shape)
        ensures
            s == (Shape { shape_type, tile_count, is_open }),
    {
        Shape { shape_type, tile_count, is_open }
    }

    pub fn get_shape_type(&self) -> (t: &ShapeType)
        ensures
            *t == self.shape_type,
    {
        &self.shape_type
    }

    pub fn is_open(&self) -> (b: bool)
        ensures
            b == self.is_open,
    {
        self.is_open
    }

    /// The notation of this shape: its tiles one after another (and the missing tile last).
    pub fn to_string(&self) -> (s: String)
        ensures
            s@ == shape_notation(*self),
    {
        let mut v: Vec<char> = Vec::new();
        push_shape_notation(&mut v, self);
        string_from_chars(&v)
    }

    /// Creates a shape from the given tiles.
    pub fn from_tiles(tiles: &Vec<Tile>, is_open: bool, only_complete: bool) -> (r: Result<Shape, RiichiError>)
        requires
            from_tiles_readable(tiles@),
        ensures
            match from_tiles_spec(tiles@, is_open, only_complete) {
                Ok(s) => r == Ok::<Shape, RiichiError>(s),
                Err(code) => r matches Err(e) && e.code == code && e.message@ == shape_error_message(code),
            },
    {
        let shape_type: ShapeType;
        let tile_count: u8 = (tiles.len() % 256) as u8;
        if tile_count < 1 || tile_count > 4 {
            // 4 = kan?
            return Err(RiichiError::new(120, "Not a valid shape - wrong tile count"));
        }
        // is this a valid shape?
        let mut i: usize = 0;
        while i + 1 < tile_count as usize
            invariant
                tile_count as int == byte_count(tiles@),
                1 <= tile_count <= 4,
                i < tile_count,
                from_tiles_readable(tiles@),
                neighbours_in_shape(tiles@, i as int + 1),
            decreases tile_count - i,
        {
            if !Shape::are_in_shape(tiles[i].to_id(), tiles[i + 1].to_id()) {
                return Err(RiichiError::new(121, "Not a valid shape - tiles are not relevant to each other"));
            }
            assert(neighbours_in_shape(tiles@, i as int + 2)) by {
                assert forall|j: int| 0 <= j < i as int + 1 implies in_shape(#[trigger] tiles@[j].spec_id(), tiles@[j + 1].spec_id()) by {
                    if j < i {
                        assert(in_shape(tiles@[j].spec_id(), tiles@[j + 1].spec_id()));
                    }
                }
            }
            i = i + 1;
        }
        assert(neighbours_in_shape(tiles@, tile_count as int)) by {
            assert forall|j: int| 0 <= j < tile_count - 1 implies in_shape(#[trigger] tiles@[j].spec_id(), tiles@[j + 1].spec_id()) by {
                assert(0 <= j < i as int + 1 - 1);
            }
        }
        if tile_count == 3 {
            let tile_1 = &tiles[0];
            let tile_2 = &tiles[1];
            let tile_3 = &tiles[2];
            return match tile_1.tile_type {
                TileType::Number(_value, _) => match tile_1.next(false) {
                    None => Shape::koutsu_shape_type(tile_1, tile_2, tile_3, is_open),
                    Some(next_1) => match tile_2.next(false) {
                        None => Shape::koutsu_shape_type(tile_1, tile_2, tile_3, is_open),
                        Some(next_2) => {
                            if tile_2.eq(&next_1) && tile_3.eq(&next_2) {
                                if is_open {
                                    shape_type = ShapeType::Complete(CompleteShape::Open(OpenShape::Chi([*tile_1, *tile_2, *tile_3])));
                                } else {
                                    shape_type = ShapeType::Complete(CompleteShape::Closed(ClosedShape::Shuntsu([*tile_1, *tile_2, *tile_3])));
                                }
                                Ok(Shape::new(shape_type, tile_count, is_open))
                            } else {
                                Shape::koutsu_shape_type(tile_1, tile_2, tile_3, is_open)
                            }
                        },
                    },
                },
                TileType::Wind(_value) => Shape::koutsu_shape_type(tile_1, tile_2, tile_3, is_open),
                TileType::Dragon(_value) => Shape::koutsu_shape_type(tile_1, tile_2, tile_3, is_open),
            };
        } else if tile_count == 2 && !is_open {
            let tile_1 = &tiles[0];
            let tile_2 = &tiles[1];
            if tile_1.eq(tile_2) {
                if only_complete {
                    shape_type = ShapeType::Complete(CompleteShape::Closed(ClosedShape::Toitsu([*tile_1, *tile_2])));
                    return Ok(Shape::new(shape_type, tile_count, is_open));
                }
            }
        } else if tile_count == 1 && !is_open {
            let tile_1 = &tiles[0];
            if only_complete {
                shape_type = ShapeType::Complete(CompleteShape::Closed(ClosedShape::Single(*tile_1)));
                return Ok(Shape::new(shape_type, tile_count, is_open));
            }
        }
        Err(RiichiError::new(124, "No suitable shape found"))
    }

    fn koutsu_shape_type(tile_1: &Tile, tile_2: &Tile, tile_3: &Tile, is_open: bool) -> (r: Result<Shape, RiichiError>)
        ensures
            match koutsu_spec(*tile_1, *tile_2, *tile_3, is_open) {
                Ok(s) => r == Ok::<Shape, RiichiError>(s),
                Err(code) => r matches Err(e) && e.code == code && e.message@ == shape_error_message(code),
            },
    {
        if tile_1.eq(tile_2) && tile_2.eq(tile_3) {
            let shape_type;
            if is_open {
                shape_type = ShapeType::Complete(CompleteShape::Open(OpenShape::Pon([*tile_1, *tile_2, *tile_3])));
            } else {
                shape_type = ShapeType::Complete(CompleteShape::Closed(ClosedShape::Koutsu([*tile_1, *tile_2, *tile_3])));
            }
            return Ok(Shape::new(shape_type, 3, is_open));
        }
        Err(RiichiError::new(122, "Bad shape"))
    }

    /// Are these two tiles in a shape together?
    pub fn are_in_shape(first_tile_id: u8, second_tile_id: u8) -> (b: bool)
        requires
            1 <= first_tile_id <= 34,
            1 <= second_tile_id <= 34,
        ensures
            b == in_shape(first_tile_id as int, second_tile_id as int),
    {
        // they can be in a Toitsu or a Koutsu
        if first_tile_id == second_tile_id {
            return true;
        }
        // different honor tiles are never in a shape
        if first_tile_id > 27 || second_tile_id > 27 {
            return false;
        }
        // they are manzu, pinzu or souzu
        let first_color: u8;
        if first_tile_id <= 9 {
            first_color = 1;
        } else if first_tile_id <= 18 {
            first_color = 2;
        } else {
            first_color = 3;
        }
        let second_color: u8;
        if second_tile_id <= 9 {
            second_color = 1;
        } else if second_tile_id <= 18 {
            second_color = 2;
        } else {
            second_color = 3;
        }
        // shapes need tiles in the same color
        if first_color != second_color {
            return false;
        }
        let diff: i8 = first_tile_id as i8 - second_tile_id as i8;
        // too far away
        if diff > 2 || diff < -2 {
            return false;
        }
        true
    }
}

} // verus!
