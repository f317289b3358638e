use vstd::prelude::*;
use super::tile::{Tile, tile_notation};
use super::text::{decimal, push_decimal, string_from_chars};
use super::hand::Hand;
use super::shapes::{ClosedShape, CompleteShape, OpenShape, closed_kan_notation, call_text, push_closed_kan_notation, push_call_text};

verus! {

/// The first slot from `from` on holding a tile of this type, or -1.
pub open spec fn key_index(s: Seq<Option<Tile>>, key: int, from: int) -> int
    decreases s.len() - from,
{
    if from < 0 || from >= s.len() {
        -1
    } else if s[from] matches Some(t) && t.spec_key() == key {
        from
    } else {
        key_index(s, key, from + 1)
    }
}

/// The tiles a shape takes out of the closed part when the hand is written down.
pub open spec fn meld_tiles(c: CompleteShape) -> Seq<Tile> {
    match c {
        CompleteShape::Closed(ClosedShape::Kantsu(t)) => t@,
        CompleteShape::Closed(_) => seq![],
        CompleteShape::Open(OpenShape::Chi(t)) => t@,
        CompleteShape::Open(OpenShape::Pon(t)) => t@,
        CompleteShape::Open(OpenShape::Kan(k)) => k.spec_tiles()@,
    }
}

/// Removes, for each tile of a meld, the first slot of its type (the first slot where there is
/// none); `None` where a removal finds no slot at all.
pub open spec fn remove_meld(s: Seq<Option<Tile>>, meld: Seq<Tile>) -> Option<Seq<Option<Tile>>>
    decreases meld.len(),
{
    if meld.len() == 0 {
        Some(s)
    } else {
        match remove_meld(s, meld.drop_last()) {
            None => None,
            Some(s1) => if s1.len() == 0 {
                None
            } else {
                let i = key_index(s1, meld.last().spec_key(), 0);
                Some(s1.remove(if i < 0 { 0 } else { i }))
            },
        }
    }
}

/// Removes the melds of all shapes, one shape after the other.
pub open spec fn remove_melds(s: Seq<Option<Tile>>, shapes: Seq<CompleteShape>) -> Option<Seq<Option<Tile>>>
    decreases shapes.len(),
{
    if shapes.len() == 0 {
        Some(s)
    } else {
        match remove_melds(s, shapes.drop_last()) {
            None => None,
            Some(s1) => remove_meld(s1, meld_tiles(shapes.last())),
        }
    }
}

/// Writing the closed part: the text so far, the current color letter ('x' before the first
/// tile) and the last drawn tile seen.
pub open spec fn closed_state(s: Seq<Option<Tile>>) -> (Seq<char>, char, Option<Tile>)
    decreases s.len(),
{
    if s.len() == 0 {
        (seq![], 'x', None)
    } else {
        let (out, color, last) = closed_state(s.drop_last());
        match s.last() {
            None => (out, color, last),
            Some(t) => {
                let c = t.tile_type.spec_char();
                let out1 = if color != c && color != 'x' { out.push(color) } else { out };
                if t.is_draw {
                    (out1, c, Some(t))
                } else {
                    (out1 + decimal(t.spec_value() as nat), c, last)
                }
            },
        }
    }
}

/// The closed part in hand notation, the drawn tile written last.
pub open spec fn closed_part_notation(s: Seq<Option<Tile>>) -> Seq<char> {
    let (out, color, last) = closed_state(s);
    match last {
        Some(l) => if l.tile_type.spec_char() == color {
            out + decimal(l.spec_value() as nat) + seq![color]
        } else {
            out + seq![color] + tile_notation(l)
        },
        None => out.push(color),
    }
}

/// The notation of a shape of the hand: calls and closed kans in brackets, nothing for others.
pub open spec fn hand_shape_notation(c: CompleteShape) -> Seq<char> {
    match c {
        CompleteShape::Closed(ClosedShape::Kantsu(t)) => closed_kan_notation(t@),
        CompleteShape::Closed(_) => seq![],
        CompleteShape::Open(o) => call_text(o),
    }
}

/// The notations of the hand's shapes, one after another.
pub open spec fn shapes_notation(shapes: Seq<CompleteShape>) -> Seq<char>
    decreases shapes.len(),
{
    if shapes.len() == 0 {
        seq![]
    } else {
        shapes_notation(shapes.drop_last()) + hand_shape_notation(shapes.last())
    }
}

/// The hand in hand notation.
pub open spec fn hand_notation(tiles: Seq<Option<Tile>>, shapes: Seq<CompleteShape>) -> Seq<char> {
    closed_part_notation(remove_melds(tiles, shapes).unwrap()) + shapes_notation(shapes)
}

/// One tile as `to_vec_of_strings` writes it: its color letter, then its value.
pub open spec fn tile_string(t: Tile) -> Seq<char> {
    seq![t.tile_type.spec_char()] + decimal(t.spec_value() as nat)
}

/// The strings of the tiles that are written (all, or only the free ones), and the last drawn
/// one seen.
pub open spec fn strings_state(s: Seq<Option<Tile>>, no_shapes: bool) -> (Seq<Seq<char>>, Option<Seq<char>>)
    decreases s.len(),
{
    if s.len() == 0 {
        (seq![], None)
    } else {
        let (v, last) = strings_state(s.drop_last(), no_shapes);
        match s.last() {
            None => (v, last),
            Some(t) => if no_shapes && (t.is_open || t.is_kan) {
                (v, last)
            } else if t.is_draw {
                (v, Some(tile_string(t)))
            } else {
                (v.push(tile_string(t)), last)
            },
        }
    }
}

/// The tiles as strings, the drawn one last.
pub open spec fn tile_strings(s: Seq<Option<Tile>>, no_shapes: bool) -> Seq<Seq<char>> {
    let (v, last) = strings_state(s, no_shapes);
    match last {
        Some(l) => v.push(l),
        None => v,
    }
}

fn find_key(tiles: &Vec<Option<Tile>>, tile: &Tile) -> (r: usize)
    requires
        tiles@.len() > 0,
    ensures
        r == (if key_index(tiles@, tile.spec_key(), 0) < 0 { 0 } else { key_index(tiles@, tile.spec_key(), 0) }),
        r < tiles@.len(),
{
    let mut i: usize = 0;
    while i < tiles.len()
        invariant
            i <= tiles@.len(),
            key_index(tiles@, tile.spec_key(), 0) == key_index(tiles@, tile.spec_key(), i as int),
        decreases tiles.len() - i,
    {
        if let Some(t) = &tiles[i] {
            if t.ord_key() == tile.ord_key() {
                return i;
            }
        }
        i = i + 1;
    }
    0
}

fn remove_meld_from_tiles(meld: &[Tile], tiles: &mut Vec<Option<Tile>>)
    requires
        remove_meld(old(tiles)@, meld@) is Some,
    ensures
        final(tiles)@ == remove_meld(old(tiles)@, meld@).unwrap(),
{
    let ghost orig = tiles@;
    let mut k: usize = 0;
    while k < meld.len()
        invariant
            orig == old(tiles)@,
            k <= meld@.len(),
            remove_meld(orig, meld@) is Some,
            remove_meld(orig, meld@.take(k as int)) == Some(tiles@),
        decreases meld.len() - k,
    {
        proof {
            assert(meld@.take(k + 1).drop_last() =~= meld@.take(k as int));
            assert(meld@.take(k + 1).last() == meld@[k as int]);
            lemma_remove_meld_prefix(orig, meld@, k + 1);
        }
        let index = find_key(tiles, &meld[k]);
        tiles.remove(index);
        k = k + 1;
    }
    assert(meld@.take(k as int) =~= meld@);
}

proof fn lemma_remove_meld_prefix(s: Seq<Option<Tile>>, meld: Seq<Tile>, k: int)
    requires
        0 <= k <= meld.len(),
        remove_meld(s, meld) is Some,
    ensures
        remove_meld(s, meld.take(k)) is Some,
    decreases meld.len(),
{
    if k < meld.len() {
        assert(meld.drop_last().take(k) =~= meld.take(k));
        lemma_remove_meld_prefix(s, meld.drop_last(), k);
    } else {
        assert(meld.take(k) =~= meld);
    }
}

proof fn lemma_remove_melds_prefix(s: Seq<Option<Tile>>, shapes: Seq<CompleteShape>, k: int)
    requires
        0 <= k <= shapes.len(),
        remove_melds(s, shapes) is Some,
    ensures
        remove_melds(s, shapes.take(k)) is Some,
    decreases shapes.len(),
{
    if k < shapes.len() {
        assert(shapes.drop_last().take(k) =~= shapes.take(k));
        lemma_remove_melds_prefix(s, shapes.drop_last(), k);
    } else {
        assert(shapes.take(k) =~= shapes);
    }
}

/// Appends the notation of the closed part.
fn push_closed_part(out: &mut Vec<char>, tiles: &Vec<Option<Tile>>)
    ensures
        final(out)@ == old(out)@ + closed_part_notation(tiles@),
{
    let mut text: Vec<char> = Vec::new();
    let mut color: char = 'x';
    let mut last_tile: Option<Tile> = None;
    let mut i: usize = 0;
    while i < tiles.len()
        invariant
            i <= tiles@.len(),
            closed_state(tiles@.take(i as int)) == (text@, color, last_tile),
        decreases tiles.len() - i,
    {
        assert(tiles@.take(i + 1).drop_last() =~= tiles@.take(i as int));
        if let Some(tile) = &tiles[i] {
            let c = tile.get_type_char();
            if color != c {
                if color != 'x' {
                    text.push(color);
                }
                color = c;
            }
            if tile.is_draw {
                last_tile = Some(*tile);
            } else {
                push_decimal(&mut text, tile.get_value() as u32);
            }
        }
        i = i + 1;
    }
    assert(tiles@.take(i as int) =~= tiles@);
    let ghost before = out@;
    let mut k: usize = 0;
    while k < text.len()
        invariant
            k <= text@.len(),
            out@ == before + text@.take(k as int),
        decreases text.len() - k,
    {
        out.push(text[k]);
        k = k + 1;
        assert(out@ =~= before + text@.take(k as int));
    }
    assert(text@.take(k as int) =~= text@);
    match last_tile {
        Some(ltt) => {
            if ltt.get_type_char() == color {
                push_decimal(out, ltt.get_value() as u32);
                out.push(color);
            } else {
                out.push(color);
                ltt.push_notation(out);
            }
        },
        None => out.push(color),
    }
    assert(out@ =~= before + closed_part_notation(tiles@));
}

impl Hand {
    /// Renders the hand in hand notation: tiles as digits followed by their color letter
    /// (1234p), honors with z, a red five as 0, the drawn tile last, then the calls and closed
    /// kans in brackets, (123s2), (p1s1), (k2p3) and so on.
    pub fn convert_to_string(&self) -> (s: String)
        requires
            remove_melds(self.tiles@, self.shapes@) is Some,
        ensures
            s@ == hand_notation(self.tiles@, self.shapes@),
    {
        let mut tiles: Vec<Option<Tile>> = self.copy().tiles;
        let mut k: usize = 0;
        while k < self.shapes.len()
            invariant
                k <= self.shapes@.len(),
                remove_melds(self.tiles@, self.shapes@) is Some,
                remove_melds(self.tiles@, self.shapes@.take(k as int)) == Some(tiles@),
            decreases self.shapes.len() - k,
        {
            proof {
                assert(self.shapes@.take(k + 1).drop_last() =~= self.shapes@.take(k as int));
                assert(self.shapes@.take(k + 1).last() == self.shapes@[k as int]);
                lemma_remove_melds_prefix(self.tiles@, self.shapes@, k + 1);
            }
            match &self.shapes[k] {
                CompleteShape::Closed(ClosedShape::Kantsu(t)) => remove_meld_from_tiles(t, &mut tiles),
                CompleteShape::Closed(_) => {
                    assert(meld_tiles(self.shapes@[k as int]) =~= Seq::<Tile>::empty());
                },
                CompleteShape::Open(OpenShape::Chi(t)) => remove_meld_from_tiles(t, &mut tiles),
                CompleteShape::Open(OpenShape::Pon(t)) => remove_meld_from_tiles(t, &mut tiles),
                CompleteShape::Open(OpenShape::Kan(open_kan)) => {
                    let t = open_kan.tiles();
                    remove_meld_from_tiles(&t, &mut tiles);
                },
            }
            k = k + 1;
        }
        assert(self.shapes@.take(k as int) =~= self.shapes@);
        let mut out: Vec<char> = Vec::new();
        push_closed_part(&mut out, &tiles);
        let ghost base = out@;
        let mut j: usize = 0;
        while j < self.shapes.len()
            invariant
                j <= self.shapes@.len(),
                out@ == base + shapes_notation(self.shapes@.take(j as int)),
            decreases self.shapes.len() - j,
        {
            assert(self.shapes@.take(j + 1).drop_last() =~= self.shapes@.take(j as int));
            match &self.shapes[j] {
                CompleteShape::Closed(closed) => {
                    if let ClosedShape::Kantsu(tiles) = closed {
                        push_closed_kan_notation(&mut out, tiles);
                    }
                },
                CompleteShape::Open(open) => push_call_text(&mut out, open),
            }
            j = j + 1;
            assert(out@ =~= base + shapes_notation(self.shapes@.take(j as int)));
        }
        assert(self.shapes@.take(j as int) =~= self.shapes@);
        string_from_chars(&out)
    }

    /// The hand in hand notation (see `convert_to_string`).
    pub fn to_string(&self) -> (s: String)
        requires
            remove_melds(self.tiles@, self.shapes@) is Some,
        ensures
            s@ == hand_notation(self.tiles@, self.shapes@),
    {
        self.convert_to_string()
    }

    /// Returns the tiles of the hand as a vec of their string representations.
    /// Can be returned without open/closed shapes.
    pub fn to_vec_of_strings(&self, no_shapes: bool) -> (v: Vec<String>)
        ensures
            v@.len() == tile_strings(self.tiles@, no_shapes).len(),
            forall|i: int| 0 <= i < v@.len() ==> (#[trigger] v@[i])@ == tile_strings(self.tiles@, no_shapes)[i],
    {
        let mut tile_vec: Vec<String> = Vec::new();
        let mut last_tile: Option<String> = None;
        let mut i: usize = 0;
        while i < self.tiles.len()
            invariant
                i <= self.tiles@.len(),
                tile_vec@.len() == strings_state(self.tiles@.take(i as int), no_shapes).0.len(),
                forall|k: int| 0 <= k < tile_vec@.len() ==> (#[trigger] tile_vec@[k])@ == strings_state(self.tiles@.take(i as int), no_shapes).0[k],
                match strings_state(self.tiles@.take(i as int), no_shapes).1 {
                    Some(l) => last_tile matches Some(s) && s@ == l,
                    None => last_tile is None,
                },
            decreases self.tiles.len() - i,
        {
            assert(self.tiles@.take(i + 1).drop_last() =~= self.tiles@.take(i as int));
            if let Some(tile) = &self.tiles[i] {
                if !(no_shapes && (tile.is_open || tile.is_kan)) {
                    let mut chars: Vec<char> = Vec::new();
                    chars.push(tile.get_type_char());
                    push_decimal(&mut chars, tile.get_value() as u32);
                    assert(chars@ =~= tile_string(*tile));
                    let tile_string = string_from_chars(&chars);
                    if tile.is_draw {
                        last_tile = Some(tile_string);
                    } else {
                        tile_vec.push(tile_string);
                    }
                }
            }
            i = i + 1;
        }
        assert(self.tiles@.take(i as int) =~= self.tiles@);
        // tsumo tile will always be the last in the array
        match last_tile {
            Some(tile_repr) => tile_vec.push(tile_repr),
            None => {},
        }
        tile_vec
    }
}

} // verus!
