use vstd::prelude::*;
use super::tile::{Tile, TileType, tile_from_chars, blank};
use super::text::{digit_value, digit_char, from_digit_char, chars_of};
use super::tiles_seq::{sort_tiles, tiles_wf, insert_sorted, some_count, kan_count, lemma_counts_bounded};
use super::hand::{Hand, valid_hand, hand_size, open_marked, kan_marked};
use super::marking::{CallKind, mark_all, free_count, key_count, as_slots, all_free, lemma_mark_all_succeeds,
    lemma_free_count_concat, lemma_free_count_slots, lemma_free_count_sort};
use super::riichi_error::RiichiError;
use super::shapes::{ClosedShape, CompleteShape, OpenKan, OpenShape};

verus! {

/// A letter that names a color in hand notation.
pub open spec fn is_color_letter(c: char) -> bool {
    c == 'm' || c == 'p' || c == 's' || c == 'z'
}

/// A character of the closed part: a digit or a color letter.
pub open spec fn is_closed_char(c: char) -> bool {
    digit_value(c) is Some || is_color_letter(c)
}

/// A number color letter.
pub open spec fn is_suit_letter(c: char) -> bool {
    c == 'm' || c == 'p' || c == 's'
}

/// The end of the run of closed-part characters that starts at `i`.
pub open spec fn run_end(s: Seq<char>, i: int) -> int
    decreases s.len() - i,
{
    if 0 <= i < s.len() && is_closed_char(s[i]) {
        run_end(s, i + 1)
    } else {
        i
    }
}

/// `(XYZCN)`: three digits, a number color and the index 0-2 of the called tile.
pub open spec fn chi_match(s: Seq<char>, i: int) -> bool {
    &&& 0 <= i
    &&& i + 7 <= s.len()
    &&& s[i] == '('
    &&& digit_value(s[i + 1]) is Some
    &&& digit_value(s[i + 2]) is Some
    &&& digit_value(s[i + 3]) is Some
    &&& is_suit_letter(s[i + 4])
    &&& (s[i + 5] == '0' || s[i + 5] == '1' || s[i + 5] == '2')
    &&& s[i + 6] == ')'
}

/// A digit 1-3 naming a player.
pub open spec fn is_player_digit(c: char) -> bool {
    c == '1' || c == '2' || c == '3'
}

/// The length of `(pNCP)` or `(pNCPr)` at `i`, 0 where there is none.
pub open spec fn pon_len(s: Seq<char>, i: int) -> int {
    if 0 <= i && i + 5 <= s.len() && s[i] == '(' && s[i + 1] == 'p' && digit_value(s[i + 2]) is Some
        && is_color_letter(s[i + 3]) && is_player_digit(s[i + 4]) {
        if i + 6 <= s.len() && s[i + 5] == ')' {
            6
        } else if i + 7 <= s.len() && s[i + 5] == 'r' && s[i + 6] == ')' {
            7
        } else {
            0
        }
    } else {
        0
    }
}

/// The length of `(kNC)` with an optional player digit and an optional `r` (with `letter`
/// `k`, or `s` for an added kan) at `i`, 0 where there is none.
pub open spec fn kan_len(s: Seq<char>, i: int, letter: char) -> int {
    if 0 <= i && i + 4 <= s.len() && s[i] == '(' && s[i + 1] == letter && digit_value(s[i + 2]) is Some
        && is_color_letter(s[i + 3]) {
        let j1 = if i + 4 < s.len() && is_player_digit(s[i + 4]) { i + 5 } else { i + 4 };
        let j2 = if j1 < s.len() && s[j1] == 'r' { j1 + 1 } else { j1 };
        if j2 < s.len() && s[j2] == ')' {
            j2 - i + 1
        } else {
            0
        }
    } else {
        0
    }
}

/// The pieces of a hand text from `i` on, as the notation's pattern finds them, leftmost
/// first: a closed part (kind 0), a chi (1), a pon (2) or a kan (3), each with the text inside
/// its brackets; other characters are skipped.
pub open spec fn scan(s: Seq<char>, i: int) -> Seq<(int, Seq<char>)>
    decreases s.len() - i,
{
    if i < 0 || i >= s.len() {
        seq![]
    } else if is_closed_char(s[i]) {
        let e = run_end(s, i);
        proof {
            lemma_run_end(s, i);
        }
        seq![(0int, s.subrange(i, e))] + scan(s, e)
    } else if chi_match(s, i) {
        seq![(1int, s.subrange(i + 1, i + 6))] + scan(s, i + 7)
    } else if pon_len(s, i) > 0 {
        seq![(2int, s.subrange(i + 1, i + pon_len(s, i) - 1))] + scan(s, i + pon_len(s, i))
    } else if kan_len(s, i, 'k') > 0 {
        seq![(3int, s.subrange(i + 1, i + kan_len(s, i, 'k') - 1))] + scan(s, i + kan_len(s, i, 'k'))
    } else if kan_len(s, i, 's') > 0 {
        seq![(3int, s.subrange(i + 1, i + kan_len(s, i, 's') - 1))] + scan(s, i + kan_len(s, i, 's'))
    } else {
        scan(s, i + 1)
    }
}

pub proof fn lemma_run_end(s: Seq<char>, i: int)
    ensures
        i <= run_end(s, i),
        0 <= i ==> run_end(s, i) <= s.len() || run_end(s, i) == i,
        0 <= i < s.len() && is_closed_char(s[i]) ==> i < run_end(s, i) <= s.len(),
        forall|k: int| i <= k < run_end(s, i) ==> is_closed_char(#[trigger] s[k]),
    decreases s.len() - i,
{
    if 0 <= i < s.len() && is_closed_char(s[i]) {
        lemma_run_end(s, i + 1);
    }
}

/// A tile read from a digit and a color letter (any tile where they name none).
pub open spec fn tile_of(d: char, c: char) -> Tile {
    match tile_from_chars(seq![d, c]) {
        Ok(t) => t,
        Err(_) => blank(TileType::Dragon(5)),
    }
}

/// The `k`-th tile of a chi, marked as called when the last character names it.
pub open spec fn chi_tile(c: Seq<char>, k: int) -> Tile {
    let t = tile_of(c[k], c[3]);
    if c[4] == digit_char(k) {
        Tile { called_from: 3, ..t }
    } else {
        t
    }
}

/// What a chi text gives: its tiles and its shape, or the code of its error.
pub open spec fn parse_chi_spec(c: Seq<char>) -> Result<(Seq<Tile>, CompleteShape), u16> {
    if !(c[4] == '0' || c[4] == '1' || c[4] == '2') {
        Err(780)
    } else {
        let t1 = chi_tile(c, 0);
        let t2 = chi_tile(c, 1);
        let t3 = chi_tile(c, 2);
        Ok((seq![t1, t2, t3], CompleteShape::Open(OpenShape::Chi([t1, t2, t3]))))
    }
}

/// The red-five mark of a pon or kan text.
pub open spec fn red_mark(c: Seq<char>) -> bool {
    c.len() > 4 && c[4] == 'r'
}

/// The digit of the other tiles of a pon or kan (a red five's partners are plain fives).
pub open spec fn partner_digit(n: char) -> char {
    if n == '0' { '5' } else { n }
}

/// What a pon text gives.
pub open spec fn parse_pon_spec(c: Seq<char>) -> Result<(Seq<Tile>, CompleteShape), u16> {
    let n = c[1];
    let col = c[2];
    let p = digit_value(c[3]).unwrap();
    let r = red_mark(c);
    if n != '0' && r {
        Err(589)
    } else {
        let first = tile_of(n, col);
        let other = tile_of(partner_digit(n), col);
        let t1 = if r { Tile { called_from: p as u8, ..first } } else { first };
        let t2 = if r { other } else { Tile { called_from: p as u8, ..other } };
        Ok((seq![t1, t2, other], CompleteShape::Open(OpenShape::Pon([t1, t2, other]))))
    }
}

/// The player digit of a kan text (0 for a closed kan).
pub open spec fn kan_player(c: Seq<char>) -> int {
    if c.len() > 3 { digit_value(c[3]).unwrap() } else { 0 }
}

/// What a kan text gives.
pub open spec fn parse_kan_spec(c: Seq<char>) -> Result<(Seq<Tile>, CompleteShape), u16> {
    let n = c[1];
    let col = c[2];
    let p = kan_player(c);
    let r = red_mark(c);
    if n != '0' && r {
        Err(589)
    } else {
        let first = tile_of(n, col);
        let other = tile_of(partner_digit(n), col);
        if p > 0 {
            let t1 = if r { Tile { called_from: p as u8, ..first } } else { first };
            let t2 = if r { other } else { Tile { called_from: p as u8, ..other } };
            let tiles = [t1, t2, other, other];
            let kan = if c[0] == 's' { OpenKan::Shouminkan(tiles) } else { OpenKan::Daiminkan(tiles) };
            Ok((seq![t1, t2, other, other], CompleteShape::Open(OpenShape::Kan(kan))))
        } else {
            Ok((seq![first, other, other, other], CompleteShape::Closed(ClosedShape::Kantsu([first, other, other, other]))))
        }
    }
}

/// What a call piece gives.
pub open spec fn parse_call_spec(piece: (int, Seq<char>)) -> Result<(Seq<Tile>, CompleteShape), u16> {
    if piece.0 == 1 {
        parse_chi_spec(piece.1)
    } else if piece.0 == 2 {
        parse_pon_spec(piece.1)
    } else {
        parse_kan_spec(piece.1)
    }
}

/// A pon text that reads without a panic.
pub open spec fn pon_readable(c: Seq<char>) -> bool {
    !(c[1] != '0' && red_mark(c)) ==> (tile_from_chars(seq![c[1], c[2]]) is Ok
        && tile_from_chars(seq![partner_digit(c[1]), c[2]]) is Ok)
}

/// A kan text that reads without a panic.
pub open spec fn kan_readable(c: Seq<char>) -> bool {
    &&& c.len() > 3 ==> digit_value(c[3]) is Some
    &&& !(c[1] != '0' && red_mark(c)) ==> (tile_from_chars(seq![c[1], c[2]]) is Ok
        && tile_from_chars(seq![partner_digit(c[1]), c[2]]) is Ok)
}

/// A hand text whose calls all read without a panic (an honor call with digit 0, 8 or 9, or a
/// kan written with `r` but no player, stops the reading).
pub open spec fn hand_text_readable(s: Seq<char>) -> bool {
    forall|k: int| 0 <= k < scan(s, 0).len() ==> {
        let p = #[trigger] scan(s, 0)[k];
        &&& p.0 == 2 ==> pon_readable(p.1)
        &&& p.0 == 3 ==> kan_readable(p.1)
    }
}

/// The texts of the closed parts among the pieces.
pub open spec fn closed_texts(pieces: Seq<(int, Seq<char>)>) -> Seq<Seq<char>>
    decreases pieces.len(),
{
    if pieces.len() == 0 {
        seq![]
    } else {
        closed_texts(pieces.drop_last()) + if pieces.last().0 == 0 { seq![pieces.last().1] } else { seq![] }
    }
}

/// The tiles of the calls that read well, one call after the other.
pub open spec fn called_tiles(pieces: Seq<(int, Seq<char>)>) -> Seq<Tile>
    decreases pieces.len(),
{
    if pieces.len() == 0 {
        seq![]
    } else {
        called_tiles(pieces.drop_last()) + if pieces.last().0 != 0 && parse_call_spec(pieces.last()) is Ok {
            parse_call_spec(pieces.last()).unwrap().0
        } else {
            seq![]
        }
    }
}

/// The shapes of the calls that read well.
pub open spec fn called_shapes(pieces: Seq<(int, Seq<char>)>) -> Seq<CompleteShape>
    decreases pieces.len(),
{
    if pieces.len() == 0 {
        seq![]
    } else {
        called_shapes(pieces.drop_last()) + if pieces.last().0 != 0 && parse_call_spec(pieces.last()) is Ok {
            seq![parse_call_spec(pieces.last()).unwrap().1]
        } else {
            seq![]
        }
    }
}

/// Reading the closed part backwards from character `n`: the color letter in force and
/// whether the drawn tile (the last one written) has been found.
pub open spec fn closed_rec(c: Seq<char>, n: int, color: char, found: bool) -> Result<Seq<Option<Tile>>, u16>
    decreases n,
{
    if n <= 0 {
        Ok(seq![])
    } else {
        let ch = c[n - 1];
        let color2 = if is_color_letter(ch) { ch } else { color };
        if color2 != 'x' && digit_value(ch) is Some {
            match tile_from_chars(seq![ch, color2]) {
                Err(e) => Err(e),
                Ok(t) => {
                    let t2 = if !found { Tile { is_draw: true, ..t } } else { t };
                    match closed_rec(c, n - 1, color2, true) {
                        Ok(rest) => Ok(seq![Some(t2)] + rest),
                        Err(e) => Err(e),
                    }
                },
            }
        } else {
            closed_rec(c, n - 1, color2, found)
        }
    }
}

/// The tiles of a closed part: read from the back, each digit with the color letter after it;
/// the last tile written is the drawn one.
pub open spec fn parse_closed_spec(c: Seq<char>) -> Result<Seq<Option<Tile>>, u16> {
    closed_rec(c, c.len() as int, 'x', false)
}

/// Marks the calls of the shapes in the slots, one shape after the other.
pub open spec fn mark_shapes(s: Seq<Option<Tile>>, shapes: Seq<CompleteShape>) -> Option<Seq<Option<Tile>>>
    decreases shapes.len(),
{
    if shapes.len() == 0 {
        Some(s)
    } else {
        match mark_shapes(s, shapes.drop_last()) {
            None => None,
            Some(s1) => match shapes.last() {
                CompleteShape::Open(o) => open_marked(s1, o),
                CompleteShape::Closed(ClosedShape::Kantsu(t)) => kan_marked(s1, t),
                CompleteShape::Closed(_) => None,
            },
        }
    }
}

/// The slots of the hand a text describes, before the calls are marked.
pub open spec fn text_slots(closed: Seq<Option<Tile>>, pieces: Seq<(int, Seq<char>)>) -> Seq<Option<Tile>> {
    sort_tiles(closed + as_slots(called_tiles(pieces)))
}

/// What `Hand::from_text` gives: the hand's slots and shapes, or the code of its error.
pub open spec fn from_text_spec(s: Seq<char>, force_return: bool) -> Result<(Seq<Option<Tile>>, Seq<CompleteShape>), u16> {
    let pieces = scan(s, 0);
    let closed = closed_texts(pieces);
    if closed.len() != 1 {
        Err(333)
    } else {
        match parse_closed_spec(closed[0]) {
            Err(e) => Err(e),
            Ok(ct) => {
                let shapes = called_shapes(pieces);
                let tiles = mark_shapes(text_slots(ct, pieces), shapes).unwrap();
                if force_return || valid_hand(tiles) {
                    Ok((tiles, shapes))
                } else {
                    Err(100)
                }
            },
        }
    }
}


/// The inside of a chi's brackets as the pattern admits it.
pub open spec fn chi_text(c: Seq<char>) -> bool {
    &&& c.len() == 5
    &&& digit_value(c[0]) is Some
    &&& digit_value(c[1]) is Some
    &&& digit_value(c[2]) is Some
    &&& is_suit_letter(c[3])
}

/// The inside of a pon's brackets as the pattern admits it.
pub open spec fn pon_text(c: Seq<char>) -> bool {
    &&& c.len() == 4 || c.len() == 5
    &&& c[0] == 'p'
    &&& digit_value(c[1]) is Some
    &&& is_color_letter(c[2])
    &&& is_player_digit(c[3])
}

/// The inside of a kan's brackets as the pattern admits it.
pub open spec fn kan_text(c: Seq<char>) -> bool {
    &&& 3 <= c.len() <= 5
    &&& digit_value(c[1]) is Some
    &&& is_color_letter(c[2])
    &&& c.len() > 3 ==> is_player_digit(c[3]) || c[3] == 'r'
}

/// What a call gives is what its shape needs, free tiles of real types.
pub open spec fn call_result_ok(t: Seq<Tile>, sh: CompleteShape) -> bool {
    &&& t == shape_need(sh)
    &&& call_shape(sh)
    &&& forall|k: int| 0 <= k < t.len() ==> (#[trigger] t[k]).valid() && !t[k].is_open && !t[k].is_kan
}

/// The next piece at `i`: its kind (4 where the character is skipped), the bounds of its
/// text and where the scan goes on.
fn next_piece(v: &Vec<char>, i: usize) -> (r: (u8, usize, usize, usize))
    requires
        i < v@.len(),
    ensures
        i < r.3 <= v@.len(),
        r.0 <= 4,
        r.0 < 4 ==> r.1 <= r.2 <= v@.len() && scan(v@, i as int) == seq![(r.0 as int, v@.subrange(r.1 as int, r.2 as int))] + scan(v@, r.3 as int),
        r.0 == 4 ==> scan(v@, i as int) == scan(v@, r.3 as int),
        r.0 == 0 ==> forall|j: int| r.1 <= j < r.2 ==> is_closed_char(#[trigger] v@[j]),
        r.0 == 1 ==> chi_text(v@.subrange(r.1 as int, r.2 as int)),
        r.0 == 2 ==> pon_text(v@.subrange(r.1 as int, r.2 as int)),
        r.0 == 3 ==> kan_text(v@.subrange(r.1 as int, r.2 as int)),
{
    let n = v.len();
    if closed_char(v[i]) {
        let mut j: usize = i + 1;
        while j < n && closed_char(v[j])
            invariant
                n == v@.len(),
                i < j <= n,
                is_closed_char(v@[i as int]),
                run_end(v@, i as int) == run_end(v@, j as int),
                forall|k: int| i <= k < j ==> is_closed_char(#[trigger] v@[k]),
            decreases n - j,
        {
            j = j + 1;
        }
        assert(run_end(v@, j as int) == j);
        return (0, i, j, j);
    }
    if chi_at(v, i) {
        return (1, i + 1, i + 6, i + 7);
    }
    let pl = pon_at(v, i);
    if pl > 0 {
        return (2, i + 1, i + pl - 1, i + pl);
    }
    let kl = kan_at(v, i, 'k');
    if kl > 0 {
        return (3, i + 1, i + kl - 1, i + kl);
    }
    let sl = kan_at(v, i, 's');
    if sl > 0 {
        return (3, i + 1, i + sl - 1, i + sl);
    }
    (4, i, i, i + 1)
}

/// Reads a call piece of the given kind.
fn parse_call(kind: u8, content: &Vec<char>) -> (r: Result<(Vec<Tile>, CompleteShape), RiichiError>)
    requires
        1 <= kind <= 3,
        kind == 1 ==> chi_text(content@),
        kind == 2 ==> pon_text(content@) && pon_readable(content@),
        kind == 3 ==> kan_text(content@) && kan_readable(content@),
    ensures
        match parse_call_spec((kind as int, content@)) {
            Ok((t, sh)) => r matches Ok((v, sh2)) && v@ == t && sh2 == sh,
            Err(code) => r matches Err(e) && e.code == code,
        },
        r matches Ok((v, sh)) ==> call_result_ok(v@, sh),
{
    if kind == 1 {
        parse_chi(content)
    } else if kind == 2 {
        parse_pon(content)
    } else {
        parse_kan(content)
    }
}

/// The tiles a shape needs from the hand.
pub open spec fn shape_need(c: CompleteShape) -> Seq<Tile> {
    match c {
        CompleteShape::Open(o) => super::hand::open_call(o).0,
        CompleteShape::Closed(ClosedShape::Kantsu(t)) => t@,
        CompleteShape::Closed(_) => seq![],
    }
}

/// How many tiles of a type the shapes need together.
pub open spec fn demand(shapes: Seq<CompleteShape>, key: int) -> int
    decreases shapes.len(),
{
    if shapes.len() == 0 {
        0
    } else {
        demand(shapes.drop_last(), key) + key_count(shape_need(shapes.last()), key)
    }
}

/// A shape that a call of the notation makes.
pub open spec fn call_shape(c: CompleteShape) -> bool {
    c is Open || c matches CompleteShape::Closed(ClosedShape::Kantsu(_))
}

proof fn lemma_demand_prefix(shapes: Seq<CompleteShape>, k: int, key: int)
    requires
        0 <= k <= shapes.len(),
    ensures
        demand(shapes.take(k), key) <= demand(shapes, key),
    decreases shapes.len(),
{
    if k < shapes.len() {
        assert(shapes.drop_last().take(k) =~= shapes.take(k));
        lemma_demand_prefix(shapes.drop_last(), k, key);
        super::marking::lemma_key_count_nonneg(shape_need(shapes.last()), key);
    } else {
        assert(shapes.take(k) =~= shapes);
    }
}

proof fn lemma_insert_all_some_valid(s: Seq<Option<Tile>>, x: Option<Tile>)
    requires
        forall|i: int| 0 <= i < s.len() ==> (#[trigger] s[i] matches Some(t) && t.valid()),
        x matches Some(t) && t.valid(),
    ensures
        forall|i: int| 0 <= i < insert_sorted(s, x).len() ==> (#[trigger] insert_sorted(s, x)[i] matches Some(t) && t.valid()),
    decreases s.len(),
{
    super::tiles_seq::lemma_insert_len(s, x);
    if s.len() > 0 && super::tiles_seq::opt_key(s.last()) > super::tiles_seq::opt_key(x) {
        lemma_insert_all_some_valid(s.drop_last(), x);
        let r = insert_sorted(s.drop_last(), x);
        assert forall|i: int| 0 <= i < insert_sorted(s, x).len() implies (#[trigger] insert_sorted(s, x)[i] matches Some(t) && t.valid()) by {
            assert(insert_sorted(s, x) == r.push(s.last()));
            if i < r.len() {
                assert(insert_sorted(s, x)[i] == r[i]);
            } else {
                assert(s.last() == s[s.len() - 1]);
            }
        }
    } else if s.len() > 0 {
        assert forall|i: int| 0 <= i < insert_sorted(s, x).len() implies (#[trigger] insert_sorted(s, x)[i] matches Some(t) && t.valid()) by {
            assert(insert_sorted(s, x) == s.push(x));
        }
    }
}

proof fn lemma_sort_all_some_valid(s: Seq<Option<Tile>>)
    requires
        forall|i: int| 0 <= i < s.len() ==> (#[trigger] s[i] matches Some(t) && t.valid()),
    ensures
        forall|i: int| 0 <= i < sort_tiles(s).len() ==> (#[trigger] sort_tiles(s)[i] matches Some(t) && t.valid()),
        sort_tiles(s).len() == s.len(),
    decreases s.len(),
{
    super::tiles_seq::lemma_sort_len(s);
    if s.len() > 0 {
        let d = s.drop_last();
        assert forall|i: int| 0 <= i < d.len() implies (#[trigger] d[i] matches Some(t) && t.valid()) by {
            assert(d[i] == s[i]);
        }
        lemma_sort_all_some_valid(d);
        assert(s.last() == s[s.len() - 1]);
        lemma_insert_all_some_valid(sort_tiles(d), s.last());
    }
}

proof fn lemma_some_count_all(s: Seq<Option<Tile>>)
    requires
        forall|i: int| 0 <= i < s.len() ==> (#[trigger] s[i] is Some),
    ensures
        some_count(s) == s.len(),
    decreases s.len(),
{
    if s.len() > 0 {
        let d = s.drop_last();
        assert forall|i: int| 0 <= i < d.len() implies (#[trigger] d[i] is Some) by {
            assert(d[i] == s[i]);
        }
        lemma_some_count_all(d);
        assert(s.last() == s[s.len() - 1]);
    }
}

fn closed_char(c: char) -> (b: bool)
    ensures
        b == is_closed_char(c),
{
    from_digit_char(c).is_some() || c == 'm' || c == 'p' || c == 's' || c == 'z'
}

fn suit_letter(c: char) -> (b: bool)
    ensures
        b == is_suit_letter(c),
{
    c == 'm' || c == 'p' || c == 's'
}

fn player_digit(c: char) -> (b: bool)
    ensures
        b == is_player_digit(c),
{
    c == '1' || c == '2' || c == '3'
}

fn chi_at(v: &Vec<char>, i: usize) -> (b: bool)
    ensures
        b == chi_match(v@, i as int),
{
    i <= v.len() && v.len() - i >= 7 && v[i] == '(' && from_digit_char(v[i + 1]).is_some()
        && from_digit_char(v[i + 2]).is_some() && from_digit_char(v[i + 3]).is_some() && suit_letter(v[i + 4])
        && (v[i + 5] == '0' || v[i + 5] == '1' || v[i + 5] == '2') && v[i + 6] == ')'
}

fn pon_at(v: &Vec<char>, i: usize) -> (n: usize)
    ensures
        n == pon_len(v@, i as int),
{
    if i <= v.len() && v.len() - i >= 5 && v[i] == '(' && v[i + 1] == 'p' && from_digit_char(v[i + 2]).is_some()
        && (v[i + 3] == 'z' || suit_letter(v[i + 3])) && player_digit(v[i + 4]) {
        if v.len() - i >= 6 && v[i + 5] == ')' {
            6
        } else if v.len() - i >= 7 && v[i + 5] == 'r' && v[i + 6] == ')' {
            7
        } else {
            0
        }
    } else {
        0
    }
}

fn kan_at(v: &Vec<char>, i: usize, letter: char) -> (n: usize)
    ensures
        n == kan_len(v@, i as int, letter),
{
    if i <= v.len() && v.len() - i >= 4 && v[i] == '(' && v[i + 1] == letter && from_digit_char(v[i + 2]).is_some()
        && (v[i + 3] == 'z' || suit_letter(v[i + 3])) {
        let j1 = if i + 4 < v.len() && player_digit(v[i + 4]) { i + 5 } else { i + 4 };
        let j2 = if j1 < v.len() && v[j1] == 'r' { j1 + 1 } else { j1 };
        if j2 < v.len() && v[j2] == ')' {
            j2 - i + 1
        } else {
            0
        }
    } else {
        0
    }
}

fn sub_chars(v: &Vec<char>, a: usize, b: usize) -> (r: Vec<char>)
    requires
        a <= b <= v@.len(),
    ensures
        r@ == v@.subrange(a as int, b as int),
{
    let mut r: Vec<char> = Vec::new();
    let mut k: usize = a;
    while k < b
        invariant
            a <= k <= b,
            b <= v@.len(),
            r@ == v@.subrange(a as int, k as int),
        decreases b - k,
    {
        r.push(v[k]);
        k = k + 1;
        assert(r@ =~= v@.subrange(a as int, k as int));
    }
    r
}

fn append_tiles(called: &mut Vec<Tile>, t: &Vec<Tile>)
    ensures
        final(called)@ == old(called)@ + t@,
{
    let mut k: usize = 0;
    while k < t.len()
        invariant
            k <= t@.len(),
            called@ == old(called)@ + t@.take(k as int),
        decreases t.len() - k,
    {
        called.push(t[k]);
        k = k + 1;
        assert(called@ =~= old(called)@ + t@.take(k as int));
    }
    assert(t@.take(k as int) =~= t@);
}

/// A chi looks like this: (XYZCN) where X, Y, Z are consecutive tile numbers, C the color
/// (msp) and N the index 0-2 of the called tile; only the inside of the brackets is read.
fn parse_chi(chi: &Vec<char>) -> (r: Result<(Vec<Tile>, CompleteShape), RiichiError>)
    requires
        chi@.len() == 5,
        digit_value(chi@[0]) is Some,
        digit_value(chi@[1]) is Some,
        digit_value(chi@[2]) is Some,
        is_suit_letter(chi@[3]),
    ensures
        match parse_chi_spec(chi@) {
            Ok((t, sh)) => r matches Ok((v, sh2)) && v@ == t && sh2 == sh,
            Err(code) => r matches Err(e) && e.code == code,
        },
        r matches Ok((v, sh)) ==> call_result_ok(v@, sh),
{
    let c = chi[3];
    let n = chi[4];
    let mut got_called = false;
    let mut tile_1 = Tile::from_chars(chi[0], c).unwrap();
    if n == '0' {
        tile_1.called_from = 3;
        got_called = true;
    }
    let mut tile_2 = Tile::from_chars(chi[1], c).unwrap();
    if n == '1' {
        tile_2.called_from = 3;
        got_called = true;
    }
    let mut tile_3 = Tile::from_chars(chi[2], c).unwrap();
    if n == '2' {
        tile_3.called_from = 3;
        got_called = true;
    }
    if !got_called {
        return Err(RiichiError::new(780, "Called tile was not specified"));
    }
    let mut tiles: Vec<Tile> = Vec::new();
    tiles.push(tile_1);
    tiles.push(tile_2);
    tiles.push(tile_3);
    assert(tiles@ =~= seq![tile_1, tile_2, tile_3]);
    Ok((tiles, CompleteShape::Open(OpenShape::Chi([tile_1, tile_2, tile_3]))))
}

/// A pon looks like this: (pNCPr) where N is a number 0-9, C the color (mpsz), P the player
/// who was ponned and r, optional, marks that the red five (0) was the called tile.
fn parse_pon(pon: &Vec<char>) -> (r: Result<(Vec<Tile>, CompleteShape), RiichiError>)
    requires
        pon@.len() == 4 || pon@.len() == 5,
        pon@[0] == 'p',
        digit_value(pon@[1]) is Some,
        is_color_letter(pon@[2]),
        is_player_digit(pon@[3]),
        pon_readable(pon@),
    ensures
        match parse_pon_spec(pon@) {
            Ok((t, sh)) => r matches Ok((v, sh2)) && v@ == t && sh2 == sh,
            Err(code) => r matches Err(e) && e.code == code,
        },
        r matches Err(e) ==> e.message@ == "Only 0 can have r"@,
        r matches Ok((v, sh)) ==> call_result_ok(v@, sh),
{
    let n = pon[1];
    let c = pon[2];
    let p = pon[3];
    let r = if pon.len() > 4 { pon[4] == 'r' } else { false };
    if n != '0' && r {
        return Err(RiichiError::new(589, "Only 0 can have r"));
    }
    let mut first_tile = Tile::from_chars(n, c).unwrap();
    // red 5, change to 5 for the other tiles
    let n2 = if n == '0' { '5' } else { n };
    let mut second_tile = Tile::from_chars(n2, c).unwrap();
    let third_tile = Tile::from_chars(n2, c).unwrap();
    let player = from_digit_char(p).unwrap();
    if r {
        first_tile.called_from = player;
    } else {
        second_tile.called_from = player;
    }
    let mut tiles: Vec<Tile> = Vec::new();
    tiles.push(first_tile);
    tiles.push(second_tile);
    tiles.push(third_tile);
    assert(tiles@ =~= seq![first_tile, second_tile, third_tile]);
    Ok((tiles, CompleteShape::Open(OpenShape::Pon([first_tile, second_tile, third_tile]))))
}

/// A kan looks like this: ([k|s]NCPr) where k|s is kan or added kan, N a number 0-9, C the
/// color (mpsz), P the player who was kanned (absent for a closed kan) and r, optional with
/// open kans, marks that the red five was the called tile.
fn parse_kan(kan: &Vec<char>) -> (r: Result<(Vec<Tile>, CompleteShape), RiichiError>)
    requires
        3 <= kan@.len() <= 5,
        digit_value(kan@[1]) is Some,
        is_color_letter(kan@[2]),
        kan@.len() > 3 ==> is_player_digit(kan@[3]) || kan@[3] == 'r',
        kan_readable(kan@),
    ensures
        match parse_kan_spec(kan@) {
            Ok((t, sh)) => r matches Ok((v, sh2)) && v@ == t && sh2 == sh,
            Err(code) => r matches Err(e) && e.code == code,
        },
        r matches Err(e) ==> e.message@ == "Only 0 can have r"@,
        r matches Ok((v, sh)) ==> call_result_ok(v@, sh),
{
    let kan_type = kan[0];
    let n = kan[1];
    let c = kan[2];
    let p: u8 = if kan.len() > 3 { from_digit_char(kan[3]).unwrap() } else { 0 };
    let r = if kan.len() > 4 { kan[4] == 'r' } else { false };
    if n != '0' && r {
        return Err(RiichiError::new(589, "Only 0 can have r"));
    }
    let mut first_tile = Tile::from_chars(n, c).unwrap();
    // red 5, change to 5 for the other tiles
    let n2 = if n == '0' { '5' } else { n };
    let mut second_tile = Tile::from_chars(n2, c).unwrap();
    let third_tile = Tile::from_chars(n2, c).unwrap();
    let fourth_tile = Tile::from_chars(n2, c).unwrap();
    let shape = if p > 0 {
        if r {
            first_tile.called_from = p;
        } else {
            second_tile.called_from = p;
        }
        let tiles = [first_tile, second_tile, third_tile, fourth_tile];
        let open_kan_type = if kan_type == 's' {
            OpenKan::Shouminkan(tiles)
        } else {
            OpenKan::Daiminkan(tiles)
        };
        CompleteShape::Open(OpenShape::Kan(open_kan_type))
    } else {
        CompleteShape::Closed(ClosedShape::Kantsu([first_tile, second_tile, third_tile, fourth_tile]))
    };
    let mut tiles: Vec<Tile> = Vec::new();
    tiles.push(first_tile);
    tiles.push(second_tile);
    tiles.push(third_tile);
    tiles.push(fourth_tile);
    assert(tiles@ =~= seq![first_tile, second_tile, third_tile, fourth_tile]);
    Ok((tiles, shape))
}

/// Closed part of the hand (or the whole hand, if there are no calls), read from the back
/// because colors are written after the numbers.
fn parse_closed_hand(closed: &Vec<char>) -> (r: Result<Vec<Option<Tile>>, RiichiError>)
    requires
        forall|k: int| 0 <= k < closed@.len() ==> is_closed_char(#[trigger] closed@[k]),
    ensures
        match parse_closed_spec(closed@) {
            Ok(t) => r matches Ok(v) && v@ == t,
            Err(code) => r matches Err(e) && e.code == code,
        },
        r matches Err(e) ==> e.code == 103 && e.message@ == "Wrong number for honors!"@,
        r matches Ok(v) ==> forall|i: int| 0 <= i < v@.len() ==> (#[trigger] v@[i] matches Some(t) && t.valid()),
{
    let ghost full = parse_closed_spec(closed@);
    let mut tiles: Vec<Option<Tile>> = Vec::new();
    let mut color: char = 'x';
    let mut found_draw: bool = false;
    let mut k: usize = closed.len();
    while k > 0
        invariant
            k <= closed@.len(),
            full == parse_closed_spec(closed@),
            forall|j: int| 0 <= j < closed@.len() ==> is_closed_char(#[trigger] closed@[j]),
            color == 'x' || is_color_letter(color),
            forall|i: int| 0 <= i < tiles@.len() ==> (#[trigger] tiles@[i] matches Some(t) && t.valid()),
            match closed_rec(closed@, k as int, color, found_draw) {
                Ok(rest) => full == Ok::<Seq<Option<Tile>>, u16>(tiles@ + rest),
                Err(e) => full == Err::<Seq<Option<Tile>>, u16>(e),
            },
        decreases k,
    {
        let ch = closed[k - 1];
        if ch == 'm' || ch == 'p' || ch == 's' || ch == 'z' {
            // type
            color = ch;
        }
        if color != 'x' && from_digit_char(ch).is_some() {
            // tile value
            match Tile::from_chars(ch, color) {
                Ok(tile) => {
                    let mut tile = tile;
                    if !found_draw {
                        // the last tile written in the hand is the drawn tile
                        tile.is_draw = true;
                        found_draw = true;
                    }
                    let ghost before = tiles@;
                    tiles.push(Some(tile));
                    proof {
                        match closed_rec(closed@, k - 1, color, true) {
                            Ok(rest) => {
                                assert(tiles@ + rest =~= before + (seq![Some(tile)] + rest));
                            },
                            Err(_) => {},
                        }
                    }
                },
                Err(error) => {
                    return Err(error);
                },
            }
        }
        k = k - 1;
    }
    assert(tiles@ + seq![] =~= tiles@);
    Ok(tiles)
}

/// Whether a call's text reads without a panic (always, for a call that is not a pon or kan).
fn call_readable(kind: u8, c: &Vec<char>) -> (b: bool)
    requires
        kind == 2 ==> pon_text(c@),
        kind == 3 ==> kan_text(c@),
    ensures
        kind == 2 ==> b == pon_readable(c@),
        kind == 3 ==> b == kan_readable(c@),
        kind != 2 && kind != 3 ==> b,
{
    if kind != 2 && kind != 3 {
        return true;
    }
    let n = c[1];
    let col = c[2];
    if kind == 3 && c.len() > 3 && from_digit_char(c[3]).is_none() {
        return false;
    }
    let red = c.len() > 4 && c[4] == 'r';
    if n != '0' && red {
        return true;
    }
    let partner = if n == '0' { '5' } else { n };
    let first_ok = Tile::from_chars(n, col).is_ok();
    let partner_ok = Tile::from_chars(partner, col).is_ok();
    first_ok && partner_ok
}

impl Hand {
    /// Whether `from_text` can read a text: every pon and kan in it is written so that it
    /// reads without a panic.
    pub fn text_readable(representation: &str) -> (b: bool)
        ensures
            b == hand_text_readable(representation@),
    {
        let chars = chars_of(representation);
        let n = chars.len();
        let ghost s = chars@;
        let ghost mut done: Seq<(int, Seq<char>)> = seq![];
        let mut i: usize = 0;
        while i < n
            invariant
                s == representation@,
                s == chars@,
                n == s.len(),
                i <= n,
                scan(s, 0) == done + scan(s, i as int),
                forall|k: int| 0 <= k < done.len() ==> {
                    let p = #[trigger] done[k];
                    &&& p.0 == 2 ==> pon_readable(p.1)
                    &&& p.0 == 3 ==> kan_readable(p.1)
                },
            decreases n - i,
        {
            let (kind, a, b, next) = next_piece(&chars, i);
            let ghost piece = (kind as int, s.subrange(a as int, b as int));
            proof {
                if kind < 4 {
                    assert(done.push(piece) + scan(s, next as int) =~= done + scan(s, i as int));
                }
            }
            if kind == 2 || kind == 3 {
                let content = sub_chars(&chars, a, b);
                if !call_readable(kind, &content) {
                    proof {
                        assert(scan(s, 0)[done.len() as int] == piece);
                    }
                    return false;
                }
            }
            proof {
                if kind < 4 {
                    let d2 = done.push(piece);
                    assert forall|k: int| 0 <= k < d2.len() implies {
                        let p = #[trigger] d2[k];
                        &&& p.0 == 2 ==> pon_readable(p.1)
                        &&& p.0 == 3 ==> kan_readable(p.1)
                    } by {
                        if k < done.len() {
                            assert(d2[k] == done[k]);
                        }
                    }
                    done = d2;
                }
            }
            i = next;
        }
        assert(done + scan(s, i as int) =~= done);
        true
    }

    /// Parses a hand from its text representation.
    /// force_return: will return even a partial/invalid hand
    pub fn from_text(representation: &str, force_return: bool) -> (r: Result<Hand, RiichiError>)
        requires
            hand_text_readable(representation@),
        ensures
            match from_text_spec(representation@, force_return) {
                Ok((tiles, shapes)) => r matches Ok(h) && h.tiles@ == tiles && h.shapes@ == shapes
                    && h.shanten == 99 && h.array_34 is None,
                Err(code) => r matches Err(e) && e.code == code,
            },
            r matches Err(e) ==> (e.code == 333 ==> e.message@ == "Closed hand not defined correctly"@),
            r matches Err(e) ==> (e.code == 100 ==> e.message@ == "Couldn't parse hand representation."@),
            r matches Err(e) ==> (e.code == 103 ==> e.message@ == "Wrong number for honors!"@),
    {
        let chars = chars_of(representation);
        let n = chars.len();
        let ghost s = chars@;
        let ghost mut done: Seq<(int, Seq<char>)> = seq![];
        let mut closed_count: usize = 0;
        let mut closed_start: usize = 0;
        let mut closed_end: usize = 0;
        let mut called: Vec<Tile> = Vec::new();
        let mut shapes: Vec<CompleteShape> = Vec::new();
        let mut i: usize = 0;
        while i < n
            invariant
                s == representation@,
                s == chars@,
                n == s.len(),
                i <= n,
                hand_text_readable(s),
                scan(s, 0) == done + scan(s, i as int),
                closed_count == closed_texts(done).len(),
                closed_count <= i,
                closed_count > 0 ==> closed_start <= closed_end <= n && closed_texts(done)[0] == s.subrange(
                    closed_start as int,
                    closed_end as int,
                ),
                closed_count > 0 ==> forall|j: int| closed_start <= j < closed_end ==> is_closed_char(#[trigger] s[j]),
                called@ == called_tiles(done),
                shapes@ == called_shapes(done),
                forall|key: int| #[trigger] key_count(called@, key) == demand(shapes@, key),
                all_free(called@),
                forall|k: int| 0 <= k < called@.len() ==> (#[trigger] called@[k]).valid(),
                forall|k: int| 0 <= k < shapes@.len() ==> call_shape(#[trigger] shapes@[k]),
            decreases n - i,
        {
            let (kind, a, b, next) = next_piece(&chars, i);
            let ghost piece = (kind as int, s.subrange(a as int, b as int));
            proof {
                if kind < 4 {
                    assert(done.push(piece) + scan(s, next as int) =~= done + scan(s, i as int));
                    assert(done.push(piece).drop_last() =~= done);
                    assert(scan(s, 0)[done.len() as int] == piece);
                }
            }
            if kind == 0 {
                proof {
                    assert(closed_texts(done.push(piece)) == closed_texts(done) + seq![piece.1]);
                }
                if closed_count == 0 {
                    closed_start = a;
                    closed_end = b;
                }
                closed_count = closed_count + 1;
            } else if kind < 4 {
                let content = sub_chars(&chars, a, b);
                match parse_call(kind, &content) {
                    Ok((t, sh)) => {
                        proof { lemma_step_call(called@, shapes@, t@, sh); }
                        let ghost before = called@;
                        append_tiles(&mut called, &t);
                        proof {
                            assert forall|k: int| 0 <= k < called@.len() implies (#[trigger] called@[k]).valid() by {
                                if k >= before.len() {
                                    assert(called@[k] == t@[k - before.len()]);
                                }
                            }
                            assert forall|k: int| 0 <= k < called@.len() implies !(#[trigger] called@[k]).is_open && !called@[k].is_kan by {
                                if k >= before.len() {
                                    assert(called@[k] == t@[k - before.len()]);
                                } else {
                                    assert(called@[k] == before[k]);
                                }
                            }
                        }
                        shapes.push(sh);
                    },
                    Err(_) => {},
                }
            }
            proof {
                if kind < 4 {
                    done = done.push(piece);
                }
            }
            i = next;
        }
        assert(done + scan(s, i as int) =~= done);
        if closed_count != 1 {
            return Err(RiichiError::new(333, "Closed hand not defined correctly"));
        }
        let closed = sub_chars(&chars, closed_start, closed_end);
        let closed_tiles = match parse_closed_hand(&closed) {
            Ok(t) => t,
            Err(e) => return Err(e),
        };
        let ghost ct = closed_tiles@;
        let mut tiles = closed_tiles;
        let mut k: usize = 0;
        while k < called.len()
            invariant
                k <= called@.len(),
                tiles@ == ct + as_slots(called@.take(k as int)),
            decreases called.len() - k,
        {
            tiles.push(Some(called[k]));
            k = k + 1;
            assert(tiles@ =~= ct + as_slots(called@.take(k as int)));
        }
        assert(called@.take(k as int) =~= called@);
        let ghost start = sort_tiles(tiles@);
        proof {
            assert forall|key: int| #[trigger] free_count(start, key) >= demand(shapes@, key) by {
                lemma_free_count_sort(tiles@, key);
                lemma_free_count_concat(ct, as_slots(called@), key);
                lemma_free_count_slots(called@, key);
                super::marking::lemma_free_count_nonneg(ct, key);
            }
        }
        let mut hand = Hand::new(tiles);
        let mut m: usize = 0;
        while m < shapes.len()
            invariant
                m <= shapes@.len(),
                hand.shapes@ == shapes@.take(m as int),
                hand.shanten == 99,
                hand.array_34 is None,
                mark_shapes(start, shapes@.take(m as int)) == Some(hand.tiles@),
                forall|key: int| #[trigger] free_count(start, key) >= demand(shapes@, key),
                forall|key: int| #[trigger] free_count(hand.tiles@, key) == free_count(start, key) - demand(shapes@.take(m as int), key),
                forall|k: int| 0 <= k < shapes@.len() ==> call_shape(#[trigger] shapes@[k]),
            decreases shapes.len() - m,
        {
            let ghost cur = hand.tiles@;
            let ghost sh = shapes@[m as int];
            let ghost need = shape_need(sh);
            proof {
                assert(shapes@.take(m + 1).drop_last() =~= shapes@.take(m as int));
                assert(shapes@.take(m + 1).last() == sh);
                assert forall|key: int| #[trigger] free_count(cur, key) >= key_count(need, key) by {
                    lemma_demand_prefix(shapes@, m + 1, key);
                }
            }
            match shapes[m] {
                CompleteShape::Closed(kan) => {
                    proof {
                        lemma_mark_all_succeeds(cur, need, CallKind::ClosedKan);
                    }
                    hand.add_closed_kan(kan);
                    proof {
                        assert forall|key: int| #[trigger] free_count(hand.tiles@, key) == free_count(start, key) - demand(shapes@.take(m + 1), key) by {
                            assert(free_count(mark_all(cur, need, CallKind::ClosedKan).unwrap(), key) == free_count(cur, key) - key_count(need, key));
                        }
                    }
                },
                CompleteShape::Open(open) => {
                    let ghost kind = super::hand::open_call(open).1;
                    proof {
                        lemma_mark_all_succeeds(cur, need, kind);
                    }
                    hand.add_open_shape(&open);
                    proof {
                        assert forall|key: int| #[trigger] free_count(hand.tiles@, key) == free_count(start, key) - demand(shapes@.take(m + 1), key) by {
                            assert(free_count(mark_all(cur, need, kind).unwrap(), key) == free_count(cur, key) - key_count(need, key));
                        }
                    }
                },
            }
            m = m + 1;
        }
        assert(shapes@.take(m as int) =~= shapes@);
        if force_return {
            return Ok(hand);
        }
        proof {
            lemma_text_slots_valid(ct, called@);
            lemma_mark_shapes_valid(start, shapes@);
        }
        if hand.tiles.len() >= 256 {
            proof {
                lemma_some_count_all(hand.tiles@);
                lemma_counts_bounded(hand.tiles@, 0, false);
            }
            return Err(RiichiError::new(100, "Couldn't parse hand representation."));
        }
        if hand.validate() {
            return Ok(hand);
        }
        Err(RiichiError::new(100, "Couldn't parse hand representation."))
    }
}

proof fn lemma_step_call(called: Seq<Tile>, shapes: Seq<CompleteShape>, t: Seq<Tile>, sh: CompleteShape)
    requires
        forall|key: int| #[trigger] key_count(called, key) == demand(shapes, key),
        t == shape_need(sh),
    ensures
        forall|key: int| #[trigger] key_count(called + t, key) == demand(shapes.push(sh), key),
{
    assert forall|key: int| #[trigger] key_count(called + t, key) == demand(shapes.push(sh), key) by {
        super::marking::lemma_key_count_concat(called, t, key);
        assert(shapes.push(sh).drop_last() =~= shapes);
    }
}

proof fn lemma_text_slots_valid(ct: Seq<Option<Tile>>, called: Seq<Tile>)
    requires
        forall|i: int| 0 <= i < ct.len() ==> (#[trigger] ct[i] matches Some(t) && t.valid()),
        forall|i: int| 0 <= i < called.len() ==> (#[trigger] called[i]).valid(),
    ensures
        forall|i: int| 0 <= i < sort_tiles(ct + as_slots(called)).len() ==> (#[trigger] sort_tiles(ct + as_slots(called))[i] matches Some(t) && t.valid()),
{
    let all = ct + as_slots(called);
    assert forall|i: int| 0 <= i < all.len() implies (#[trigger] all[i] matches Some(t) && t.valid()) by {
        if i < ct.len() {
            assert(all[i] == ct[i]);
        } else {
            assert(all[i] == Some(called[i - ct.len()]));
        }
    }
    lemma_sort_all_some_valid(all);
}

proof fn lemma_mark_shapes_valid(s: Seq<Option<Tile>>, shapes: Seq<CompleteShape>)
    requires
        forall|i: int| 0 <= i < s.len() ==> (#[trigger] s[i] matches Some(t) && t.valid()),
        mark_shapes(s, shapes) is Some,
    ensures
        forall|i: int| 0 <= i < mark_shapes(s, shapes).unwrap().len() ==> (#[trigger] mark_shapes(s, shapes).unwrap()[i] matches Some(t) && t.valid()),
    decreases shapes.len(),
{
    if shapes.len() > 0 {
        lemma_mark_shapes_valid(s, shapes.drop_last());
        let s1 = mark_shapes(s, shapes.drop_last()).unwrap();
        match shapes.last() {
            CompleteShape::Open(o) => {
                super::marking::lemma_mark_all_types(s1, super::hand::open_call(o).0, super::hand::open_call(o).1);
            },
            CompleteShape::Closed(ClosedShape::Kantsu(t)) => {
                super::marking::lemma_mark_all_types(s1, t@, CallKind::ClosedKan);
            },
            CompleteShape::Closed(_) => {},
        }
    }
}

} // verus!
