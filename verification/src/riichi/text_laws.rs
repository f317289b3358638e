use vstd::prelude::*;
use super::tile::{Tile, TileType, blank, tile_from_chars};
use super::text::{digit_char, digit_value, decimal};
use super::hand_parse::{scan, run_end, is_closed_char, is_color_letter, closed_rec};
use super::tiles_seq::{opt_key, insert_sorted, sort_tiles};
use super::hand_text::{closed_state, closed_part_notation, hand_notation, shapes_notation, remove_melds};
use super::hand_parse::{from_text_spec, closed_texts, called_shapes, called_tiles, text_slots, mark_shapes, parse_closed_spec};
use super::marking::as_slots;
use super::shapes::CompleteShape;

verus! {

/// A tile as a closed hand's text gives it: a real tile with no mark but a red five's.
pub open spec fn plain_tile(t: Tile) -> bool {
    &&& t.valid()
    &&& t == Tile { is_red: t.is_red, ..blank(t.tile_type) }
    &&& t.is_red ==> (t.tile_type matches TileType::Number(v, _) && v == 5)
}

/// The text of the `i`-th tile of a closed hand written in order: its digit (0 for a red
/// five), and its color letter where it ends a group of its color.
pub open spec fn canon_chunk(l: Seq<Tile>, i: int) -> Seq<char> {
    seq![digit_char(l[i].spec_value())] + if i == l.len() - 1 || l[i + 1].tile_type.spec_char() != l[i].tile_type.spec_char() {
        seq![l[i].tile_type.spec_char()]
    } else {
        seq![]
    }
}

/// The text of the first `k` tiles.
pub open spec fn canon_pre(l: Seq<Tile>, k: int) -> Seq<char>
    decreases k,
{
    if k <= 0 { seq![] } else { canon_pre(l, k - 1) + canon_chunk(l, k - 1) }
}

/// A closed hand written in hand notation from its tile types in order.
pub open spec fn canon_text(l: Seq<Tile>) -> Seq<char> {
    canon_pre(l, l.len() as int)
}

/// Tiles in the order hand notation writes them: real tiles with no mark but a red five's,
/// never a later type before an earlier one, a red five the only tile of its type.
pub open spec fn canon_list(l: Seq<Tile>) -> bool {
    &&& l.len() >= 1
    &&& forall|i: int| 0 <= i < l.len() ==> plain_tile(#[trigger] l[i])
    &&& forall|i: int, j: int| 0 <= i < l.len() && 0 <= j < l.len() && i != j && (#[trigger] l[i]).is_red
        ==> (#[trigger] l[j]).spec_key() != l[i].spec_key()
    &&& forall|i: int, j: int| 0 <= i <= j < l.len() ==> (#[trigger] l[i]).spec_key() <= (#[trigger] l[j]).spec_key()
}

proof fn lemma_digit_char(d: int)
    requires
        0 <= d <= 9,
    ensures
        digit_value(digit_char(d)) == Some(d),
        !is_color_letter(digit_char(d)),
{
}

proof fn lemma_type_chars(t: Tile)
    requires
        plain_tile(t),
    ensures
        0 <= t.spec_value() <= 9,
        is_color_letter(t.tile_type.spec_char()),
        digit_value(t.tile_type.spec_char()) is None,
        tile_from_chars(seq![digit_char(t.spec_value()), t.tile_type.spec_char()]) == Ok::<Tile, u16>(t),
{
    lemma_digit_char(t.spec_value());
    assert(seq![digit_char(t.spec_value()), t.tile_type.spec_char()][0] == digit_char(t.spec_value()));
    assert(seq![digit_char(t.spec_value()), t.tile_type.spec_char()][1] == t.tile_type.spec_char());
}

proof fn lemma_canon_pre_len(l: Seq<Tile>, k: int)
    requires
        0 <= k <= l.len(),
    ensures
        canon_pre(l, k).len() >= k,
        forall|j: int| 0 <= j < canon_pre(l, k).len() ==> is_closed_char(#[trigger] canon_pre(l, k)[j]),
    decreases k,
{
    if k > 0 {
        lemma_canon_pre_len(l, k - 1);
        let p = canon_pre(l, k - 1);
        let c = canon_chunk(l, k - 1);
        assert forall|j: int| 0 <= j < canon_pre(l, k).len() implies is_closed_char(#[trigger] canon_pre(l, k)[j]) by {
            if j < p.len() {
                assert(canon_pre(l, k)[j] == p[j]);
            } else {
                assert(canon_pre(l, k)[j] == c[j - p.len()]);
            }
        }
    }
}

proof fn lemma_run_to_end(s: Seq<char>, i: int)
    requires
        0 <= i <= s.len(),
        forall|j: int| 0 <= j < s.len() ==> is_closed_char(#[trigger] s[j]),
    ensures
        run_end(s, i) == s.len(),
    decreases s.len() - i,
{
    if i < s.len() {
        lemma_run_to_end(s, i + 1);
    }
}

/// A closed hand's text is one closed part.
proof fn lemma_scan_closed(l: Seq<Tile>)
    requires
        canon_list(l),
    ensures
        scan(canon_text(l), 0) == seq![(0int, canon_text(l))],
{
    let s = canon_text(l);
    lemma_canon_pre_len(l, l.len() as int);
    lemma_run_to_end(s, 0);
    assert(is_closed_char(s[0]));
    assert(s.subrange(0, s.len() as int) =~= s);
    assert(scan(s, s.len() as int) == Seq::<(int, Seq<char>)>::empty());
    assert(scan(s, 0) =~= seq![(0int, s)]);
}

/// The text of the first `k` tiles begins the text of the first `m`.
proof fn lemma_canon_prefix(l: Seq<Tile>, k: int, m: int)
    requires
        0 <= k <= m <= l.len(),
    ensures
        canon_pre(l, k).len() <= canon_pre(l, m).len(),
        forall|j: int| 0 <= j < canon_pre(l, k).len() ==> #[trigger] canon_pre(l, m)[j] == canon_pre(l, k)[j],
    decreases m - k,
{
    if k < m {
        lemma_canon_prefix(l, k, m - 1);
        let p = canon_pre(l, m - 1);
        assert forall|j: int| 0 <= j < canon_pre(l, k).len() implies #[trigger] canon_pre(l, m)[j] == canon_pre(l, k)[j] by {
            assert(canon_pre(l, m)[j] == p[j]);
        }
    }
}

/// Reading the first `k` tiles' text backwards, with the color of the tile after them in
/// force: their tiles, last first, none of them drawn.
proof fn lemma_read_prefix(l: Seq<Tile>, k: int)
    requires
        canon_list(l),
        0 <= k < l.len(),
    ensures
        closed_rec(canon_text(l), canon_pre(l, k).len() as int, l[k].tile_type.spec_char(), true)
            == Ok::<Seq<Option<Tile>>, u16>(Seq::new(k as nat, |j: int| Some(l[k - 1 - j]))),
    decreases k,
{
    let s = canon_text(l);
    if k == 0 {
        assert(Seq::new(0, |j: int| Some(l[k - 1 - j])) =~= Seq::<Option<Tile>>::empty());
    } else {
        let i = k - 1;
        lemma_read_prefix(l, i);
        lemma_type_chars(l[i]);
        lemma_canon_prefix(l, k, l.len() as int);
        let p = canon_pre(l, i).len() as int;
        let q = canon_pre(l, k).len() as int;
        let chunk = canon_chunk(l, i);
        assert(canon_pre(l, k) == canon_pre(l, i) + chunk);
        assert(s[p] == canon_pre(l, k)[p]);
        assert(s[p] == digit_char(l[i].spec_value()));
        let rest = Seq::new(i as nat, |j: int| Some(l[i - 1 - j]));
        let all = Seq::new(k as nat, |j: int| Some(l[k - 1 - j]));
        assert(all =~= seq![Some(l[i])] + rest);
        if l[k].tile_type.spec_char() != l[i].tile_type.spec_char() {
            assert(q == p + 2);
            assert(s[p + 1] == canon_pre(l, k)[p + 1]);
            assert(s[p + 1] == l[i].tile_type.spec_char());
            assert(closed_rec(s, q, l[k].tile_type.spec_char(), true) == closed_rec(s, p + 1, l[i].tile_type.spec_char(), true));
        } else {
            assert(q == p + 1);
        }
        assert(seq![digit_char(l[i].spec_value()), l[i].tile_type.spec_char()] =~= seq![s[p], l[i].tile_type.spec_char()]);
        assert(closed_rec(s, p + 1, l[i].tile_type.spec_char(), true) == Ok::<Seq<Option<Tile>>, u16>(all));
    }
}

/// Reading a closed hand's text: its tiles, last first, the last one drawn.
proof fn lemma_read_closed(l: Seq<Tile>)
    requires
        canon_list(l),
    ensures
        closed_rec(canon_text(l), canon_text(l).len() as int, 'x', false) == Ok::<Seq<Option<Tile>>, u16>(
            Seq::new(l.len(), |j: int| Some(if j == 0 { Tile { is_draw: true, ..l[l.len() - 1 - j] } } else { l[l.len() - 1 - j] }))),
{
    let s = canon_text(l);
    let n = l.len() as int;
    let i = n - 1;
    lemma_read_prefix(l, i);
    lemma_type_chars(l[i]);
    let p = canon_pre(l, i).len() as int;
    assert(canon_pre(l, n) == canon_pre(l, i) + canon_chunk(l, i));
    assert(s.len() == p + 2);
    assert(s[p] == digit_char(l[i].spec_value()));
    assert(s[p + 1] == l[i].tile_type.spec_char());
    assert(closed_rec(s, p + 2, 'x', false) == closed_rec(s, p + 1, l[i].tile_type.spec_char(), false));
    assert(seq![digit_char(l[i].spec_value()), l[i].tile_type.spec_char()] =~= seq![s[p], l[i].tile_type.spec_char()]);
    let rest = Seq::new(i as nat, |j: int| Some(l[i - 1 - j]));
    let all = Seq::new(l.len(), |j: int| Some(if j == 0 { Tile { is_draw: true, ..l[l.len() - 1 - j] } } else { l[l.len() - 1 - j] }));
    assert(all =~= seq![Some(Tile { is_draw: true, ..l[i] })] + rest);
}

/// The first index from `i` on of a tile type of this key (the length where none is).
pub open spec fn first_from(l: Seq<Tile>, key: int, i: int) -> int
    decreases l.len() - i,
{
    if i >= l.len() || i < 0 { l.len() as int } else if l[i].spec_key() == key { i } else { first_from(l, key, i + 1) }
}

/// The first index from `i` on of a tile type of another key (the length where none is).
pub open spec fn block_end(l: Seq<Tile>, key: int, i: int) -> int
    decreases l.len() - i,
{
    if i >= l.len() || i < 0 { l.len() as int } else if l[i].spec_key() != key { i } else { block_end(l, key, i + 1) }
}

/// The first tile of the hand's last type: where reading marks the drawn tile after sorting.
pub open spec fn last_block(l: Seq<Tile>) -> int {
    first_from(l, l[l.len() - 1].spec_key(), 0)
}

proof fn lemma_key_inj(a: TileType, b: TileType)
    requires
        a.valid(),
        b.valid(),
        a.spec_key() == b.spec_key(),
    ensures
        a == b,
{
    match a {
        TileType::Number(_, ca) => match b {
            TileType::Number(_, cb) => {
                assert(super::tile::color_index(ca) == super::tile::color_index(cb));
            },
            _ => {},
        },
        _ => {},
    }
}

/// Two tiles of the same type in the list are the same tile.
proof fn lemma_same_key(l: Seq<Tile>, a: int, b: int)
    requires
        canon_list(l),
        0 <= a < l.len(),
        0 <= b < l.len(),
        l[a].spec_key() == l[b].spec_key(),
    ensures
        l[a] == l[b],
{
    if a != b {
        assert(plain_tile(l[a]) && plain_tile(l[b]));
        lemma_key_inj(l[a].tile_type, l[b].tile_type);
    }
}

proof fn lemma_first_from(l: Seq<Tile>, key: int, i: int)
    requires
        0 <= i <= l.len(),
    ensures
        i <= first_from(l, key, i) <= l.len(),
        first_from(l, key, i) < l.len() ==> l[first_from(l, key, i)].spec_key() == key,
        forall|j: int| i <= j < first_from(l, key, i) ==> (#[trigger] l[j]).spec_key() != key,
    decreases l.len() - i,
{
    if i < l.len() && l[i].spec_key() != key {
        lemma_first_from(l, key, i + 1);
    }
}

proof fn lemma_block_end(l: Seq<Tile>, key: int, i: int)
    requires
        0 <= i <= l.len(),
    ensures
        i <= block_end(l, key, i) <= l.len(),
        block_end(l, key, i) < l.len() ==> l[block_end(l, key, i)].spec_key() != key,
        forall|j: int| i <= j < block_end(l, key, i) ==> (#[trigger] l[j]).spec_key() == key,
    decreases l.len() - i,
{
    if i < l.len() && l[i].spec_key() == key {
        lemma_block_end(l, key, i + 1);
    }
}

/// The last type's tiles start at `last_block` and run to the end.
proof fn lemma_last_block(l: Seq<Tile>)
    requires
        canon_list(l),
    ensures
        0 <= last_block(l) < l.len(),
        forall|j: int| last_block(l) <= j < l.len() ==> #[trigger] l[j] == l[l.len() - 1],
        forall|j: int| 0 <= j < last_block(l) ==> (#[trigger] l[j]).spec_key() < l[l.len() - 1].spec_key(),
{
    let n = l.len() as int;
    let key = l[n - 1].spec_key();
    lemma_first_from(l, key, 0);
    let f = last_block(l);
    assert(f < n) by {
        if f >= n {
            assert(l[n - 1].spec_key() != key);
        }
    }
    assert forall|j: int| f <= j < n implies #[trigger] l[j] == l[n - 1] by {
        assert(l[f].spec_key() <= l[j].spec_key());
        assert(l[j].spec_key() <= l[n - 1].spec_key());
        lemma_same_key(l, j, n - 1);
    }
    assert forall|j: int| 0 <= j < f implies (#[trigger] l[j]).spec_key() < key by {
        assert(l[j].spec_key() <= l[n - 1].spec_key());
    }
}

/// Inserting a slot that comes no later than a sorted list's `m`-th: it goes to place `m`.
proof fn lemma_insert_at(s: Seq<Option<Tile>>, x: Option<Tile>, m: int)
    requires
        0 <= m <= s.len(),
        forall|j: int| 0 <= j < m ==> opt_key(#[trigger] s[j]) <= opt_key(x),
        forall|j: int| m <= j < s.len() ==> opt_key(#[trigger] s[j]) > opt_key(x),
    ensures
        insert_sorted(s, x) == s.take(m) + seq![x] + s.skip(m),
    decreases s.len(),
{
    if s.len() == 0 {
        assert(s.take(m) + seq![x] + s.skip(m) =~= seq![x]);
    } else if s.len() == m {
        assert(opt_key(s.last()) <= opt_key(x));
        assert(s.take(m) + seq![x] + s.skip(m) =~= s.push(x));
    } else {
        assert(opt_key(s.last()) > opt_key(x));
        let d = s.drop_last();
        lemma_insert_at(d, x, m);
        assert((d.take(m) + seq![x] + d.skip(m)).push(s.last()) =~= s.take(m) + seq![x] + s.skip(m));
    }
}

/// The tiles from `i` on, last first, the very last drawn: what reading gives, cut short.
pub open spec fn read_back(l: Seq<Tile>, i: int) -> Seq<Option<Tile>> {
    Seq::new((l.len() - i) as nat, |j: int| Some(if j == 0 { Tile { is_draw: true, ..l[l.len() - 1 - j] } } else { l[l.len() - 1 - j] }))
}

/// The tiles from `i` on in order, the first of the last type from there drawn.
pub open spec fn sorted_from(l: Seq<Tile>, i: int) -> Seq<Option<Tile>> {
    let f = if i > last_block(l) { i } else { last_block(l) };
    Seq::new((l.len() - i) as nat, |j: int| Some(if i + j == f { Tile { is_draw: true, ..l[i + j] } } else { l[i + j] }))
}

/// Sorting what reading gives puts the tiles back in order.
proof fn lemma_sort_back(l: Seq<Tile>, i: int)
    requires
        canon_list(l),
        0 <= i < l.len(),
    ensures
        sort_tiles(read_back(l, i)) == sorted_from(l, i),
    decreases l.len() - i,
{
    let n = l.len() as int;
    lemma_last_block(l);
    let f = last_block(l);
    let r = read_back(l, i);
    if i == n - 1 {
        assert(r.drop_last() =~= Seq::<Option<Tile>>::empty());
        assert(sort_tiles(r) == insert_sorted(sort_tiles(r.drop_last()), r.last()));
        assert(sort_tiles(r) =~= sorted_from(l, i));
    } else {
        assert(r.drop_last() =~= read_back(l, i + 1));
        lemma_sort_back(l, i + 1);
        let s1 = sorted_from(l, i + 1);
        let x = Some(l[i]);
        assert(r.last() == x);
        let key = l[i].spec_key();
        lemma_block_end(l, key, i + 1);
        let e = block_end(l, key, i + 1);
        let m = e - (i + 1);
        assert forall|j: int| 0 <= j < m implies opt_key(#[trigger] s1[j]) <= opt_key(x) by {
            assert(l[i + 1 + j].spec_key() == key);
        }
        assert forall|j: int| m <= j < s1.len() implies opt_key(#[trigger] s1[j]) > opt_key(x) by {
            assert(l[e].spec_key() != key);
            assert(l[i].spec_key() <= l[e].spec_key());
            assert(l[e].spec_key() <= l[i + 1 + j].spec_key());
        }
        lemma_insert_at(s1, x, m);
        assert(sort_tiles(r) == insert_sorted(s1, x));
        let t = sorted_from(l, i);
        if i >= f {
            assert(l[i + 1] == l[n - 1] && l[i] == l[n - 1]);
            assert(m >= 1);
        }
        assert forall|j: int| 0 <= j < m implies #[trigger] l[i + 1 + j] == l[i] && l[i + j] == l[i] by {
            assert(l[i + 1 + j].spec_key() == key);
            lemma_same_key(l, i + 1 + j, i);
            if j > 0 {
                assert(l[i + j].spec_key() == key);
                lemma_same_key(l, i + j, i);
            }
        }
        if i < f {
            assert(e <= f) by {
                if e > f {
                    assert(l[f].spec_key() == key);
                    assert(l[f].spec_key() == l[n - 1].spec_key());
                    assert(l[i].spec_key() < l[n - 1].spec_key());
                }
            }
        }
        assert(s1.take(m) + seq![x] + s1.skip(m) =~= t);
    }
}

/// The color letter written before the `i`-th tile: the previous color where it changes.
pub open spec fn letter_before(l: Seq<Tile>, i: int) -> Seq<char> {
    if i > 0 && l[i].tile_type.spec_char() != l[i - 1].tile_type.spec_char() { seq![l[i - 1].tile_type.spec_char()] } else { seq![] }
}

/// The first `k` tiles written with each color letter before the next color, the tile at
/// `skip` left out (`skip` -1: none).
pub open spec fn written(l: Seq<Tile>, k: int, skip: int) -> Seq<char>
    decreases k,
{
    if k <= 0 {
        seq![]
    } else {
        written(l, k - 1, skip) + letter_before(l, k - 1) + if k - 1 == skip { seq![] } else { seq![digit_char(l[k - 1].spec_value())] }
    }
}

/// Writing the closed part as the library does, up to the `k`-th tile.
proof fn lemma_closed_state(l: Seq<Tile>, k: int)
    requires
        canon_list(l),
        0 <= k <= l.len(),
    ensures
        ({
            let f = last_block(l);
            let st = closed_state(sorted_from(l, 0).take(k));
            &&& st.0 == written(l, k, f)
            &&& st.1 == if k == 0 { 'x' } else { l[k - 1].tile_type.spec_char() }
            &&& st.2 == if k > f { Some(Tile { is_draw: true, ..l[f] }) } else { None::<Tile> }
        }),
    decreases k,
{
    lemma_last_block(l);
    let f = last_block(l);
    let m = sorted_from(l, 0);
    if k == 0 {
        assert(m.take(0) =~= Seq::<Option<Tile>>::empty());
    } else {
        lemma_closed_state(l, k - 1);
        assert(m.take(k).drop_last() =~= m.take(k - 1));
        let t = l[k - 1];
        lemma_type_chars(t);
        assert(m.take(k).last() == m[k - 1]);
        assert(decimal(t.spec_value() as nat) =~= seq![digit_char(t.spec_value())]);
        if k - 1 == 0 {
            assert(letter_before(l, 0) =~= Seq::<char>::empty());
        }
    }
}

/// The first `k` tiles written in chunks: the letters before each tile, then the pending
/// letter of the last one.
proof fn lemma_canon_written(l: Seq<Tile>, k: int)
    requires
        canon_list(l),
        1 <= k <= l.len(),
    ensures
        canon_pre(l, k) == written(l, k, -1) + if k - 1 == l.len() - 1 || l[k].tile_type.spec_char() != l[k - 1].tile_type.spec_char() {
            seq![l[k - 1].tile_type.spec_char()]
        } else {
            seq![]
        },
    decreases k,
{
    if k == 1 {
        assert(written(l, 0, -1) =~= Seq::<char>::empty());
        assert(letter_before(l, 0) =~= Seq::<char>::empty());
        assert(canon_pre(l, 0) =~= Seq::<char>::empty());
        assert(canon_pre(l, 1) =~= written(l, 1, -1) + canon_chunk(l, 0).skip(1));
    } else {
        lemma_canon_written(l, k - 1);
        let lb = letter_before(l, k - 1);
        assert(canon_pre(l, k) =~= written(l, k - 1, -1) + lb + canon_chunk(l, k - 1));
    }
}

/// Leaving out the drawn tile and writing it last gives the same text: the tiles from the
/// last type's first on are alike.
proof fn lemma_written_skip(l: Seq<Tile>, k: int)
    requires
        canon_list(l),
        0 <= k <= l.len(),
    ensures
        k <= last_block(l) ==> written(l, k, last_block(l)) == written(l, k, -1),
        k > last_block(l) ==> written(l, k, last_block(l)) + seq![digit_char(l[last_block(l)].spec_value())] == written(l, k, -1),
    decreases k,
{
    lemma_last_block(l);
    let f = last_block(l);
    if k > 0 {
        lemma_written_skip(l, k - 1);
        let d = seq![digit_char(l[f].spec_value())];
        if k - 1 > f {
            assert(l[k - 1] == l[l.len() - 1] && l[k - 2] == l[l.len() - 1]);
            assert(letter_before(l, k - 1) =~= Seq::<char>::empty());
            assert(written(l, k, f) + d =~= written(l, k - 1, f) + d + seq![digit_char(l[k - 1].spec_value())]);
        } else if k - 1 == f {
            assert(written(l, k, f) + d =~= written(l, k - 1, f) + letter_before(l, k - 1) + d);
        }
    }
}

/// Writing the sorted tiles of a closed hand's text gives the text back.
proof fn lemma_write_sorted(l: Seq<Tile>)
    requires
        canon_list(l),
    ensures
        closed_part_notation(sorted_from(l, 0)) == canon_text(l),
{
    let n = l.len() as int;
    lemma_last_block(l);
    let f = last_block(l);
    let m = sorted_from(l, 0);
    assert(m.take(n) =~= m);
    lemma_closed_state(l, n);
    lemma_written_skip(l, n);
    lemma_canon_written(l, n);
    lemma_type_chars(l[f]);
    assert(l[f] == l[n - 1]);
    assert(decimal(l[f].spec_value() as nat) =~= seq![digit_char(l[f].spec_value())]);
    assert(closed_part_notation(m) =~= written(l, n, f) + seq![digit_char(l[f].spec_value())] + seq![l[n - 1].tile_type.spec_char()]);
}

/// A closed hand written in hand notation reads back to a hand written the same way: for
/// tiles in the order the notation writes them (grouped by color, never a later type before
/// an earlier one; a red five, written 0, the only tile of its type), `Hand::from_text` on
/// the text gives no calls and slots whose hand notation is the text again. Read with `force_return` the text always
/// gives a hand; read without it, it gives one where that hand is valid.
pub proof fn law_closed_text_round_trip(l: Seq<Tile>, force_return: bool)
    requires
        canon_list(l),
    ensures
        from_text_spec(canon_text(l), true) is Ok,
        from_text_spec(canon_text(l), force_return) matches Ok(r) ==> r.1.len() == 0 && hand_notation(r.0, r.1) == canon_text(l),
{
    let s = canon_text(l);
    lemma_scan_closed(l);
    let pieces = scan(s, 0);
    let none = Seq::<(int, Seq<char>)>::empty();
    assert(pieces.drop_last() =~= none);
    assert(pieces.last() == (0int, s));
    assert(closed_texts(none) =~= Seq::<Seq<char>>::empty());
    assert(called_shapes(none) =~= Seq::<CompleteShape>::empty());
    assert(called_tiles(none) =~= Seq::<Tile>::empty());
    assert(closed_texts(pieces) =~= seq![s]);
    assert(called_shapes(pieces) =~= Seq::<CompleteShape>::empty());
    assert(called_tiles(pieces) =~= Seq::<Tile>::empty());
    lemma_read_closed(l);
    let rb = read_back(l, 0);
    assert(parse_closed_spec(s) == Ok::<Seq<Option<Tile>>, u16>(rb)) by {
        assert(rb =~= Seq::new(l.len(), |j: int| Some(if j == 0 { Tile { is_draw: true, ..l[l.len() - 1 - j] } } else { l[l.len() - 1 - j] })));
    }
    assert(rb + as_slots(called_tiles(pieces)) =~= rb);
    lemma_sort_back(l, 0);
    let t = sorted_from(l, 0);
    assert(text_slots(rb, pieces) == t);
    assert(mark_shapes(t, Seq::<CompleteShape>::empty()) == Some(t));
    assert(remove_melds(t, Seq::<CompleteShape>::empty()) == Some(t));
    assert(shapes_notation(Seq::<CompleteShape>::empty()) =~= Seq::<char>::empty());
    lemma_write_sorted(l);
    assert(hand_notation(t, Seq::<CompleteShape>::empty()) =~= closed_part_notation(t));
}

} // verus!
