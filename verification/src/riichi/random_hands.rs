use vstd::prelude::*;
use super::tile::{Tile, TileType, TileColor, blank, color_index, type_of_id, lemma_type_of_id};
use super::tiles_seq::{tiles_wf, counts34, id_count, kan_count, sort_tiles, lemma_id_count_push, lemma_id_count_sort, lemma_sort_preserves, lemma_sort_len};
use super::tile_counts::{slot_count, tile_count, is_drawn, lemma_slot_count_push, lemma_slot_count_sort, lemma_counts34_sum,
    lemma_no_kans, lemma_seq_sum_lower, lemma_seq_sum_update, lemma_tile_count_push, lemma_tile_count_permutation,
    lemma_tile_count_witness, lemma_kan_count_slots, lemma_tile_count_bounds};
use super::hand::{Hand, valid_hand, seq_sum, hand_size};
use super::rules::Rules;
use super::random::{random_in_range, shuffle_tiles};

verus! {

/// A slot of a random hand: a real tile with no call marks, red only where red fives are in
/// play and only as a five.
pub open spec fn random_slot(o: Option<Tile>, aka: bool) -> bool {
    &&& o matches Some(t)
    &&& o->0.tile_type.valid()
    &&& o->0 == Tile { is_draw: o->0.is_draw, is_red: o->0.is_red, ..blank(o->0.tile_type) }
    &&& o->0.is_red ==> aka && (o->0.tile_type matches TileType::Number(v, _) && v == 5)
}

/// A slot that holds a red five of the color with this index (0 manzu, 1 pinzu, 2 souzu).
pub open spec fn red_of(o: Option<Tile>, c: int) -> bool {
    o matches Some(t) && t.is_red && (t.tile_type matches TileType::Number(_, col) && color_index(col) == c)
}

/// How many slots hold a red five of the color with this index.
pub open spec fn red_count(s: Seq<Option<Tile>>, c: int) -> int {
    slot_count(s, |o: Option<Tile>| red_of(o, c))
}

/// Whether the rules, where there are some, play with red fives.
pub open spec fn aka_in(rules: Option<&Rules>) -> bool {
    rules matches Some(r) && r.aka_ari
}

fn color_number(c: &TileColor) -> (r: usize)
    ensures
        r == color_index(*c),
        r < 3,
{
    match c {
        TileColor::Manzu => 0,
        TileColor::Pinzu => 1,
        TileColor::Souzu => 2,
    }
}

/// How many tiles of this id a group holds: a run of three (kind 0) from its id, a triplet
/// (kind 1) or a quad (kind 2) of its id.
pub open spec fn group_tiles(g: (int, int), id: int) -> int {
    if g.0 == 0 {
        if g.1 <= id <= g.1 + 2 { 1 } else { 0 }
    } else if g.0 == 1 {
        if id == g.1 { 3 } else { 0 }
    } else {
        if id == g.1 { 4 } else { 0 }
    }
}

/// How many tiles of this id some groups hold.
pub open spec fn groups_tiles(gs: Seq<(int, int)>, id: int) -> int
    decreases gs.len(),
{
    if gs.len() == 0 {
        0
    } else {
        groups_tiles(gs.drop_last(), id) + group_tiles(gs.last(), id)
    }
}

/// How many of the groups are quads.
pub open spec fn quads(gs: Seq<(int, int)>) -> int
    decreases gs.len(),
{
    if gs.len() == 0 {
        0
    } else {
        quads(gs.drop_last()) + if gs.last().0 == 2 { 1int } else { 0 }
    }
}

/// The id a run may start from: 1 to 7 of a suit.
pub open spec fn run_start(id: int) -> bool {
    1 <= id <= 27 && (id - 1) % 9 <= 6
}

/// A group a random complete hand may hold (quads only where asked for).
pub open spec fn valid_group(g: (int, int), kans: bool) -> bool {
    ||| g.0 == 0 && run_start(g.1)
    ||| g.0 == 1 && 1 <= g.1 <= 34
    ||| g.0 == 2 && kans && 1 <= g.1 <= 34
}

/// The slots hold exactly these groups and a pair of this id: four groups for a closed
/// hand, at most four otherwise.
pub open spec fn complete_form(s: Seq<Option<Tile>>, gs: Seq<(int, int)>, pair: int, closed: bool, kans: bool) -> bool {
    &&& gs.len() <= 4
    &&& closed ==> gs.len() == 4
    &&& forall|i: int| 0 <= i < gs.len() ==> valid_group(#[trigger] gs[i], kans)
    &&& 1 <= pair <= 34
    &&& forall|id: int| 1 <= id <= 34 ==> #[trigger] id_count(s, id, false) == groups_tiles(gs, id) + if id == pair { 2int } else { 0 }
    &&& kan_count(s) == 4 * quads(gs)
    &&& s.len() == 3 * gs.len() + quads(gs) + 2
}

/// A tile of a generated group: a real tile with no marks but that of a kan.
pub open spec fn plain_tile(t: Tile, kans: bool) -> bool {
    &&& t.tile_type.valid()
    &&& t == Tile { is_kan: t.is_kan, ..blank(t.tile_type) }
    &&& t.is_kan ==> kans
}

/// A slot of a random complete hand: a tile of a group, maybe drawn (a kan tile never).
pub open spec fn complete_slot(o: Option<Tile>, kans: bool) -> bool {
    &&& o matches Some(t)
    &&& plain_tile(Tile { is_draw: false, ..o->0 }, kans)
    &&& o->0.is_draw ==> !o->0.is_kan
}

/// How many tiles of this id.
pub open spec fn tiles_of(s: Seq<Tile>, id: int) -> int {
    tile_count(s, |t: Tile| t.spec_id() == id)
}

/// How many kan tiles.
pub open spec fn kans_of(s: Seq<Tile>) -> int {
    tile_count(s, |t: Tile| t.is_kan)
}

/// How many tiles that are not kan tiles.
pub open spec fn others_of(s: Seq<Tile>) -> int {
    tile_count(s, |t: Tile| !t.is_kan)
}

/// The tile of this id that a group is made of.
pub open spec fn plain_of(id: int, kan: bool) -> Tile {
    Tile { is_kan: kan, ..blank(type_of_id(id)) }
}

/// The counts of a pool of generated tiles, by id.
pub open spec fn used_seq(used: [u8; 34]) -> Seq<int> {
    Seq::new(34, |k: int| used@[k] as int)
}

/// The counts match the tiles, which are all group tiles.
pub open spec fn pool_ok(used: [u8; 34], tiles: Seq<Tile>, kans: bool) -> bool {
    &&& forall|k: int| 0 <= k < 34 ==> #[trigger] used@[k] == tiles_of(tiles, k + 1)
    &&& forall|j: int| 0 <= j < tiles.len() ==> plain_tile(#[trigger] tiles[j], kans)
    &&& seq_sum(used_seq(used)) == tiles.len()
}

/// Adds a tile of this id to the pool.
fn add_tile(used: &mut [u8; 34], tiles: &mut Vec<Tile>, id: u8, kan: bool, kans: bool)
    requires
        pool_ok(*old(used), old(tiles)@, kans),
        1 <= id <= 34,
        old(used)@[id - 1] < 4,
        kan ==> kans,
    ensures
        pool_ok(*final(used), final(tiles)@, kans),
        final(used)@ == old(used)@.update(id - 1, (old(used)@[id - 1] + 1) as u8),
        final(tiles)@ == old(tiles)@.push(plain_of(id as int, kan)),
{
    proof { lemma_type_of_id(id as int); }
    let ghost u0 = *used;
    let ghost t0 = tiles@;
    let mut tile = Tile::from_id(id).unwrap();
    tile.is_kan = kan;
    tiles.push(tile);
    used[(id - 1) as usize] = used[(id - 1) as usize] + 1;
    proof {
        assert forall|k: int| 0 <= k < 34 implies #[trigger] used@[k] == tiles_of(tiles@, k + 1) by {
            lemma_tile_count_push(t0, tile, |t: Tile| t.spec_id() == k + 1);
            assert(u0@[k] == tiles_of(t0, k + 1));
        }
        assert forall|j: int| 0 <= j < tiles@.len() implies plain_tile(#[trigger] tiles@[j], kans) by {
            if j < t0.len() {
                assert(tiles@[j] == t0[j]);
            }
        }
        assert(used_seq(*used) =~= used_seq(u0).update(id - 1, used_seq(u0)[id - 1] + 1));
        lemma_seq_sum_update(used_seq(u0), id - 1, used_seq(u0)[id - 1] + 1);
    }
}

/// The id at `roll` (counted round) among those whose count is at most `max_used`.
fn pick_id(used: &[u8; 34], max_used: u8, roll: u8) -> (id: u8)
    requires
        max_used <= 3,
        seq_sum(used_seq(*used)) < 34 * (max_used + 1),
    ensures
        1 <= id <= 34,
        used@[id - 1] <= max_used,
        id as int == pick_of(ids_upto(used@, max_used as int, 34), roll as int),
{
    let free = ids_left(used, max_used);
    if free.len() == 0 {
        proof {
            let a = used_seq(*used);
            assert forall|j: int| 0 <= j < a.len() implies #[trigger] a[j] >= max_used + 1 by {
                assert(used@[j] > max_used);
            }
            lemma_seq_sum_lower(a, max_used + 1);
        }
        assert(false);
    }
    let idx = (roll as usize) % free.len();
    proof {
        assert(free@.map_values(|x: u8| x as int)[idx as int] == free@[idx as int] as int);
    }
    free[idx]
}

/// The sum of the first `n` terms, one more.
proof fn lemma_seq_sum_take(a: Seq<int>, n: int)
    requires
        0 <= n < a.len(),
    ensures
        seq_sum(a.take(n + 1)) == seq_sum(a.take(n)) + a[n],
{
    assert(a.take(n + 1).drop_last() =~= a.take(n));
}

/// With no negative term, a prefix sums to no more than the whole.
proof fn lemma_seq_sum_prefix(a: Seq<int>, n: int)
    requires
        0 <= n <= a.len(),
        forall|k: int| 0 <= k < a.len() ==> #[trigger] a[k] >= 0,
    ensures
        seq_sum(a.take(n)) <= seq_sum(a),
    decreases a.len() - n,
{
    if n < a.len() {
        lemma_seq_sum_take(a, n);
        lemma_seq_sum_prefix(a, n + 1);
    } else {
        assert(a.take(n) =~= a);
    }
}

/// Where each of the first `m` blocks of three terms has a term of at least 4, the blocks sum
/// to at least 4 each.
proof fn lemma_blocked_blocks(a: Seq<int>, m: int)
    requires
        0 <= m,
        3 * m <= a.len(),
        forall|k: int| 0 <= k < a.len() ==> #[trigger] a[k] >= 0,
        forall|j: int| 0 <= j < m ==> a[3 * j] >= 4 || a[3 * j + 1] >= 4 || #[trigger] a[3 * j + 2] >= 4,
    ensures
        seq_sum(a.take(3 * m)) >= 4 * m,
    decreases m,
{
    if m > 0 {
        lemma_blocked_blocks(a, m - 1);
        let b = 3 * (m - 1);
        assert(a[b] >= 4 || a[b + 1] >= 4 || a[3 * (m - 1) + 2] >= 4);
        lemma_seq_sum_take(a, b);
        lemma_seq_sum_take(a, b + 1);
        lemma_seq_sum_take(a, b + 2);
    }
}

/// How often a run from this value is listed: a run from 6 half again, a run from 7 two and a
/// half times as often as the others, as drawing a tile and building the run around it does.
pub open spec fn run_weight(v: int) -> int {
    if v <= 5 { 2 } else if v == 6 { 3 } else { 5 }
}

/// A run can start from this index (id - 1): it is one from 1 to 7 of a suit, and each of its
/// three tiles has a count under 4.
pub open spec fn run_open(used: Seq<u8>, s: int) -> bool {
    &&& s % 9 <= 6
    &&& used[s] < 4
    &&& used[s + 1] < 4
    &&& used[s + 2] < 4
}

/// The indexes (id - 1) below `k` from which a run can start, each listed by its weight.
pub open spec fn run_starts(used: Seq<u8>, k: int) -> Seq<int>
    decreases k,
{
    if k <= 0 {
        seq![]
    } else {
        run_starts(used, k - 1) + if run_open(used, k - 1) {
            Seq::new(run_weight((k - 1) % 9 + 1) as nat, |j: int| k - 1)
        } else {
            seq![]
        }
    }
}

/// The item at `roll`, counted round.
pub open spec fn pick_of(s: Seq<int>, roll: int) -> int {
    s[roll % (s.len() as int)]
}

/// The indexes from which a run can start, each listed by its weight.
fn run_starts_exec(used: &[u8; 34]) -> (starts: Vec<u8>)
    ensures
        starts@.map_values(|x: u8| x as int) == run_starts(used@, 27),
        starts@.len() <= 135,
        forall|j: int| 0 <= j < starts@.len() ==> run_start(#[trigger] starts@[j] + 1)
            && used@[starts@[j] as int] < 4 && used@[starts@[j] + 1] < 4 && used@[starts@[j] + 2] < 4,
        starts@.len() == 0 ==> forall|j: int| 0 <= j < 27 && j % 9 <= 6 ==>
            used@[j] >= 4 || used@[j + 1] >= 4 || #[trigger] used@[j + 2] >= 4,
{
    let mut starts: Vec<u8> = Vec::new();
    let mut k: u8 = 0;
    while k < 27
        invariant
            k <= 27,
            starts@.map_values(|x: u8| x as int) == run_starts(used@, k as int),
            forall|j: int| 0 <= j < starts@.len() ==> run_start(#[trigger] starts@[j] + 1)
                && used@[starts@[j] as int] < 4 && used@[starts@[j] + 1] < 4 && used@[starts@[j] + 2] < 4,
            starts@.len() == 0 ==> forall|j: int| 0 <= j < k && j % 9 <= 6 ==>
                used@[j] >= 4 || used@[j + 1] >= 4 || #[trigger] used@[j + 2] >= 4,
            starts@.len() <= 5 * k,
        decreases 27 - k,
    {
        let ghost base = starts@.map_values(|x: u8| x as int);
        let value = k % 9 + 1;
        if value <= 7 && used[k as usize] < 4 && used[(k + 1) as usize] < 4 && used[(k + 2) as usize] < 4 {
            let weight: u8 = if value <= 5 { 2 } else if value == 6 { 3 } else { 5 };
            let mut w: u8 = 0;
            proof {
                assert(base + Seq::new(0, |j: int| k as int) =~= base);
            }
            while w < weight
                invariant
                    w <= weight <= 5,
                    weight >= 2,
                    weight == run_weight(k % 9 + 1),
                    w > 0 ==> starts@.len() > 0,
                    k < 27,
                    run_start(k + 1),
                    used@[k as int] < 4 && used@[k + 1] < 4 && used@[k + 2] < 4,
                    starts@.len() <= 5 * k + w,
                    starts@.map_values(|x: u8| x as int) == base + Seq::new(w as nat, |j: int| k as int),
                    forall|j: int| 0 <= j < starts@.len() ==> run_start(#[trigger] starts@[j] + 1)
                        && used@[starts@[j] as int] < 4 && used@[starts@[j] + 1] < 4 && used@[starts@[j] + 2] < 4,
                decreases weight - w,
            {
                let ghost prev = starts@;
                starts.push(k);
                w = w + 1;
                proof {
                    assert(starts@.map_values(|x: u8| x as int) =~= prev.map_values(|x: u8| x as int).push(k as int));
                    assert((base + Seq::new((w - 1) as nat, |j: int| k as int)).push(k as int) =~= base + Seq::new(w as nat, |j: int| k as int));
                }
            }
            proof {
                assert(run_open(used@, k as int));
                assert(run_starts(used@, k + 1) == base + Seq::new(run_weight(k % 9 + 1) as nat, |j: int| k as int));
            }
        } else {
            proof {
                assert(!run_open(used@, k as int));
                assert(run_starts(used@, k + 1) =~= base);
            }
        }
        k = k + 1;
    }
    starts
}

/// The run at `roll` (counted round) among those whose three tiles all have a count under 4,
/// each listed by its weight; returns the index (id - 1) of its first tile.
fn pick_run(used: &[u8; 34], roll: u8) -> (start: u8)
    requires
        seq_sum(used_seq(*used)) < 36,
    ensures
        run_start(start + 1),
        used@[start as int] < 4,
        used@[start + 1] < 4,
        used@[start + 2] < 4,
        start as int == pick_of(run_starts(used@, 27), roll as int),
{
    let starts = run_starts_exec(used);
    if starts.len() == 0 {
        proof {
            let a = used_seq(*used);
            assert forall|j: int| 0 <= j < 9 implies a[3 * j] >= 4 || a[3 * j + 1] >= 4 || #[trigger] a[3 * j + 2] >= 4 by {
                assert((3 * j) % 9 <= 6);
                assert(used@[3 * j] >= 4 || used@[3 * j + 1] >= 4 || used@[3 * j + 2] >= 4);
            }
            lemma_blocked_blocks(a, 9);
            lemma_seq_sum_prefix(a, 27);
        }
        assert(false);
    }
    let idx = (roll as usize) % starts.len();
    proof {
        assert(starts@.map_values(|x: u8| x as int)[idx as int] == starts@[idx as int] as int);
    }
    starts[idx]
}

proof fn lemma_groups_push(gs: Seq<(int, int)>, g: (int, int))
    ensures
        forall|id: int| #[trigger] groups_tiles(gs.push(g), id) == groups_tiles(gs, id) + group_tiles(g, id),
        quads(gs.push(g)) == quads(gs) + if g.0 == 2 { 1int } else { 0 },
{
    assert(gs.push(g).drop_last() =~= gs);
}

proof fn lemma_pool_push(s: Seq<Tile>, x: Tile)
    ensures
        kans_of(s.push(x)) == kans_of(s) + if x.is_kan { 1int } else { 0 },
        others_of(s.push(x)) == others_of(s) + if x.is_kan { 0int } else { 1 },
{
    lemma_tile_count_push(s, x, |t: Tile| t.is_kan);
    lemma_tile_count_push(s, x, |t: Tile| !t.is_kan);
}

/// Adds a pair of the id at `roll` (counted round) among those that have at most two tiles.
fn generate_toitsu(used: &mut [u8; 34], tiles: &mut Vec<Tile>, kans: bool, roll: u8) -> (id: u8)
    requires
        pool_ok(*old(used), old(tiles)@, kans),
        old(tiles)@.len() < 102,
    ensures
        1 <= id <= 34,
        old(used)@[id - 1] <= 2,
        pool_ok(*final(used), final(tiles)@, kans),
        final(used)@ == old(used)@.update(id - 1, (old(used)@[id - 1] + 2) as u8),
        final(tiles)@ == old(tiles)@.push(plain_of(id as int, false)).push(plain_of(id as int, false)),
        id as int == pick_of(ids_upto(old(used)@, 2, 34), roll as int),
{
    let tile_id = pick_id(used, 2, roll);
    add_tile(used, tiles, tile_id, false, kans);
    add_tile(used, tiles, tile_id, false, kans);
    tile_id
}

/// The ids (1 to `k`) of which at most `max` tiles are used, in order.
pub open spec fn ids_upto(used: Seq<u8>, max: int, k: int) -> Seq<int>
    decreases k,
{
    if k <= 0 {
        seq![]
    } else {
        ids_upto(used, max, k - 1) + if used[k - 1] <= max { seq![k] } else { seq![] }
    }
}

/// The counts, slots and red fives of a random hand being made.
pub type HandDraw = (Seq<u8>, Seq<Option<Tile>>, Seq<bool>);

/// The color index of a number type (0 for honors).
pub open spec fn color_of(t: TileType) -> int {
    match t {
        TileType::Number(_, c) => color_index(c),
        _ => 0,
    }
}

/// The `i`-th tile of a random hand: the id at `pick` (counted round) among those with a tile
/// left, drawn if it is the first; a five is red where red fives are in play, none of its
/// color is red yet and the red roll is 0.
pub open spec fn hand_step(st: HandDraw, i: int, pick: int, red: int, aka: bool) -> HandDraw {
    let ids = ids_upto(st.0, 3, 34);
    let id = ids[pick % (ids.len() as int)];
    let ty = type_of_id(id);
    let c = color_of(ty);
    let red_it = aka && (ty matches TileType::Number(v, _) && v == 5) && !st.2[c] && red == 0;
    let t = Tile { is_draw: i == 0, is_red: red_it, ..blank(ty) };
    (st.0.update(id - 1, (st.0[id - 1] + 1) as u8), st.1.push(Some(t)), if red_it { st.2.update(c, true) } else { st.2 })
}

/// The state after the first `n` rolls (a pick and a red roll each).
pub open spec fn hand_rolls(rolls: Seq<(u8, u8)>, aka: bool, n: int) -> HandDraw
    decreases n,
{
    if n <= 0 {
        (Seq::new(34, |k: int| 0u8), seq![], seq![false, false, false])
    } else {
        hand_step(hand_rolls(rolls, aka, n - 1), n - 1, rolls[n - 1].0 as int, rolls[n - 1].1 as int, aka)
    }
}

/// The slots of the hand that 14 rolls make.
pub open spec fn random_hand_slots(rolls: Seq<(u8, u8)>, aka: bool) -> Seq<Option<Tile>> {
    sort_tiles(hand_rolls(rolls, aka, 14).1)
}

/// What holds of a random hand being made after `i` tiles.
pub open spec fn draw_ok(used: Seq<u8>, tiles: Seq<Option<Tile>>, red: Seq<bool>, i: int, aka: bool) -> bool {
    &&& used.len() == 34
    &&& red.len() == 3
    &&& tiles.len() == i
    &&& 0 <= i <= 14
    &&& forall|k: int| 0 <= k < 34 ==> #[trigger] used[k] == id_count(tiles, k + 1, false)
    &&& forall|k: int| 0 <= k < 34 ==> #[trigger] used[k] <= 4
    &&& forall|j: int| 0 <= j < i ==> random_slot(#[trigger] tiles[j], aka)
    &&& slot_count(tiles, |o: Option<Tile>| is_drawn(o)) == (if i > 0 { 1int } else { 0 })
    &&& forall|c: int| 0 <= c < 3 ==> #[trigger] red_count(tiles, c) == (if red[c] { 1int } else { 0 })
}

/// The ids of which at most `max` tiles are used.
fn ids_left(used: &[u8; 34], max: u8) -> (r: Vec<u8>)
    ensures
        r@.map_values(|x: u8| x as int) == ids_upto(used@, max as int, 34),
        r@.len() <= 34,
        r@.len() == 0 ==> forall|j: int| 0 <= j < 34 ==> #[trigger] used@[j] > max,
        forall|j: int| 0 <= j < r@.len() ==> 1 <= #[trigger] r@[j] <= 34 && used@[r@[j] - 1] <= max,
{
    let mut ids: Vec<u8> = Vec::new();
    let mut k: u8 = 0;
    while k < 34
        invariant
            k <= 34,
            ids@.len() <= k,
            ids@.map_values(|x: u8| x as int) == ids_upto(used@, max as int, k as int),
            forall|j: int| 0 <= j < ids@.len() ==> 1 <= #[trigger] ids@[j] <= k && used@[ids@[j] - 1] <= max,
            ids@.len() == 0 ==> forall|j: int| 0 <= j < k ==> #[trigger] used@[j] > max,
        decreases 34 - k,
    {
        if used[k as usize] <= max {
            ids.push(k + 1);
        }
        k = k + 1;
        assert(ids@.map_values(|x: u8| x as int) =~= ids_upto(used@, max as int, k as int));
    }
    ids
}

/// Adds the next tile of a random hand.
fn hand_step_exec(used: &mut [u8; 34], tiles: &mut Vec<Option<Tile>>, red5s: &mut [bool; 3], i: usize, pick: u8, red: u8, aka: bool)
    requires
        i < 14,
        draw_ok(old(used)@, old(tiles)@, old(red5s)@, i as int, aka),
    ensures
        (final(used)@, final(tiles)@, final(red5s)@) == hand_step((old(used)@, old(tiles)@, old(red5s)@), i as int, pick as int, red as int, aka),
        draw_ok(final(used)@, final(tiles)@, final(red5s)@, i + 1, aka),
{
    let ghost drawn = |o: Option<Tile>| is_drawn(o);
    let ghost st = (used@, tiles@, red5s@);
    let free = ids_left(used, 3);
    if free.len() == 0 {
        proof {
            assert forall|j: int| 0 <= j < tiles@.len() implies (#[trigger] tiles@[j] matches Some(t) && t.valid()) by {
                assert(random_slot(tiles@[j], aka));
            }
            lemma_counts34_sum(tiles@);
            let c = counts34(tiles@, false);
            assert forall|j: int| 0 <= j < c.len() implies #[trigger] c[j] >= 4 by {
                assert(used@[j] > 3);
                assert(used@[j] == id_count(tiles@, j + 1, false));
            }
            lemma_seq_sum_lower(c, 4);
        }
        assert(false);
    }
    let ghost ids = ids_upto(used@, 3, 34);
    let idx = (pick as usize) % free.len();
    let tile_id = free[idx];
    proof {
        assert(free@.map_values(|x: u8| x as int)[idx as int] == tile_id as int);
        assert(ids[pick as int % (ids.len() as int)] == tile_id as int);
        lemma_type_of_id(tile_id as int);
    }
    let ghost before = tiles@;
    used[(tile_id - 1) as usize] = used[(tile_id - 1) as usize] + 1;
    let mut tile = Tile::from_id(tile_id).unwrap();
    if i == 0 {
        tile.is_draw = true;
    }
    let ghost red_before = red5s@;
    if aka {
        if let TileType::Number(value, color) = &tile.tile_type {
            // a chance of one in four of a red 5
            if *value == 5 {
                let c = color_number(color);
                if !red5s[c] && red == 0 {
                    tile.is_red = true;
                    red5s[c] = true;
                }
            }
        }
    }
    tiles.push(Some(tile));
    proof {
        assert((used@, tiles@, red5s@) == hand_step(st, i as int, pick as int, red as int, aka));
        assert forall|k2: int| 0 <= k2 < 34 implies #[trigger] used@[k2] == id_count(tiles@, k2 + 1, false) by {
            lemma_id_count_push(before, Some(tile), k2 + 1, false);
        }
        assert forall|j: int| 0 <= j < i + 1 implies random_slot(#[trigger] tiles@[j], aka) by {
            if j < i {
                assert(tiles@[j] == before[j]);
            }
        }
        lemma_slot_count_push(before, Some(tile), drawn);
        assert forall|c: int| 0 <= c < 3 implies #[trigger] red_count(tiles@, c) == (if red5s@[c] { 1int } else { 0 }) by {
            lemma_slot_count_push(before, Some(tile), |o: Option<Tile>| red_of(o, c));
            assert(red_count(before, c) == (if red_before[c] { 1int } else { 0 }));
        }
    }
}

/// What holds of a finished random hand, from what holds of its 14 slots.
proof fn lemma_random_hand_done(used: Seq<u8>, s: Seq<Option<Tile>>, red: Seq<bool>, aka: bool)
    requires
        draw_ok(used, s, red, 14, aka),
    ensures
        ({
            let t = sort_tiles(s);
            &&& t.len() == 14
            &&& forall|i: int| 0 <= i < 14 ==> random_slot(#[trigger] t[i], aka)
            &&& slot_count(t, |o: Option<Tile>| is_drawn(o)) == 1
            &&& forall|c: int| 0 <= c < 3 ==> #[trigger] red_count(t, c) <= 1
            &&& valid_hand(t)
            &&& hand_size(t) == 14
            &&& tiles_wf(t)
        }),
{
    let t = sort_tiles(s);
    let drawn = |o: Option<Tile>| is_drawn(o);
    let p = |o: Option<Tile>| random_slot(o, aka);
    assert forall|j: int| 0 <= j < s.len() implies p(#[trigger] s[j]) by {}
    lemma_sort_preserves(s, p);
    assert forall|j: int| 0 <= j < 14 implies random_slot(#[trigger] t[j], aka) by {
        assert(p(t[j]));
    }
    lemma_slot_count_sort(s, drawn);
    assert forall|c: int| 0 <= c < 3 implies #[trigger] red_count(t, c) <= 1 by {
        lemma_slot_count_sort(s, |o: Option<Tile>| red_of(o, c));
        assert(red_count(s, c) == (if red[c] { 1int } else { 0 }));
    }
    assert forall|k: int| 0 <= k < 34 implies #[trigger] id_count(t, k + 1, false) <= 4 by {
        lemma_id_count_sort(s, k + 1, false);
        assert(used[k] == id_count(s, k + 1, false));
    }
    assert forall|j: int| 0 <= j < t.len() implies (#[trigger] t[j] matches Some(x) && x.valid()) by {
        assert(random_slot(t[j], aka));
    }
    lemma_counts34_sum(t);
    assert forall|j: int| 0 <= j < t.len() implies !(#[trigger] t[j] matches Some(x) && x.is_kan) by {
        assert(random_slot(t[j], aka));
    }
    lemma_no_kans(t);
}

/// The state after `n` rolls depends on the first `n` rolls only.
proof fn lemma_hand_rolls_prefix(a: Seq<(u8, u8)>, b: Seq<(u8, u8)>, aka: bool, n: int)
    requires
        n <= b.len(),
        n <= a.len(),
        forall|k: int| 0 <= k < n ==> a[k] == b[k],
    ensures
        hand_rolls(a, aka, n) == hand_rolls(b, aka, n),
    decreases n,
{
    if n > 0 {
        lemma_hand_rolls_prefix(a, b, aka, n - 1);
    }
}

/// The counts, tiles and whether the pair is made, of a complete hand being made.
pub type PoolState = (Seq<u8>, Seq<Tile>, bool);

/// Adds a tile of this id (a kan tile or not) to the pool.
pub open spec fn add1(st: PoolState, id: int, kan: bool) -> PoolState {
    (st.0.update(id - 1, (st.0[id - 1] + 1) as u8), st.1.push(plain_of(id, kan)), st.2)
}

/// The kinds of group that may still be made: 0 a run, 1 a triplet, 2 a quad (where asked
/// for), 3 the pair (while it is not made).
pub open spec fn shape_types(kans: bool, pair_found: bool) -> Seq<int> {
    if kans && !pair_found {
        seq![0, 1, 2, 3]
    } else if kans {
        seq![0, 1, 2]
    } else if !pair_found {
        seq![0, 1, 3]
    } else {
        seq![0, 1]
    }
}

/// The kind of group that step `i` makes: the pair where the last step comes without one,
/// else the kind at `kind` (counted round).
pub open spec fn step_shape(i: int, pair_found: bool, kind: int, kans: bool) -> int {
    if i == 4 && !pair_found {
        3
    } else {
        pick_of(shape_types(kans, pair_found), kind)
    }
}

/// Step `i` of a complete hand, from a roll (coin, kind, pick). On a hand that may be open a
/// coin of 0 leaves the step out (open groups are not made), but where the last step must
/// make the pair. A run starts from the index at `pick` among the open runs, a triplet is of
/// the id at `pick` among those with at most one tile, a quad among those with none, the
/// pair among those with at most two.
pub open spec fn complete_step(st: PoolState, i: int, roll: (u8, u8, u8), closed: bool, kans: bool) -> PoolState {
    let shape = step_shape(i, st.2, roll.1 as int, kans);
    let pick = roll.2 as int;
    if !(i == 4 && !st.2) && !closed && roll.0 == 0 {
        st
    } else if shape == 0 {
        let s = pick_of(run_starts(st.0, 27), pick);
        add1(add1(add1(st, s + 1, false), s + 2, false), s + 3, false)
    } else if shape == 1 {
        let id = pick_of(ids_upto(st.0, 1, 34), pick);
        add1(add1(add1(st, id, false), id, false), id, false)
    } else if shape == 2 {
        let id = pick_of(ids_upto(st.0, 0, 34), pick);
        add1(add1(add1(add1(st, id, true), id, true), id, true), id, true)
    } else {
        let id = pick_of(ids_upto(st.0, 2, 34), pick);
        let p = add1(add1(st, id, false), id, false);
        (p.0, p.1, true)
    }
}

/// The state after the first `n` of the rolls.
pub open spec fn complete_rolls(rolls: Seq<(u8, u8, u8)>, closed: bool, kans: bool, n: int) -> PoolState
    decreases n,
{
    if n <= 0 {
        (Seq::new(34, |k: int| 0u8), seq![], false)
    } else {
        complete_step(complete_rolls(rolls, closed, kans, n - 1), n - 1, rolls[n - 1], closed, kans)
    }
}

/// The tiles of the groups and the pair that five rolls make, in the order made.
pub open spec fn complete_tiles(rolls: Seq<(u8, u8, u8)>, closed: bool, kans: bool) -> Seq<Tile> {
    complete_rolls(rolls, closed, kans, 5).1
}

/// The index of the first tile that is neither a kan tile nor open (the length where none is).
pub open spec fn first_plain(p: Seq<Tile>) -> int
    decreases p.len(),
{
    if p.len() == 0 {
        0
    } else {
        let f = first_plain(p.drop_last());
        if f < p.len() - 1 {
            f
        } else if !p.last().is_kan && !p.last().is_open {
            p.len() - 1
        } else {
            p.len() as int
        }
    }
}

/// The tiles as slots, the first that is neither a kan tile nor open marked drawn.
pub open spec fn mark_first(p: Seq<Tile>) -> Seq<Option<Tile>> {
    Seq::new(p.len(), |k: int| Some(if k == first_plain(p) { Tile { is_draw: true, ..p[k] } } else { p[k] }))
}

/// The slots of the complete hand made of the tiles in this order.
pub open spec fn complete_hand_slots(p: Seq<Tile>) -> Seq<Option<Tile>> {
    sort_tiles(mark_first(p))
}

/// What holds of the slots of a complete hand.
pub open spec fn complete_hand_ok(s: Seq<Option<Tile>>, closed: bool, kans: bool) -> bool {
    &&& exists|gs: Seq<(int, int)>, pair: int| #[trigger] complete_form(s, gs, pair, closed, kans)
    &&& forall|i: int| 0 <= i < s.len() ==> complete_slot(#[trigger] s[i], kans)
    &&& slot_count(s, |o: Option<Tile>| is_drawn(o)) == 1
    &&& forall|id: int| 1 <= id <= 34 ==> #[trigger] id_count(s, id, false) <= 4
    &&& closed ==> valid_hand(s)
    &&& closed && !kans ==> s.len() == 14
}

/// The pool after `i` steps holds these groups and, where it is made, this pair.
pub open spec fn pool_groups(used: [u8; 34], tiles: Seq<Tile>, pair_found: bool, i: int,
    gs: Seq<(int, int)>, pair: int, closed: bool, kans: bool) -> bool
{
    &&& 0 <= i <= 5
    &&& pool_ok(used, tiles, kans)
    &&& forall|k: int| 0 <= k < 34 ==> #[trigger] used@[k] == groups_tiles(gs, k + 1) + if pair_found && k + 1 == pair { 2int } else { 0 }
    &&& forall|k: int| 0 <= k < 34 ==> #[trigger] used@[k] <= 4
    &&& forall|j: int| 0 <= j < gs.len() ==> valid_group(#[trigger] gs[j], kans)
    &&& pair_found ==> 1 <= pair <= 34
    &&& kans_of(tiles) == 4 * quads(gs)
    &&& pair_found ==> others_of(tiles) >= 2
    &&& 0 <= quads(gs) <= gs.len()
    &&& !kans ==> quads(gs) == 0
    &&& tiles.len() == 3 * gs.len() + quads(gs) + if pair_found { 2int } else { 0 }
    &&& gs.len() + (if pair_found { 1int } else { 0 }) <= i
    &&& closed ==> gs.len() + (if pair_found { 1int } else { 0 }) == i
    &&& i == 5 ==> pair_found
}

/// The pool after `i` steps holds some groups and, where it is made, a pair.
pub open spec fn pool_inv(used: [u8; 34], tiles: Seq<Tile>, pair_found: bool, i: int, closed: bool, kans: bool) -> bool {
    exists|gs: Seq<(int, int)>, pair: int| #[trigger] pool_groups(used, tiles, pair_found, i, gs, pair, closed, kans)
}

/// A finished pool: its tiles are those of these groups and this pair.
pub open spec fn pool_form(tiles: Seq<Tile>, gs: Seq<(int, int)>, pair: int, closed: bool, kans: bool) -> bool {
    &&& forall|j: int| 0 <= j < tiles.len() ==> plain_tile(#[trigger] tiles[j], kans)
    &&& forall|id: int| 1 <= id <= 34 ==> #[trigger] tiles_of(tiles, id) == groups_tiles(gs, id) + if id == pair { 2int } else { 0 }
    &&& forall|id: int| 1 <= id <= 34 ==> groups_tiles(gs, id) + (if id == pair { 2int } else { 0 }) <= #[trigger] tiles_of(tiles, id) <= 4
    &&& gs.len() <= 4
    &&& closed ==> gs.len() == 4
    &&& forall|j: int| 0 <= j < gs.len() ==> valid_group(#[trigger] gs[j], kans)
    &&& 1 <= pair <= 34
    &&& kans_of(tiles) == 4 * quads(gs)
    &&& others_of(tiles) >= 2
    &&& 0 <= quads(gs) <= gs.len()
    &&& !kans ==> quads(gs) == 0
    &&& tiles.len() == 3 * gs.len() + quads(gs) + 2
}

/// The kind of group that step `i` makes.
fn step_shape_exec(i: u8, pair_found: bool, kind: u8, kans: bool) -> (shape: u8)
    ensures
        shape as int == step_shape(i as int, pair_found, kind as int, kans),
        shape <= 3,
        shape == 2 ==> kans,
        shape == 3 ==> !pair_found,
{
    if i == 4 && !pair_found {
        3
    } else {
        let n: u8 = if kans && !pair_found { 4 } else if kans || !pair_found { 3 } else { 2 };
        let r = kind % n;
        if r < 2 {
            r
        } else if r == 2 && kans {
            2
        } else {
            3
        }
    }
}

/// Step `i` of a complete hand, from a roll.
fn complete_step_exec(used: &mut [u8; 34], tiles: &mut Vec<Tile>, pair_found: &mut bool, i: u8,
    roll: (u8, u8, u8), closed: bool, kans: bool)
    requires
        i < 5,
        pool_inv(*old(used), old(tiles)@, *old(pair_found), i as int, closed, kans),
    ensures
        (final(used)@, final(tiles)@, *final(pair_found)) == complete_step((old(used)@, old(tiles)@, *old(pair_found)), i as int, roll, closed, kans),
        pool_inv(*final(used), final(tiles)@, *final(pair_found), i + 1, closed, kans),
{
    let ghost gp = choose|gs: Seq<(int, int)>, pair: int| pool_groups(*used, tiles@, *pair_found, i as int, gs, pair, closed, kans);
    let ghost mut gs: Seq<(int, int)> = gp.0;
    let ghost mut pair: int = gp.1;
    let ghost st: PoolState = (used@, tiles@, *pair_found);
    let ghost u0 = *used;
    let ghost t0 = tiles@;
    let ghost g0 = gs;
    let (coin, kind, pick) = roll;
    let shape = step_shape_exec(i, *pair_found, kind, kans);
    if i == 4 && !*pair_found {
        // last shape must be a pair now
        let id = generate_toitsu(used, tiles, kans, pick);
        proof {
            pair = id as int;
            lemma_tile_count_bounds(t0, |t: Tile| !t.is_kan);
            lemma_pool_push(t0, plain_of(id as int, false));
            lemma_pool_push(t0.push(plain_of(id as int, false)), plain_of(id as int, false));
            assert(used@ =~= add1(add1(st, id as int, false), id as int, false).0);
        }
        *pair_found = true;
    } else if !closed && coin == 0 {
        // an open group, which is not made
    } else if shape == 0 {
        let start = pick_run(used, pick);
        add_tile(used, tiles, start + 1, false, kans);
        add_tile(used, tiles, start + 2, false, kans);
        add_tile(used, tiles, start + 3, false, kans);
        proof {
            let g = (0int, start + 1);
            gs = gs.push(g);
            lemma_groups_push(g0, g);
            let x1 = plain_of(start + 1, false);
            let x2 = plain_of(start + 2, false);
            let x3 = plain_of(start + 3, false);
            lemma_pool_push(t0, x1);
            lemma_pool_push(t0.push(x1), x2);
            lemma_pool_push(t0.push(x1).push(x2), x3);
        }
    } else if shape == 1 {
        let id = pick_id(used, 1, pick);
        add_tile(used, tiles, id, false, kans);
        add_tile(used, tiles, id, false, kans);
        add_tile(used, tiles, id, false, kans);
        proof {
            let g = (1int, id as int);
            gs = gs.push(g);
            lemma_groups_push(g0, g);
            let x = plain_of(id as int, false);
            lemma_pool_push(t0, x);
            lemma_pool_push(t0.push(x), x);
            lemma_pool_push(t0.push(x).push(x), x);
        }
    } else if shape == 2 {
        let id = pick_id(used, 0, pick);
        add_tile(used, tiles, id, true, kans);
        add_tile(used, tiles, id, true, kans);
        add_tile(used, tiles, id, true, kans);
        add_tile(used, tiles, id, true, kans);
        proof {
            let g = (2int, id as int);
            gs = gs.push(g);
            lemma_groups_push(g0, g);
            let x = plain_of(id as int, true);
            lemma_pool_push(t0, x);
            lemma_pool_push(t0.push(x), x);
            lemma_pool_push(t0.push(x).push(x), x);
            lemma_pool_push(t0.push(x).push(x).push(x), x);
        }
    } else {
        let id = generate_toitsu(used, tiles, kans, pick);
        proof {
            pair = id as int;
            lemma_tile_count_bounds(t0, |t: Tile| !t.is_kan);
            lemma_pool_push(t0, plain_of(id as int, false));
            lemma_pool_push(t0.push(plain_of(id as int, false)), plain_of(id as int, false));
            assert(used@ =~= add1(add1(st, id as int, false), id as int, false).0);
        }
        *pair_found = true;
    }
    proof {
        assert(pool_groups(*used, tiles@, *pair_found, i + 1, gs, pair, closed, kans));
    }
}

/// The pool that the steps from these rolls make.
fn complete_pool(rolls: &Vec<(u8, u8, u8)>, closed: bool, kans: bool) -> (tiles: Vec<Tile>)
    requires
        rolls@.len() == 5,
    ensures
        tiles@ == complete_tiles(rolls@, closed, kans),
        exists|gs: Seq<(int, int)>, pair: int| #[trigger] pool_form(tiles@, gs, pair, closed, kans),
{
    let mut pair_found = false;
    let mut used: [u8; 34] = [0; 34];
    let mut tiles: Vec<Tile> = Vec::new();
    proof {
        assert(used_seq(used) =~= Seq::new(34, |k: int| 0int));
        crate::riichi::tile_counts::lemma_seq_sum_zeros(34);
        assert(used@ =~= complete_rolls(rolls@, closed, kans, 0).0);
        assert(pool_groups(used, tiles@, pair_found, 0, seq![], 0, closed, kans));
    }
    let mut i: u8 = 0;
    while i < 5
        invariant
            i <= 5,
            rolls@.len() == 5,
            pool_inv(used, tiles@, pair_found, i as int, closed, kans),
            (used@, tiles@, pair_found) == complete_rolls(rolls@, closed, kans, i as int),
        decreases 5 - i,
    {
        complete_step_exec(&mut used, &mut tiles, &mut pair_found, i, rolls[i as usize], closed, kans);
        i = i + 1;
    }
    proof {
        lemma_pool_done(used, tiles@, pair_found, closed, kans);
    }
    tiles
}

/// A pool after all five steps is finished.
proof fn lemma_pool_done(used: [u8; 34], tiles: Seq<Tile>, pair_found: bool, closed: bool, kans: bool)
    requires
        pool_inv(used, tiles, pair_found, 5, closed, kans),
    ensures
        exists|gs: Seq<(int, int)>, pair: int| #[trigger] pool_form(tiles, gs, pair, closed, kans),
{
    let gp = choose|gs: Seq<(int, int)>, pair: int| pool_groups(used, tiles, pair_found, 5, gs, pair, closed, kans);
    let gs = gp.0;
    let pair = gp.1;
    assert forall|id: int| 1 <= id <= 34 implies #[trigger] tiles_of(tiles, id) == groups_tiles(gs, id) + if id == pair { 2int } else { 0 } by {
        assert(used@[id - 1] == tiles_of(tiles, id - 1 + 1));
    }
    assert forall|id: int| 1 <= id <= 34 implies groups_tiles(gs, id) + (if id == pair { 2int } else { 0 }) <= #[trigger] tiles_of(tiles, id) <= 4 by {
        assert(used@[id - 1] == tiles_of(tiles, id - 1 + 1));
        assert(used@[id - 1] <= 4);
    }
    assert(pool_form(tiles, gs, pair, closed, kans));
}

/// The same tiles in another order make a finished pool of the same groups.
proof fn lemma_pool_form_perm(a: Seq<Tile>, b: Seq<Tile>, gs: Seq<(int, int)>, pair: int, closed: bool, kans: bool)
    requires
        pool_form(a, gs, pair, closed, kans),
        a.to_multiset() == b.to_multiset(),
    ensures
        pool_form(b, gs, pair, closed, kans),
{
    broadcast use vstd::seq_lib::group_to_multiset_ensures;
    assert forall|k: int| 0 <= k < b.len() implies plain_tile(#[trigger] b[k], kans) by {
        assert(b.contains(b[k]));
        assert(b.to_multiset().count(b[k]) > 0);
        assert(a.contains(b[k]));
        let j = choose|j: int| 0 <= j < a.len() && a[j] == b[k];
        assert(plain_tile(a[j], kans));
    }
    assert(b.len() == a.len()) by {
        assert(b.len() == b.to_multiset().len());
        assert(a.len() == a.to_multiset().len());
    }
    assert forall|id: int| 1 <= id <= 34 implies #[trigger] tiles_of(b, id) == tiles_of(a, id) by {
        lemma_tile_count_permutation(b, a, |x: Tile| x.spec_id() == id);
    }
    lemma_tile_count_permutation(b, a, |t: Tile| t.is_kan);
    lemma_tile_count_permutation(b, a, |t: Tile| !t.is_kan);
}

impl Hand {
    /// The hand that 14 rolls make: for each tile, a pick among the ids that have a tile left
    /// (counted round) and a red roll (a five is red on 0, where red fives are in play and
    /// none of its color is red yet); the first tile is drawn.
    pub fn random_hand_from_rolls(rules: Option<&Rules>, rolls: &Vec<(u8, u8)>) -> (h: Hand)
        requires
            rolls@.len() == 14,
        ensures
            h.tiles@ == random_hand_slots(rolls@, aka_in(rules)),
            h.shapes@.len() == 0,
            h.array_34 is None,
            h.shanten == 99,
    {
        let aka = match rules {
            Some(r) => r.aka_ari,
            None => false,
        };
        let mut used: [u8; 34] = [0; 34];
        let mut tiles: Vec<Option<Tile>> = Vec::new();
        let mut red5s: [bool; 3] = [false; 3];
        let mut i: usize = 0;
        proof {
            assert(used@ =~= hand_rolls(rolls@, aka, 0).0);
            assert(red5s@ =~= hand_rolls(rolls@, aka, 0).2);
        }
        while i < 14
            invariant
                aka == aka_in(rules),
                rolls@.len() == 14,
                draw_ok(used@, tiles@, red5s@, i as int, aka),
                (used@, tiles@, red5s@) == hand_rolls(rolls@, aka, i as int),
            decreases 14 - i,
        {
            let (pick, red) = rolls[i];
            hand_step_exec(&mut used, &mut tiles, &mut red5s, i, pick, red, aka);
            i = i + 1;
        }
        Hand::new(tiles)
    }

    /// Generate a random closed hand: 14 tiles, at most four of each, the first one drawn;
    /// with red fives in play each five may be red (one in four), at most one red five of
    /// each color. It is the hand that some rolls make, each pick less than the number of
    /// ids left and each red roll less than 4.
    pub fn random_hand(rules: Option<&Rules>) -> (h: Hand)
        ensures
            exists|rolls: Seq<(u8, u8)>| rolls.len() == 14
                && (forall|k: int| 0 <= k < 14 ==> (#[trigger] rolls[k]).0 < 34 && rolls[k].1 < 4)
                && h.tiles@ == #[trigger] random_hand_slots(rolls, aka_in(rules)),
            h.tiles@.len() == 14,
            forall|i: int| 0 <= i < 14 ==> random_slot(#[trigger] h.tiles@[i], aka_in(rules)),
            slot_count(h.tiles@, |o: Option<Tile>| is_drawn(o)) == 1,
            forall|c: int| 0 <= c < 3 ==> #[trigger] red_count(h.tiles@, c) <= 1,
            valid_hand(h.tiles@),
            hand_size(h.tiles@) == 14,
            h.wf(),
            h.shapes@.len() == 0,
            h.array_34 is None,
            h.shanten == 99,
    {
        let aka = match rules {
            Some(r) => r.aka_ari,
            None => false,
        };
        let mut used: [u8; 34] = [0; 34];
        let mut tiles: Vec<Option<Tile>> = Vec::new();
        // if I generated a red 5, save it here: 0 = m, 1 = p, 2 = s
        let mut red5s: [bool; 3] = [false; 3];
        let ghost mut rolls: Seq<(u8, u8)> = seq![];
        let mut i: usize = 0;
        proof {
            assert(used@ =~= hand_rolls(rolls, aka, 0).0);
            assert(red5s@ =~= hand_rolls(rolls, aka, 0).2);
            assert forall|k: int| 0 <= k < 34 implies used@[k] == id_count(tiles@, k + 1, false) by {}
        }
        while i < 14
            invariant
                aka == aka_in(rules),
                rolls.len() == i,
                forall|k: int| 0 <= k < i ==> (#[trigger] rolls[k]).0 < 34 && rolls[k].1 < 4,
                draw_ok(used@, tiles@, red5s@, i as int, aka),
                (used@, tiles@, red5s@) == hand_rolls(rolls, aka, i as int),
            decreases 14 - i,
        {
            let free = ids_left(&used, 3);
            if free.len() == 0 {
                proof {
                    assert forall|j: int| 0 <= j < tiles@.len() implies (#[trigger] tiles@[j] matches Some(t) && t.valid()) by {
                        assert(random_slot(tiles@[j], aka));
                    }
                    lemma_counts34_sum(tiles@);
                    let c = counts34(tiles@, false);
                    assert forall|j: int| 0 <= j < c.len() implies #[trigger] c[j] >= 4 by {
                        assert(used@[j] > 3);
                        assert(used@[j] == id_count(tiles@, j + 1, false));
                    }
                    lemma_seq_sum_lower(c, 4);
                }
                assert(false);
            }
            let pick = random_in_range(0, free.len() as i64) as u8;
            let tile_id = free[pick as usize];
            // 25% chance of having a red 5, where one can be
            let mut red: u8 = 1;
            if aka && (tile_id == 5 || tile_id == 14 || tile_id == 23) && !red5s[((tile_id - 5) / 9) as usize] {
                red = random_in_range(0, 4) as u8;
            }
            let ghost prev = rolls;
            hand_step_exec(&mut used, &mut tiles, &mut red5s, i, pick, red, aka);
            proof {
                rolls = rolls.push((pick, red));
                lemma_hand_rolls_prefix(rolls, prev, aka, i as int);
                assert(hand_rolls(rolls, aka, i + 1) == hand_step(hand_rolls(rolls, aka, i as int), i as int, pick as int, red as int, aka));
                assert forall|k: int| 0 <= k < i + 1 implies (#[trigger] rolls[k]).0 < 34 && rolls[k].1 < 4 by {
                    if k < i {
                        assert(rolls[k] == prev[k]);
                    }
                }
            }
            i = i + 1;
        }
        let ghost s = tiles@;
        proof {
            lemma_random_hand_done(used@, s, red5s@, aka);
        }
        let h = Hand::new(tiles);
        assert(h.tiles@ == random_hand_slots(rolls, aka));
        h
    }

    /// The complete hand that five rolls make (see `complete_step`), with its tiles in the
    /// order made; the first tile that is not a kan tile is drawn.
    pub fn complete_hand_from_rolls(rolls: &Vec<(u8, u8, u8)>, closed: bool, kans: bool) -> (h: Hand)
        requires
            rolls@.len() == 5,
        ensures
            h.tiles@ == complete_hand_slots(complete_tiles(rolls@, closed, kans)),
            complete_hand_ok(h.tiles@, closed, kans),
            h.wf(),
            h.shapes@.len() == 0,
            h.array_34 is None,
            h.shanten == 99,
    {
        let tiles = complete_pool(rolls, closed, kans);
        mark_draw_hand(tiles, closed, kans)
    }

    /// Generate a random complete hand: four groups (runs, triplets and, where `kans` allows,
    /// quads) and a pair, of at most four tiles of each kind; one tile that is not a kan tile
    /// is drawn. Where `closed` is false each group is left out at even odds (open groups are
    /// not made). It is the hand that some rolls make, its tiles shuffled: each coin less than
    /// 2, each kind roll less than 12, each pick less than the number of choices it has.
    pub fn random_complete_hand(closed: bool, kans: bool) -> (h: Hand)
        ensures
            exists|rolls: Seq<(u8, u8, u8)>, p: Seq<Tile>|
                #![trigger complete_tiles(rolls, closed, kans), complete_hand_slots(p)]
                rolls.len() == 5
                && (forall|k: int| 0 <= k < 5 ==> (#[trigger] rolls[k]).0 < 2 && rolls[k].1 < 12)
                && p.to_multiset() == complete_tiles(rolls, closed, kans).to_multiset()
                && h.tiles@ == complete_hand_slots(p),
            complete_hand_ok(h.tiles@, closed, kans),
            h.wf(),
            h.shapes@.len() == 0,
            h.array_34 is None,
            h.shanten == 99,
    {
        // we are looking to generate 4 shapes + 1 pair, so 5 shapes
        // ignoring kokushi and chiitoitsu for now
        let mut pair_found = false;
        let mut used: [u8; 34] = [0; 34];
        let mut tiles: Vec<Tile> = Vec::new();
        let ghost mut rolls: Seq<(u8, u8, u8)> = seq![];
        proof {
            assert(used_seq(used) =~= Seq::new(34, |k: int| 0int));
            crate::riichi::tile_counts::lemma_seq_sum_zeros(34);
            assert(used@ =~= complete_rolls(rolls, closed, kans, 0).0);
            assert(pool_groups(used, tiles@, pair_found, 0, seq![], 0, closed, kans));
        }
        let mut i: u8 = 0;
        while i < 5
            invariant
                i <= 5,
                rolls.len() == i,
                forall|k: int| 0 <= k < i ==> (#[trigger] rolls[k]).0 < 2 && rolls[k].1 < 12,
                pool_inv(used, tiles@, pair_found, i as int, closed, kans),
                (used@, tiles@, pair_found) == complete_rolls(rolls, closed, kans, i as int),
            decreases 5 - i,
        {
            // open or closed shape? (open shapes are not made)
            let coin: u8 = if !closed { random_in_range(0, 2) as u8 } else { 1 };
            // the kind of group, round a multiple of 2, 3 and 4, so each kind is as likely
            let kind = random_in_range(0, 12) as u8;
            let shape = step_shape_exec(i, pair_found, kind, kans);
            let n = choice_count(&used, shape);
            let pick: u8 = if n == 0 { 0 } else { random_in_range(0, n as i64) as u8 };
            let ghost prev = rolls;
            complete_step_exec(&mut used, &mut tiles, &mut pair_found, i, (coin, kind, pick), closed, kans);
            proof {
                rolls = rolls.push((coin, kind, pick));
                lemma_complete_rolls_prefix(rolls, prev, closed, kans, i as int);
                assert forall|k: int| 0 <= k < i + 1 implies (#[trigger] rolls[k]).0 < 2 && rolls[k].1 < 12 by {
                    if k < i {
                        assert(rolls[k] == prev[k]);
                    }
                }
            }
            i = i + 1;
        }
        proof {
            lemma_pool_done(used, tiles@, pair_found, closed, kans);
        }
        let ghost orig = tiles@;
        shuffle_tiles(&mut tiles);
        proof {
            let gp = choose|gs: Seq<(int, int)>, pair: int| pool_form(orig, gs, pair, closed, kans);
            lemma_pool_form_perm(orig, tiles@, gp.0, gp.1, closed, kans);
        }
        let ghost sh = tiles@;
        let h = mark_draw_hand(tiles, closed, kans);
        proof {
            assert(orig == complete_tiles(rolls, closed, kans));
            assert(h.tiles@ == complete_hand_slots(sh));
        }
        h
    }
}

/// How many choices the pick of this kind of group counts round.
fn choice_count(used: &[u8; 34], shape: u8) -> (n: usize)
    ensures
        n <= 135,
        n == if shape == 0 {
            run_starts(used@, 27).len()
        } else if shape == 1 {
            ids_upto(used@, 1, 34).len()
        } else if shape == 2 {
            ids_upto(used@, 0, 34).len()
        } else {
            ids_upto(used@, 2, 34).len()
        },
{
    if shape == 0 {
        run_starts_exec(used).len()
    } else if shape == 1 {
        ids_left(used, 1).len()
    } else if shape == 2 {
        ids_left(used, 0).len()
    } else {
        ids_left(used, 2).len()
    }
}

/// The state after `n` rolls depends on the first `n` rolls only.
proof fn lemma_complete_rolls_prefix(a: Seq<(u8, u8, u8)>, b: Seq<(u8, u8, u8)>, closed: bool, kans: bool, n: int)
    requires
        n <= b.len(),
        n <= a.len(),
        forall|k: int| 0 <= k < n ==> a[k] == b[k],
    ensures
        complete_rolls(a, closed, kans, n) == complete_rolls(b, closed, kans, n),
    decreases n,
{
    if n > 0 {
        lemma_complete_rolls_prefix(a, b, closed, kans, n - 1);
    }
}

/// The hand of a finished pool: the first tile that is neither a kan tile nor open is drawn.
fn mark_draw_hand(tiles: Vec<Tile>, closed: bool, kans: bool) -> (h: Hand)
    requires
        exists|gs: Seq<(int, int)>, pair: int| #[trigger] pool_form(tiles@, gs, pair, closed, kans),
    ensures
        h.tiles@ == complete_hand_slots(tiles@),
        complete_hand_ok(h.tiles@, closed, kans),
        h.wf(),
        h.shapes@.len() == 0,
        h.array_34 is None,
        h.shanten == 99,
{
    let ghost gp = choose|gs: Seq<(int, int)>, pair: int| pool_form(tiles@, gs, pair, closed, kans);
    let ghost gs = gp.0;
    let ghost pair = gp.1;
    let ghost sh = tiles@;
    let ghost drawn = |o: Option<Tile>| is_drawn(o);
    let mut final_tiles: Vec<Option<Tile>> = Vec::new();
    let mut found_draw = false;
    let mut j: usize = 0;
    proof {
        assert(sh.take(0) =~= Seq::<Tile>::empty());
    }
    while j < tiles.len()
        invariant
            sh == tiles@,
            j <= sh.len(),
            final_tiles@.len() == j,
            drawn == (|o: Option<Tile>| is_drawn(o)),
            forall|k: int| 0 <= k < sh.len() ==> plain_tile(#[trigger] sh[k], kans),
            first_plain(sh.take(j as int)) <= j,
            found_draw <==> first_plain(sh.take(j as int)) < j,
            forall|k: int| 0 <= k < j ==> #[trigger] final_tiles@[k] == Some(
                if k == first_plain(sh.take(j as int)) { Tile { is_draw: true, ..sh[k] } } else { sh[k] }),
            forall|k: int| 0 <= k < j ==> complete_slot(#[trigger] final_tiles@[k], kans),
            forall|id: int| #[trigger] id_count(final_tiles@, id, false) == tiles_of(sh.take(j as int), id),
            kan_count(final_tiles@) == kans_of(sh.take(j as int)),
            slot_count(final_tiles@, drawn) == if found_draw { 1int } else { 0 },
            !found_draw ==> forall|k: int| 0 <= k < j ==> (#[trigger] sh[k]).is_kan,
        decreases sh.len() - j,
    {
        let ghost f0 = final_tiles@;
        let ghost fp = first_plain(sh.take(j as int));
        let mut tile = tiles[j];
        if !found_draw && !tile.is_open && !tile.is_kan {
            tile.is_draw = true;
            found_draw = true;
        }
        final_tiles.push(Some(tile));
        proof {
            let x = sh[j as int];
            assert(plain_tile(x, kans));
            assert(sh.take(j + 1) =~= sh.take(j as int).push(x));
            assert(sh.take(j + 1).drop_last() =~= sh.take(j as int));
            let fq = first_plain(sh.take(j + 1));
            assert(fq == if fp < j { fp } else if !x.is_kan && !x.is_open { j as int } else { j + 1 });
            assert forall|id: int| #[trigger] id_count(final_tiles@, id, false) == tiles_of(sh.take(j + 1), id) by {
                lemma_id_count_push(f0, Some(tile), id, false);
                lemma_tile_count_push(sh.take(j as int), x, |t: Tile| t.spec_id() == id);
                assert(id_count(f0, id, false) == tiles_of(sh.take(j as int), id));
            }
            lemma_pool_push(sh.take(j as int), x);
            assert(final_tiles@.drop_last() =~= f0);
            lemma_slot_count_push(f0, Some(tile), drawn);
            assert forall|k: int| 0 <= k < j + 1 implies #[trigger] final_tiles@[k] == Some(
                if k == fq { Tile { is_draw: true, ..sh[k] } } else { sh[k] }) by {
                if k < j {
                    assert(final_tiles@[k] == f0[k]);
                }
            }
            assert forall|k: int| 0 <= k < j + 1 implies complete_slot(#[trigger] final_tiles@[k], kans) by {
                if k < j {
                    assert(final_tiles@[k] == f0[k]);
                }
            }
        }
        j = j + 1;
    }
    proof {
        assert(sh.take(sh.len() as int) =~= sh);
        if !found_draw {
            lemma_tile_count_witness(sh, |t: Tile| !t.is_kan);
            let k = choose|k: int| 0 <= k < sh.len() && !(#[trigger] sh[k]).is_kan;
            assert(sh[k].is_kan);
        }
        assert(final_tiles@ =~= mark_first(sh));
    }
    let ghost f = final_tiles@;
    let h = Hand::new(final_tiles);
    proof {
        let t = sort_tiles(f);
        lemma_sort_len(f);
        let p = |o: Option<Tile>| complete_slot(o, kans);
        assert forall|k: int| 0 <= k < f.len() implies p(#[trigger] f[k]) by {}
        lemma_sort_preserves(f, p);
        assert forall|k: int| 0 <= k < t.len() implies complete_slot(#[trigger] t[k], kans) by {
            assert(p(t[k]));
        }
        lemma_slot_count_sort(f, drawn);
        assert forall|id: int| 1 <= id <= 34 implies #[trigger] id_count(t, id, false) == groups_tiles(gs, id) + if id == pair { 2int } else { 0 } by {
            lemma_id_count_sort(f, id, false);
            assert(id_count(f, id, false) == tiles_of(sh, id));
        }
        assert forall|id: int| 1 <= id <= 34 implies #[trigger] id_count(t, id, false) <= 4 by {
            lemma_id_count_sort(f, id, false);
            assert(id_count(f, id, false) == tiles_of(sh, id));
        }
        let kp = |o: Option<Tile>| o matches Some(x) && x.is_kan;
        lemma_kan_count_slots(f);
        lemma_kan_count_slots(t);
        lemma_slot_count_sort(f, kp);
        assert(kan_count(t) == 4 * quads(gs));
        assert(complete_form(t, gs, pair, closed, kans));
        assert forall|k: int| 0 <= k < t.len() implies (#[trigger] t[k] matches Some(x) && x.valid()) by {
            assert(complete_slot(t[k], kans));
        }
        lemma_counts34_sum(t);
    }
    h
}

} // verus!
