use vstd::prelude::*;
use super::tile::{Tile, TileType, blank, type_of_id, next_spec, lemma_type_of_id};
use super::hand::Hand;
use super::shapes::{ClosedShape, CompleteShape, OpenShape, Shape, ShapeType, shape_notation, push_shape_notation};
use super::shanten::is_terminal_or_honor_index;
use super::tiles_seq::id_count;
use super::hand::hand_size;

verus! {

/// Finds the ways to split a complete hand into shapes.
pub struct ShapeFinder {
    pub variants: Vec<Vec<Shape>>,
    pub current_variant: Vec<Shape>,
}

/// The state of a search: the current variant, the variants found and the shapes still to be
/// added to the next variant found.
pub type SearchState = (Seq<Shape>, Seq<Seq<Shape>>, Seq<Shape>);

/// The sum of the counts.
pub open spec fn count_sum(a: Seq<u8>) -> int
    decreases a.len(),
{
    if a.len() == 0 {
        0
    } else {
        count_sum(a.drop_last()) + a.last()
    }
}

pub proof fn lemma_count_sum_nonneg(a: Seq<u8>)
    ensures
        count_sum(a) >= 0,
    decreases a.len(),
{
    if a.len() > 0 {
        lemma_count_sum_nonneg(a.drop_last());
    }
}

/// Taking one tile lowers the sum by one.
pub proof fn lemma_count_sum_take(a: Seq<u8>, k: int)
    requires
        0 <= k < a.len(),
        a[k] > 0,
    ensures
        count_sum(take_one(a, k)) == count_sum(a) - 1,
    decreases a.len(),
{
    let b = take_one(a, k);
    if k == a.len() - 1 {
        assert(b.drop_last() =~= a.drop_last());
    } else {
        assert(b.drop_last() =~= take_one(a.drop_last(), k));
        lemma_count_sum_take(a.drop_last(), k);
    }
}

/// A closed shape of tiles taken out of the counts.
pub open spec fn closed_shape(c: ClosedShape, n: u8) -> Shape {
    Shape { shape_type: ShapeType::Complete(CompleteShape::Closed(c)), tile_count: n, is_open: false }
}

/// The tile of an index of the counts.
pub open spec fn tile_at(depth: int) -> Tile {
    blank(type_of_id(depth + 1))
}

/// The counts with one tile of an id less.
pub open spec fn take_one(a: Seq<u8>, k: int) -> Seq<u8> {
    a.update(k, (a[k] - 1) as u8)
}

/// Removes the first shape written like `x`; nothing where there is none.
pub open spec fn remove_first(s: Seq<Shape>, x: Shape) -> Seq<Shape>
    decreases s.len(),
{
    if s.len() == 0 {
        s
    } else if shape_notation(s[0]) == shape_notation(x) {
        s.drop_first()
    } else {
        seq![s[0]] + remove_first(s.drop_first(), x)
    }
}

/// Checking a variant shape by shape: still valid, and whether it holds a single, a triplet, a
/// run, and how many pairs.
pub open spec fn variant_scan(s: Seq<Shape>) -> (bool, bool, bool, bool, int)
    decreases s.len(),
{
    if s.len() == 0 {
        (true, false, false, false, 0)
    } else {
        let (ok, single, koutsu, shuntsu, toitsu) = variant_scan(s.drop_last());
        if !ok {
            (false, single, koutsu, shuntsu, toitsu)
        } else {
            match s.last().shape_type {
                ShapeType::Complete(CompleteShape::Closed(ClosedShape::Single(_))) => if koutsu || shuntsu || toitsu > 1 {
                    (false, single, koutsu, shuntsu, toitsu)
                } else {
                    (true, true, koutsu, shuntsu, toitsu)
                },
                ShapeType::Complete(CompleteShape::Closed(ClosedShape::Toitsu(_))) => if toitsu > 1 && (koutsu || shuntsu || single) {
                    (false, single, koutsu, shuntsu, toitsu)
                } else {
                    (true, single, koutsu, shuntsu, toitsu + 1)
                },
                ShapeType::Complete(CompleteShape::Closed(ClosedShape::Shuntsu(_))) => if toitsu > 1 || single {
                    (false, single, koutsu, shuntsu, toitsu)
                } else {
                    (true, single, koutsu, true, toitsu)
                },
                ShapeType::Complete(CompleteShape::Closed(_)) => if toitsu > 1 || single {
                    (false, single, koutsu, shuntsu, toitsu)
                } else {
                    (true, single, true, shuntsu, toitsu)
                },
                ShapeType::Complete(CompleteShape::Open(_)) => (true, single, koutsu, shuntsu, toitsu),
                ShapeType::Incomplete(..) => (false, single, koutsu, shuntsu, toitsu),
            }
        }
    }
}

/// A variant made of kokushi singles (with one pair), of pairs only, or of melds and one pair.
pub open spec fn valid_variant(s: Seq<Shape>) -> bool {
    variant_scan(s).0 && variant_scan(s).4 > 0
}

/// The notations of some shapes.
pub open spec fn notations(s: Seq<Shape>) -> Seq<Seq<char>> {
    Seq::new(s.len(), |i: int| shape_notation(s[i]))
}

/// Strings in order of their characters.
pub open spec fn chars_le(a: Seq<char>, b: Seq<char>) -> bool
    decreases a.len(),
{
    if a.len() == 0 {
        true
    } else if b.len() == 0 {
        false
    } else if a[0] < b[0] {
        true
    } else if a[0] > b[0] {
        false
    } else {
        chars_le(a.drop_first(), b.drop_first())
    }
}

/// Inserts a string after every string not after it.
pub open spec fn insert_str(s: Seq<Seq<char>>, x: Seq<char>) -> Seq<Seq<char>>
    decreases s.len(),
{
    if s.len() == 0 {
        seq![x]
    } else if chars_le(s.last(), x) {
        s.push(x)
    } else {
        insert_str(s.drop_last(), x).push(s.last())
    }
}

/// Strings sorted.
pub open spec fn sort_strs(s: Seq<Seq<char>>) -> Seq<Seq<char>>
    decreases s.len(),
{
    if s.len() == 0 {
        s
    } else {
        insert_str(sort_strs(s.drop_last()), s.last())
    }
}

/// Strings joined, each followed by a space.
pub open spec fn repr(s: Seq<Seq<char>>) -> Seq<char>
    decreases s.len(),
{
    if s.len() == 0 {
        seq![]
    } else {
        repr(s.drop_last()) + s.last() + seq![' ']
    }
}

/// The current variant is new: no variant found so far is written like its sorted shapes.
pub open spec fn not_included(vars: Seq<Seq<Shape>>, cur: Seq<Shape>) -> bool {
    vars.len() == 0 || forall|k: int| 0 <= k < vars.len() ==> repr(sort_strs(notations(cur))) != repr(notations(#[trigger] vars[k]))
}

/// The search with a shape taken out: the deeper search, then the shape removed again.
pub open spec fn try_shape(a: Seq<u8>, depth: int, sh: Shape, taken: Seq<u8>, st: SearchState) -> SearchState
    decreases count_sum(a), 34 - depth, 0int,
{
    if 0 <= depth < 34 && a.len() == 34 && count_sum(taken) < count_sum(a) && taken.len() == 34 {
        proof {
            lemma_count_sum_nonneg(taken);
        }
        let inner = if taken[depth] > 0 {
            search_spec(taken, depth, (st.0.push(sh), st.1, st.2))
        } else {
            search_spec(taken, depth + 1, (st.0.push(sh), st.1, st.2))
        };
        (remove_first(inner.0, sh), inner.1, inner.2)
    } else {
        st
    }
}

/// The index after a tile's id, where there is a next tile in its suit.
pub open spec fn next_index(depth: int) -> Option<int> {
    match next_spec(tile_at(depth), false) {
        Some(t) => Some(t.spec_id() - 1),
        None => None,
    }
}

/// The search of the splits of the counts from index `depth` on: at each index, a triplet, a
/// pair, a single (terminals and honors only) and a run, each tried in turn; a split that uses
/// all tiles and is valid and new is added to the variants (with the extra shapes the first
/// time).
pub open spec fn search_spec(a: Seq<u8>, depth: int, st: SearchState) -> SearchState
    decreases count_sum(a), 34 - depth, 1int,
{
    if depth > 33 || depth < 0 || a.len() != 34 {
        if valid_variant(st.0) && not_included(st.1, st.0) {
            (st.0, st.1.push(st.0 + st.2), seq![])
        } else {
            st
        }
    } else if a[depth] == 0 {
        search_spec(a, depth + 1, st)
    } else {
        let t = tile_at(depth);
        let st1 = if a[depth] >= 3 {
            try_shape(a, depth, closed_shape(ClosedShape::Koutsu([t, t, t]), 3),
                take_one(take_one(take_one(a, depth), depth), depth), st)
        } else {
            st
        };
        let st2 = if a[depth] >= 2 {
            try_shape(a, depth, closed_shape(ClosedShape::Toitsu([t, t]), 2), take_one(take_one(a, depth), depth), st1)
        } else {
            st1
        };
        let st3 = if is_terminal_or_honor_index(depth) {
            try_shape(a, depth, closed_shape(ClosedShape::Single(t), 1), take_one(a, depth), st2)
        } else {
            st2
        };
        match next_index(depth) {
            Some(n1) => if a[n1] > 0 {
                match next_index(n1) {
                    Some(n2) => if a[n2] > 0 {
                        try_shape(a, depth, closed_shape(ClosedShape::Shuntsu([t, tile_at(n1), tile_at(n2)]), 3),
                            take_one(take_one(take_one(a, depth), n1), n2), st3)
                    } else {
                        st3
                    },
                    None => st3,
                }
            } else {
                st3
            },
            None => st3,
        }
    }
}

/// The shape a call or closed kan of the hand adds to every variant.
pub open spec fn extra_shapes(shapes: Seq<CompleteShape>) -> Seq<Shape>
    decreases shapes.len(),
{
    if shapes.len() == 0 {
        seq![]
    } else {
        extra_shapes(shapes.drop_last()) + match shapes.last() {
            CompleteShape::Closed(ClosedShape::Kantsu(t)) => seq![closed_shape(ClosedShape::Kantsu(t), 4)],
            CompleteShape::Closed(_) => seq![],
            CompleteShape::Open(o) => seq![Shape {
                shape_type: ShapeType::Complete(CompleteShape::Open(o)),
                tile_count: if o is Kan { 4u8 } else { 3u8 },
                is_open: true,
            }],
        }
    }
}

/// The free-tile counts of a hand.
pub open spec fn free_counts(h: Hand) -> Seq<u8> {
    Seq::new(34, |k: int| id_count(h.tiles@, k + 1, true) as u8)
}

/// Every variant with the extra shapes (calls and closed kans) after its own.
pub open spec fn with_extras(vs: Seq<Seq<Shape>>, extra: Seq<Shape>) -> Seq<Seq<Shape>> {
    vs.map_values(|v: Seq<Shape>| v + extra)
}

/// The variants as the contracts see them.
pub open spec fn vars_view(v: Seq<Vec<Shape>>) -> Seq<Seq<Shape>> {
    v.map_values(|x: Vec<Shape>| x@)
}

/// The strings as the contracts see them.
pub open spec fn strs_view(v: Seq<Vec<char>>) -> Seq<Seq<char>> {
    v.map_values(|x: Vec<char>| x@)
}

/// The counts after taking the first `n` of three indices, in order.
pub open spec fn taken_spec(a: Seq<u8>, i1: int, i2: int, i3: int, n: int) -> Seq<u8> {
    if n == 1 {
        take_one(a, i1)
    } else if n == 2 {
        take_one(take_one(a, i1), i2)
    } else {
        take_one(take_one(take_one(a, i1), i2), i3)
    }
}

fn notation_of(sh: &Shape) -> (v: Vec<char>)
    ensures
        v@ == shape_notation(*sh),
{
    let mut v: Vec<char> = Vec::new();
    push_shape_notation(&mut v, sh);
    assert(v@ =~= shape_notation(*sh));
    v
}

pub(crate) fn chars_eq(a: &Vec<char>, b: &Vec<char>) -> (r: bool)
    ensures
        r == (a@ == b@),
{
    if a.len() != b.len() {
        return false;
    }
    let mut i: usize = 0;
    while i < a.len()
        invariant
            a@.len() == b@.len(),
            i <= a@.len(),
            forall|j: int| 0 <= j < i ==> a@[j] == b@[j],
        decreases a.len() - i,
    {
        if a[i] != b[i] {
            return false;
        }
        i = i + 1;
    }
    assert(a@ =~= b@);
    true
}

fn chars_le_exec(a: &Vec<char>, b: &Vec<char>) -> (r: bool)
    ensures
        r == chars_le(a@, b@),
{
    let mut i: usize = 0;
    assert(a@.skip(0) =~= a@);
    assert(b@.skip(0) =~= b@);
    while i < a.len() && i < b.len() && a[i] == b[i]
        invariant
            i <= a@.len(),
            i <= b@.len(),
            chars_le(a@, b@) == chars_le(a@.skip(i as int), b@.skip(i as int)),
        decreases a.len() - i,
    {
        assert(a@.skip(i as int).drop_first() =~= a@.skip(i + 1));
        assert(b@.skip(i as int).drop_first() =~= b@.skip(i + 1));
        i = i + 1;
    }
    if i == a.len() {
        return true;
    }
    if i == b.len() {
        return false;
    }
    assert(a@.skip(i as int)[0] == a@[i as int]);
    assert(b@.skip(i as int)[0] == b@[i as int]);
    assert(a@[i as int] != b@[i as int]);
    a[i] < b[i]
}

proof fn lemma_insert_str_at(s: Seq<Seq<char>>, x: Seq<char>, k: int)
    requires
        0 <= k <= s.len(),
        forall|m: int| k <= m < s.len() ==> !chars_le(#[trigger] s[m], x),
        k == 0 || chars_le(s[k - 1], x),
    ensures
        insert_str(s, x) == s.take(k).push(x) + s.skip(k),
    decreases s.len(),
{
    if s.len() == 0 {
        assert(s.take(k).push(x) + s.skip(k) =~= seq![x]);
    } else if chars_le(s.last(), x) {
        assert(s.last() == s[s.len() - 1]);
        assert(s.take(k).push(x) + s.skip(k) =~= s.push(x));
    } else {
        let d = s.drop_last();
        assert(s.last() == s[s.len() - 1]);
        assert forall|m: int| k <= m < d.len() implies !chars_le(#[trigger] d[m], x) by {
            assert(d[m] == s[m]);
        }
        if k > 0 {
            assert(d[k - 1] == s[k - 1]);
        }
        lemma_insert_str_at(d, x, k);
        assert((d.take(k).push(x) + d.skip(k)).push(s.last()) =~= s.take(k).push(x) + s.skip(k));
    }
}

/// The notations of some shapes, sorted.
fn sorted_notations(cur: &Vec<Shape>) -> (r: Vec<Vec<char>>)
    ensures
        strs_view(r@) == sort_strs(notations(cur@)),
{
    let mut out: Vec<Vec<char>> = Vec::new();
    let mut i: usize = 0;
    while i < cur.len()
        invariant
            i <= cur@.len(),
            strs_view(out@) == sort_strs(notations(cur@.take(i as int))),
        decreases cur.len() - i,
    {
        let x = notation_of(&cur[i]);
        let ghost gv = strs_view(out@);
        proof {
            assert(notations(cur@.take(i + 1)).drop_last() =~= notations(cur@.take(i as int)));
            assert(notations(cur@.take(i + 1)).last() == x@);
        }
        let mut k: usize = out.len();
        while k > 0 && !chars_le_exec(&out[k - 1], &x)
            invariant
                k <= out@.len(),
                gv == strs_view(out@),
                forall|m: int| k <= m < out@.len() ==> !chars_le(#[trigger] gv[m], x@),
            decreases k,
        {
            k = k - 1;
        }
        proof {
            lemma_insert_str_at(gv, x@, k as int);
        }
        let ghost xv = x@;
        out.insert(k, x);
        assert(strs_view(out@) =~= gv.take(k as int).push(xv) + gv.skip(k as int));
        i = i + 1;
    }
    assert(cur@.take(i as int) =~= cur@);
    out
}

/// The strings joined, each followed by a space.
fn repr_of(strs: &Vec<Vec<char>>) -> (r: Vec<char>)
    ensures
        r@ == repr(strs_view(strs@)),
{
    let mut out: Vec<char> = Vec::new();
    let mut i: usize = 0;
    while i < strs.len()
        invariant
            i <= strs@.len(),
            out@ == repr(strs_view(strs@.take(i as int))),
        decreases strs.len() - i,
    {
        assert(strs_view(strs@.take(i + 1)).drop_last() =~= strs_view(strs@.take(i as int)));
        let ghost before = out@;
        let w = &strs[i];
        let mut j: usize = 0;
        while j < w.len()
            invariant
                j <= w@.len(),
                out@ == before + w@.take(j as int),
            decreases w.len() - j,
        {
            out.push(w[j]);
            j = j + 1;
            assert(out@ =~= before + w@.take(j as int));
        }
        out.push(' ');
        assert(out@ =~= before + w@ + seq![' ']);
        i = i + 1;
    }
    assert(strs@.take(i as int) =~= strs@);
    out
}

/// The notations of some shapes, in their order.
fn notations_of(v: &Vec<Shape>) -> (r: Vec<Vec<char>>)
    ensures
        strs_view(r@) == notations(v@),
{
    let mut out: Vec<Vec<char>> = Vec::new();
    let mut i: usize = 0;
    while i < v.len()
        invariant
            i <= v@.len(),
            strs_view(out@) == notations(v@.take(i as int)),
        decreases v.len() - i,
    {
        let x = notation_of(&v[i]);
        let ghost before = out@;
        proof {
            assert(strs_view(before).len() == before.len());
            assert(notations(v@.take(i as int)).len() == i);
        }
        out.push(x);
        proof {
            assert forall|j: int| 0 <= j < i + 1 implies #[trigger] strs_view(out@)[j] == notations(v@.take(i + 1))[j] by {
                if j < i {
                    assert(out@[j] == before[j]);
                    assert(strs_view(before)[j] == notations(v@.take(i as int))[j]);
                }
            }
        }
        i = i + 1;
        assert(strs_view(out@) =~= notations(v@.take(i as int)));
    }
    assert(v@.take(i as int) =~= v@);
    out
}

fn copy_shapes(v: &Vec<Shape>) -> (r: Vec<Shape>)
    ensures
        r@ == v@,
{
    let mut out: Vec<Shape> = Vec::new();
    let mut i: usize = 0;
    while i < v.len()
        invariant
            i <= v@.len(),
            out@ == v@.take(i as int),
        decreases v.len() - i,
    {
        out.push(v[i]);
        i = i + 1;
        assert(out@ =~= v@.take(i as int));
    }
    assert(v@.take(i as int) =~= v@);
    out
}

impl ShapeFinder {
    pub fn new() -> (sf: ShapeFinder)
        ensures
            sf.variants@.len() == 0,
            sf.current_variant@.len() == 0,
    {
        ShapeFinder { variants: Vec::new(), current_variant: Vec::new() }
    }

    /// The state of the search, as the contracts see it.
    pub open spec fn state(&self, add: Seq<Shape>) -> SearchState {
        (self.current_variant@, vars_view(self.variants@), add)
    }

    /// Check for:
    /// - composition
    ///     - kokushi (all singles of 1-9 and honors)
    ///     - chiitoitsu (only pairs)
    ///     - 4 groups and 1 pair
    fn is_current_variant_valid(&self) -> (b: bool)
        ensures
            b == valid_variant(self.current_variant@),
    {
        let mut has_single = false;
        let mut has_koutsu = false;
        let mut has_shuntsu = false;
        let mut toitsu_count: usize = 0;
        let mut i: usize = 0;
        while i < self.current_variant.len()
            invariant
                i <= self.current_variant@.len(),
                toitsu_count <= i,
                variant_scan(self.current_variant@.take(i as int)) == (true, has_single, has_koutsu, has_shuntsu, toitsu_count as int),
            decreases self.current_variant.len() - i,
        {
            let ghost pre = self.current_variant@.take(i as int);
            assert(self.current_variant@.take(i + 1).drop_last() =~= pre);
            match &self.current_variant[i].shape_type {
                ShapeType::Complete(CompleteShape::Closed(closed)) => {
                    match closed {
                        ClosedShape::Single(_) => {
                            // only kokushi has single tiles: no melds and no more than 1 pair
                            if has_koutsu || has_shuntsu || toitsu_count > 1 {
                                proof { lemma_scan_false(self.current_variant@, i as int + 1); }
                                return false;
                            }
                            has_single = true;
                        },
                        ClosedShape::Toitsu(_) => {
                            // only chiitoitsu has more than 1 pair: no melds and no singles there
                            if toitsu_count > 1 && (has_koutsu || has_shuntsu || has_single) {
                                proof { lemma_scan_false(self.current_variant@, i as int + 1); }
                                return false;
                            }
                            toitsu_count = toitsu_count + 1;
                        },
                        ClosedShape::Shuntsu(_) => {
                            // no singles or more than 1 pair with melds
                            if toitsu_count > 1 || has_single {
                                proof { lemma_scan_false(self.current_variant@, i as int + 1); }
                                return false;
                            }
                            has_shuntsu = true;
                        },
                        _ => {
                            // a kan is a triplet anyway
                            if toitsu_count > 1 || has_single {
                                proof { lemma_scan_false(self.current_variant@, i as int + 1); }
                                return false;
                            }
                            has_koutsu = true;
                        },
                    }
                },
                ShapeType::Complete(CompleteShape::Open(_)) => {},
                ShapeType::Incomplete(..) => {
                    proof { lemma_scan_false(self.current_variant@, i as int + 1); }
                    return false;
                },
            }
            i = i + 1;
        }
        assert(self.current_variant@.take(i as int) =~= self.current_variant@);
        // we always have to have 1 pair
        toitsu_count != 0
    }

    fn current_variant_is_not_included_yet(&self) -> (b: bool)
        ensures
            b == not_included(vars_view(self.variants@), self.current_variant@),
    {
        if self.variants.len() == 0 {
            return true;
        }
        let current_repr = repr_of(&sorted_notations(&self.current_variant));
        let mut k: usize = 0;
        while k < self.variants.len()
            invariant
                k <= self.variants@.len(),
                current_repr@ == repr(sort_strs(notations(self.current_variant@))),
                forall|j: int| 0 <= j < k ==> current_repr@ != repr(notations(#[trigger] vars_view(self.variants@)[j])),
            decreases self.variants.len() - k,
        {
            let v_repr = repr_of(&notations_of(&self.variants[k]));
            if chars_eq(&current_repr, &v_repr) {
                assert(vars_view(self.variants@)[k as int] == self.variants@[k as int]@);
                return false;
            }
            assert(vars_view(self.variants@)[k as int] == self.variants@[k as int]@);
            k = k + 1;
        }
        true
    }
}

impl ShapeFinder {
    /// Tries a shape whose tiles are at the first `n` of the indices: takes them out, searches
    /// on, and puts them back.
    fn try_shape(&mut self, arr: &mut [u8; 34], depth: usize, sh: Shape, i1: usize, i2: usize, i3: usize, n: usize, add: &mut Vec<Shape>)
        requires
            depth < 34,
            i1 < 34,
            i2 < 34,
            i3 < 34,
            1 <= n <= 3,
            i1 == depth,
            n >= 2 ==> (i2 == depth && old(arr)@[depth as int] >= n) || (n == 3 && i2 != depth && i3 != depth && i2 != i3
                && old(arr)@[i2 as int] > 0 && old(arr)@[i3 as int] > 0),
            old(arr)@[depth as int] >= 1,
            n == 3 && i2 == depth ==> i3 == depth,
        ensures
            final(arr)@ == old(arr)@,
            final(self).state(final(add)@) == try_shape(old(arr)@, depth as int, sh,
                taken_spec(old(arr)@, i1 as int, i2 as int, i3 as int, n as int), old(self).state(old(add)@)),
        decreases count_sum(old(arr)@), 34 - depth, 0int,
    {
        let ghost a = arr@;
        let ghost taken = taken_spec(a, i1 as int, i2 as int, i3 as int, n as int);
        proof {
            lemma_count_sum_take(a, i1 as int);
            if n >= 2 {
                lemma_count_sum_take(take_one(a, i1 as int), i2 as int);
            }
            if n == 3 {
                lemma_count_sum_take(take_one(take_one(a, i1 as int), i2 as int), i3 as int);
            }
            lemma_count_sum_nonneg(taken);
        }
        arr[i1] = arr[i1] - 1;
        if n >= 2 {
            arr[i2] = arr[i2] - 1;
        }
        if n == 3 {
            arr[i3] = arr[i3] - 1;
        }
        assert(arr@ =~= taken);
        self.current_variant.push(sh);
        if arr[depth] > 0 {
            self.search(arr, depth, add);
        } else {
            self.search(arr, depth + 1, add);
        }
        // remove the shape again
        let hash = notation_of(&sh);
        let ghost cv = self.current_variant@;
        assert(cv.skip(0) =~= cv);
        assert(cv.take(0) + remove_first(cv.skip(0), sh) =~= remove_first(cv, sh));
        let mut k: usize = 0;
        while k < self.current_variant.len() && !chars_eq(&hash, &notation_of(&self.current_variant[k]))
            invariant
                k <= cv.len(),
                cv == self.current_variant@,
                hash@ == shape_notation(sh),
                remove_first(cv, sh) == cv.take(k as int) + remove_first(cv.skip(k as int), sh),
            decreases self.current_variant.len() - k,
        {
            assert(cv.skip(k as int)[0] == cv[k as int]);
            assert(cv.skip(k as int).drop_first() =~= cv.skip(k + 1));
            assert(cv.take(k as int) + (seq![cv[k as int]] + remove_first(cv.skip(k + 1), sh)) =~= cv.take(k + 1) + remove_first(cv.skip(k + 1), sh));
            k = k + 1;
        }
        if k < self.current_variant.len() {
            assert(cv.skip(k as int)[0] == cv[k as int]);
            assert(cv.skip(k as int).drop_first() =~= cv.skip(k + 1));
            assert(cv.take(k as int) + cv.skip(k + 1) =~= cv.remove(k as int));
            self.current_variant.remove(k);
        } else {
            assert(cv.take(k as int) =~= cv);
            assert(cv.skip(k as int) =~= Seq::<Shape>::empty());
        }
        arr[i1] = arr[i1] + 1;
        if n >= 2 {
            arr[i2] = arr[i2] + 1;
        }
        if n == 3 {
            arr[i3] = arr[i3] + 1;
        }
        assert(arr@ =~= a);
    }

    fn search(&mut self, arr: &mut [u8; 34], depth: usize, add: &mut Vec<Shape>)
        requires
            depth <= 34,
        ensures
            final(arr)@ == old(arr)@,
            final(self).state(final(add)@) == search_spec(old(arr)@, depth as int, old(self).state(old(add)@)),
        decreases count_sum(old(arr)@), 34 - depth, 1int,
    {
        if depth > 33 {
            if self.is_current_variant_valid() && self.current_variant_is_not_included_yet() {
                let mut variant = copy_shapes(&self.current_variant);
                variant.append(add);
                let ghost old_vars = self.variants@;
                self.variants.push(variant);
                assert(vars_view(self.variants@) =~= vars_view(old_vars).push(self.current_variant@ + old(add)@));
                assert(add@ =~= Seq::<Shape>::empty());
            }
            return;
        }
        if arr[depth] == 0 {
            self.search(arr, depth + 1, add);
            return;
        }
        proof {
            lemma_type_of_id(depth + 1);
        }
        let t = Tile::from_id((depth + 1) as u8).unwrap();
        if arr[depth] >= 3 {
            let sh = Shape::new(ShapeType::Complete(CompleteShape::Closed(ClosedShape::Koutsu([t, t, t]))), 3, false);
            self.try_shape(arr, depth, sh, depth, depth, depth, 3, add);
        }
        if arr[depth] >= 2 {
            let sh = Shape::new(ShapeType::Complete(CompleteShape::Closed(ClosedShape::Toitsu([t, t]))), 2, false);
            self.try_shape(arr, depth, sh, depth, depth, depth, 2, add);
        }
        // a single is a complete shape only in kokushi
        let d = depth;
        if d == 0 || d == 8 || d == 9 || d == 17 || d == 18 || d == 26 || d >= 27 {
            let sh = Shape::new(ShapeType::Complete(CompleteShape::Closed(ClosedShape::Single(t))), 1, false);
            self.try_shape(arr, depth, sh, depth, depth, depth, 1, add);
        }
        // shuntsu
        match t.next(false) {
            Some(n1) => {
                proof {
                    super::tile::lemma_valid_key_id(n1.tile_type, n1.tile_type);
                }
                let i1 = (n1.to_id() - 1) as usize;
                if arr[i1] > 0 {
                    match n1.next(false) {
                        Some(n2) => {
                            proof {
                                super::tile::lemma_valid_key_id(n2.tile_type, n2.tile_type);
                            }
                            let i2 = (n2.to_id() - 1) as usize;
                            if arr[i2] > 0 {
                                let sh = Shape::new(ShapeType::Complete(CompleteShape::Closed(ClosedShape::Shuntsu([t, n1, n2]))), 3, false);
                                self.try_shape(arr, depth, sh, depth, i1, i2, 3, add);
                            }
                        },
                        None => {},
                    }
                }
            },
            None => {},
        }
    }

    /// Finds the splits of a complete hand (14 tiles or more) into shapes; its calls and closed
    /// kans are added to every split found.
    pub fn find(&mut self, hand: &Hand) -> (r: Vec<Vec<Shape>>)
        requires
            hand.wf(),
        ensures
            hand_size(hand.tiles@) < 14 ==> r@.len() == 0 && final(self).state(seq![]) == old(self).state(seq![]),
            hand_size(hand.tiles@) >= 14 ==> final(self).current_variant@ == search_spec(free_counts(*hand), 0,
                old(self).state(seq![])).0,
            hand_size(hand.tiles@) >= 14 ==> vars_view(final(self).variants@) == with_extras(search_spec(free_counts(*hand), 0,
                old(self).state(seq![])).1, extra_shapes(hand.shapes@)),
            hand_size(hand.tiles@) >= 14 ==> vars_view(r@) == vars_view(final(self).variants@),
    {
        if hand.count_tiles() < 14 {
            return Vec::new();
        }
        let mut array_34 = hand.get_34_array(true);
        assert(array_34@ =~= free_counts(*hand));
        let mut shapes: Vec<Shape> = Vec::new();
        let mut i: usize = 0;
        while i < hand.shapes.len()
            invariant
                i <= hand.shapes@.len(),
                shapes@ == extra_shapes(hand.shapes@.take(i as int)),
            decreases hand.shapes.len() - i,
        {
            assert(hand.shapes@.take(i + 1).drop_last() =~= hand.shapes@.take(i as int));
            match &hand.shapes[i] {
                CompleteShape::Closed(closed) => match closed {
                    ClosedShape::Kantsu(tiles) => shapes.push(Shape::new(
                        ShapeType::Complete(CompleteShape::Closed(ClosedShape::Kantsu(*tiles))),
                        4,
                        false,
                    )),
                    _ => {},
                },
                CompleteShape::Open(open) => match open {
                    OpenShape::Chi(tiles) => shapes.push(Shape::new(ShapeType::Complete(CompleteShape::Open(OpenShape::Chi(*tiles))), 3, true)),
                    OpenShape::Pon(tiles) => shapes.push(Shape::new(ShapeType::Complete(CompleteShape::Open(OpenShape::Pon(*tiles))), 3, true)),
                    OpenShape::Kan(tiles) => shapes.push(Shape::new(ShapeType::Complete(CompleteShape::Open(OpenShape::Kan(*tiles))), 4, true)),
                },
            }
            i = i + 1;
            assert(shapes@ =~= extra_shapes(hand.shapes@.take(i as int)));
        }
        assert(hand.shapes@.take(i as int) =~= hand.shapes@);
        let mut none: Vec<Shape> = Vec::new();
        self.search(&mut array_34, 0, &mut none);
        // add open shapes and closed kans to all variants
        let ghost found = vars_view(self.variants@);
        let mut with: Vec<Vec<Shape>> = Vec::new();
        let mut k: usize = 0;
        while k < self.variants.len()
            invariant
                k <= self.variants@.len(),
                found == vars_view(self.variants@),
                vars_view(with@) == with_extras(found.take(k as int), shapes@),
            decreases self.variants.len() - k,
        {
            let mut v = copy_shapes(&self.variants[k]);
            let ghost base = v@;
            let mut j: usize = 0;
            while j < shapes.len()
                invariant
                    j <= shapes@.len(),
                    v@ == base + shapes@.take(j as int),
                decreases shapes.len() - j,
            {
                v.push(shapes[j]);
                j = j + 1;
                assert(v@ =~= base + shapes@.take(j as int));
            }
            assert(shapes@.take(j as int) =~= shapes@);
            let ghost before = with@;
            with.push(v);
            k = k + 1;
            assert(found.take(k as int) =~= found.take(k - 1).push(found[k - 1]));
            assert(vars_view(with@) =~= vars_view(before).push(v@));
            assert(vars_view(with@) =~= with_extras(found.take(k as int), shapes@));
        }
        assert(found.take(k as int) =~= found);
        self.variants = with;
        copy_variants(&self.variants)
    }
}

fn copy_variants(v: &Vec<Vec<Shape>>) -> (r: Vec<Vec<Shape>>)
    ensures
        vars_view(r@) == vars_view(v@),
{
    let mut out: Vec<Vec<Shape>> = Vec::new();
    let mut i: usize = 0;
    while i < v.len()
        invariant
            i <= v@.len(),
            vars_view(out@) == vars_view(v@.take(i as int)),
        decreases v.len() - i,
    {
        let c = copy_shapes(&v[i]);
        let ghost before = out@;
        proof {
            assert(vars_view(before).len() == before.len());
        }
        out.push(c);
        proof {
            assert forall|j: int| 0 <= j < i + 1 implies #[trigger] vars_view(out@)[j] == vars_view(v@.take(i + 1))[j] by {
                if j < i {
                    assert(out@[j] == before[j]);
                    assert(vars_view(before)[j] == vars_view(v@.take(i as int))[j]);
                }
            }
        }
        i = i + 1;
        assert(vars_view(out@) =~= vars_view(v@.take(i as int)));
    }
    assert(v@.take(i as int) =~= v@);
    out
}

proof fn lemma_scan_false(s: Seq<Shape>, n: int)
    requires
        0 <= n <= s.len(),
        !variant_scan(s.take(n)).0,
    ensures
        !variant_scan(s).0,
    decreases s.len() - n,
{
    if n < s.len() {
        assert(s.take(n + 1).drop_last() =~= s.take(n));
        lemma_scan_false(s, n + 1);
    } else {
        assert(s.take(n) =~= s);
    }
}

} // verus!
