use vstd::prelude::*;

verus! {

/// A hand's value: han, fu, whether the winner is the dealer (oya) and whether the win is a
/// tsumo.
#[derive(Debug, Clone, Copy, PartialEq, Eq, Structural)]
pub struct Score {
    pub han: u8,
    pub fu: u8,
    pub oya: bool,
    pub tsumo: bool,
}

/// Fu rounded up to the next ten, as a byte holds it; 25 (chiitoitsu) stays as it is.
pub open spec fn rounded_fu(fu: int) -> int {
    let r = ((fu + 9) / 10) * 10;
    if fu == 25 { 25 } else if r > 255 { 255 } else { r }
}

/// The score `Score::new` makes.
pub open spec fn score_of(han: int, fu: int, oya: bool, tsumo: bool) -> Score {
    Score { han: han as u8, fu: rounded_fu(fu) as u8, oya, tsumo }
}

/// Mangan: 5 han, 3 han with 70 fu or more, 4 han with 40 fu or more.
pub open spec fn is_mangan(han: int, fu: int) -> bool {
    han == 5 || (han == 3 && fu >= 70) || (han == 4 && fu >= 40)
}

/// 2 to the power of 2 + han, for the han below the limits.
pub open spec fn han_factor(han: int) -> int {
    if han == 0 {
        4
    } else if han == 1 {
        8
    } else if han == 2 {
        16
    } else if han == 3 {
        32
    } else {
        64
    }
}

/// The base points of a score: the limit values, or fu times 2 to the power of 2 + han.
pub open spec fn base_points_spec(han: int, fu: int) -> int {
    if is_mangan(han, fu) {
        2000
    } else if 6 <= han <= 7 {
        3000
    } else if 8 <= han <= 10 {
        4000
    } else if 11 <= han <= 12 {
        6000
    } else if han >= 13 {
        8000
    } else {
        fu * han_factor(han)
    }
}

/// Rounds up to the next hundred.
pub open spec fn ceil100(x: int) -> int {
    ((x + 99) / 100) * 100
}

/// The total points a score is worth.
pub open spec fn total_points_spec(s: Score) -> int {
    let han = s.han as int;
    let fu = s.fu as int;
    let b = base_points_spec(han, fu);
    if is_mangan(han, fu) {
        if s.oya { 12000 } else { 8000 }
    } else if 6 <= han <= 7 {
        if s.oya { 18000 } else { 12000 }
    } else if 8 <= han <= 10 {
        if s.oya { 24000 } else { 16000 }
    } else if 11 <= han <= 12 {
        if s.oya { 36000 } else { 24000 }
    } else if han >= 13 {
        if s.oya { 48000 } else { 32000 }
    } else if s.oya {
        if s.tsumo { ceil100(2 * b) * 3 } else { ceil100(6 * b) }
    } else if s.tsumo {
        ceil100(b) * 2 + ceil100(2 * b)
    } else {
        ceil100(4 * b)
    }
}

/// What the dealer pays of a score.
pub open spec fn points_from_oya_spec(s: Score) -> int {
    let b = base_points_spec(s.han as int, s.fu as int);
    if s.tsumo { ceil100(2 * b) } else { ceil100(4 * b) }
}

/// What a non-dealer pays of a score.
pub open spec fn points_from_ko_spec(s: Score) -> int {
    let b = base_points_spec(s.han as int, s.fu as int);
    if s.tsumo {
        if s.oya { ceil100(2 * b) } else { ceil100(b) }
    } else if s.oya {
        ceil100(6 * b)
    } else {
        ceil100(4 * b)
    }
}

/// The first han (1 to 3) and fu (`start` up to the limit, by tens) whose score reaches the
/// points, searching from `han` and `fu` on.
pub open spec fn first_fit(points: int, oya: bool, tsumo: bool, limit: int, start: int, han: int, fu: int) -> Option<(int, int)>
    decreases 4 - han, limit + 10 - fu,
{
    if han > 3 || han < 1 {
        None
    } else if fu > limit {
        if start > limit { None } else { first_fit(points, oya, tsumo, limit, start, han + 1, start) }
    } else if total_points_spec(score_of(han, fu, oya, tsumo)) >= points {
        Some((han, fu))
    } else {
        first_fit(points, oya, tsumo, limit, start, han, fu + 10)
    }
}

/// The scores of the same value that follow a found one: one more han and half the fu each,
/// while the fu stays a valid value (20 only with a tsumo; 25, as 30, ends the chain).
pub open spec fn score_chain(han: int, fu: int, oya: bool, tsumo: bool) -> Seq<Score>
    decreases fu,
{
    let h = han + 1;
    let f = fu / 2;
    if fu > 0 && f >= 20 && (f == 25 || f % 10 == 0) {
        if f == 20 && !tsumo {
            seq![]
        } else if f == 25 {
            seq![score_of(h, f, oya, tsumo)]
        } else {
            seq![score_of(h, f, oya, tsumo)] + score_chain(h, f, oya, tsumo)
        }
    } else {
        seq![]
    }
}

/// The limit hands of mangan, as `Score::from_points` lists them.
pub open spec fn mangan_scores(oya: bool, tsumo: bool) -> Seq<Score> {
    seq![score_of(3, 70, oya, tsumo), score_of(4, 40, oya, tsumo), score_of(5, 0, oya, tsumo)]
}

/// Limit hands of `count` han values from `han` on, with no fu.
pub open spec fn limit_hands(han: int, count: int, oya: bool, tsumo: bool) -> Seq<Score> {
    Seq::new(count as nat, |i: int| score_of(han + i, 0, oya, tsumo))
}

/// What `Score::from_points` gives: the cheapest limit hands whose base points (points over 6
/// for the dealer, over 4 otherwise) reach the points where mangan does not; else the first
/// han (1 to 3) and fu (20 to 110) that reach the points and those of the same value, or the
/// ways of writing mangan where that first hand is a mangan or none reaches the points.
pub open spec fn from_points_spec(points: int, oya: bool, tsumo: bool) -> Option<Seq<Score>> {
    let div = if oya { 6int } else { 4int };
    if points > 8000 * div {
        None
    } else if points > 6000 * div {
        Some(limit_hands(13, 1, oya, tsumo))
    } else if points > 4000 * div {
        Some(limit_hands(11, 2, oya, tsumo))
    } else if points > 3000 * div {
        Some(limit_hands(8, 3, oya, tsumo))
    } else if points > 2000 * div {
        Some(limit_hands(6, 2, oya, tsumo))
    } else {
        match first_fit(points, oya, tsumo, 110, 20, 1, 20) {
            None => Some(mangan_scores(oya, tsumo)),
            Some((h, f)) => if is_mangan(score_of(h, f, oya, tsumo).han as int, score_of(h, f, oya, tsumo).fu as int) {
                Some(mangan_scores(oya, tsumo))
            } else {
                Some(seq![score_of(h, f, oya, tsumo)] + score_chain(h, f, oya, tsumo))
            },
        }
    }
}

/// The cheapest hands that reach the points, with the fu searched only up to a limit: the
/// cheapest limit hand whose base points (points over 6 for the dealer, over 4 otherwise)
/// reach them, where mangan does not; else the first han and fu from 30 that reach them and
/// those of the same value, or mangan where no fu up to the limit does; none above yakuman.
pub open spec fn capped_points_spec(points: int, oya: bool, tsumo: bool, limit: int) -> Option<Seq<Score>> {
    let div = if oya { 6int } else { 4int };
    if points > 8000 * div {
        None
    } else if points > 6000 * div {
        Some(limit_hands(13, 1, oya, tsumo))
    } else if points > 4000 * div {
        Some(limit_hands(11, 2, oya, tsumo))
    } else if points > 3000 * div {
        Some(limit_hands(8, 3, oya, tsumo))
    } else if points > 2000 * div {
        Some(limit_hands(6, 2, oya, tsumo))
    } else {
        match first_fit(points, oya, tsumo, limit, 30, 1, 30) {
            None => Some(mangan_scores(oya, tsumo)),
            Some((h, f)) => Some(seq![score_of(h, f, oya, tsumo)] + score_chain(h, f, oya, tsumo)),
        }
    }
}

fn ceil_hundred(x: u32) -> (r: u32)
    requires
        x <= 1_000_000,
    ensures
        r == ceil100(x as int),
{
    ((x + 99) / 100) * 100
}

impl Score {
    /// A score; the fu are rounded up to the next ten, but for chiitoitsu's 25.
    pub fn new(han: u8, fu: u8, oya: bool, tsumo: bool) -> (s: Score)
        ensures
            s == score_of(han as int, fu as int, oya, tsumo),
    {
        let r: u32 = ((fu as u32 + 9) / 10) * 10;
        let new_fu: u8 = if fu == 25 { 25 } else if r > 255 { 255 } else { r as u8 };
        Score { han, fu: new_fu, oya, tsumo }
    }

    /// Returns the base points of this Score.
    fn base_points(&self) -> (b: u32)
        ensures
            b == base_points_spec(self.han as int, self.fu as int),
            b <= 16320,
    {
        let han = self.han;
        let fu = self.fu;
        if han == 5 || (han == 3 && fu >= 70) || (han == 4 && fu >= 40) {
            // mangan
            return 2000;
        } else if han >= 6 && han <= 7 {
            // haneman
            return 3000;
        } else if han >= 8 && han <= 10 {
            // baiman
            return 4000;
        } else if han >= 11 && han <= 12 {
            // sanbaiman
            return 6000;
        } else if han >= 13 {
            // yakuman
            return 8000;
        }
        let factor: u32 = if han == 0 {
            4
        } else if han == 1 {
            8
        } else if han == 2 {
            16
        } else if han == 3 {
            32
        } else {
            64
        };
        fu as u32 * factor
    }

    /// Returns total points that will be distributed from this Score
    pub fn total_points(&self) -> (p: u32)
        ensures
            p == total_points_spec(*self),
    {
        let base_points = self.base_points();
        let han = self.han;
        let fu = self.fu;
        if han == 5 || (han == 3 && fu >= 70) || (han == 4 && fu >= 40) {
            // mangan
            if self.oya { 12000 } else { 8000 }
        } else if han >= 6 && han <= 7 {
            // haneman
            if self.oya { 18000 } else { 12000 }
        } else if han >= 8 && han <= 10 {
            // baiman
            if self.oya { 24000 } else { 16000 }
        } else if han >= 11 && han <= 12 {
            // sanbaiman
            if self.oya { 36000 } else { 24000 }
        } else if han >= 13 {
            // yakuman
            if self.oya { 48000 } else { 32000 }
        } else if self.oya {
            if self.tsumo {
                ceil_hundred(base_points * 2) * 3
            } else {
                ceil_hundred(base_points * 6)
            }
        } else if self.tsumo {
            ceil_hundred(base_points) * 2 + ceil_hundred(base_points * 2)
        } else {
            ceil_hundred(base_points * 4)
        }
    }

    /// How many points will oya pay from this Score?
    pub fn points_from_oya(&self) -> (p: u32)
        ensures
            p == points_from_oya_spec(*self),
    {
        let base_points = self.base_points();
        if self.tsumo {
            return ceil_hundred(2 * base_points);
        }
        ceil_hundred(4 * base_points)
    }

    /// How many points will non-oya pay from this Score?
    pub fn points_from_ko(&self) -> (p: u32)
        ensures
            p == points_from_ko_spec(*self),
    {
        let base_points = self.base_points();
        if self.tsumo {
            if self.oya {
                return ceil_hundred(2 * base_points);
            }
            return ceil_hundred(base_points);
        }
        if self.oya {
            return ceil_hundred(6 * base_points);
        }
        ceil_hundred(4 * base_points)
    }

    /// Finds the first han + fu combination that reaches at least the value of points given,
    /// and those of the same value after it; the limit hands by name from mangan on. (`exact`
    /// asks for nothing more.)
    pub fn from_points(points: u32, oya: bool, tsumo: bool, exact: bool) -> (r: Option<Vec<Score>>)
        ensures
            match from_points_spec(points as int, oya, tsumo) {
                None => r is None,
                Some(v) => r matches Some(w) && w@ == v,
            },
    {
        let div: u32 = if oya { 6 } else { 4 };
        // 8000 is base for yakuman - if it's more, this score can't be reached by a hand
        if points > 8000 * div {
            return None;
        }
        if points > 6000 * div {
            return Some(Score::limit_scores(13, 1, oya, tsumo));
        }
        if points > 4000 * div {
            return Some(Score::limit_scores(11, 2, oya, tsumo));
        }
        if points > 3000 * div {
            return Some(Score::limit_scores(8, 3, oya, tsumo));
        }
        if points > 2000 * div {
            return Some(Score::limit_scores(6, 2, oya, tsumo));
        }
        match Score::fit_scores(points, oya, tsumo, 110, 20) {
            Some(scores) => {
                let first = scores[0];
                if first.han == 5 || (first.han == 3 && first.fu >= 70) || (first.han == 4 && first.fu >= 40) {
                    Some(Score::mangan(oya, tsumo))
                } else {
                    Some(scores)
                }
            },
            None => Some(Score::mangan(oya, tsumo)),
        }
    }

    /// The cheapest hands that reach the points, searching fu from 30 up to `fu_limit` only.
    pub(crate) fn from_points_capped(points: u32, oya: bool, tsumo: bool, fu_limit: u8) -> (r: Option<Vec<Score>>)
        requires
            fu_limit <= 110,
        ensures
            match capped_points_spec(points as int, oya, tsumo, fu_limit as int) {
                None => r is None,
                Some(v) => r matches Some(w) && w@ == v,
            },
    {
        let div: u32 = if oya { 6 } else { 4 };
        if points > 8000 * div {
            return None;
        }
        if points > 6000 * div {
            return Some(Score::limit_scores(13, 1, oya, tsumo));
        }
        if points > 4000 * div {
            return Some(Score::limit_scores(11, 2, oya, tsumo));
        }
        if points > 3000 * div {
            return Some(Score::limit_scores(8, 3, oya, tsumo));
        }
        if points > 2000 * div {
            return Some(Score::limit_scores(6, 2, oya, tsumo));
        }
        match Score::fit_scores(points, oya, tsumo, fu_limit, 30) {
            Some(scores) => Some(scores),
            None => Some(Score::mangan(oya, tsumo)),
        }
    }

    /// Limit hands of `count` han values from `han` on, with no fu.
    fn limit_scores(han: u8, count: u8, oya: bool, tsumo: bool) -> (r: Vec<Score>)
        requires
            han as int + count as int <= 255,
        ensures
            r@ == limit_hands(han as int, count as int, oya, tsumo),
    {
        let mut scores: Vec<Score> = Vec::new();
        let mut i: u8 = 0;
        while i < count
            invariant
                i <= count,
                han as int + count as int <= 255,
                scores@ == Seq::new(i as nat, |k: int| score_of(han + k, 0, oya, tsumo)),
            decreases count - i,
        {
            scores.push(Score::new(han + i, 0, oya, tsumo));
            i = i + 1;
            assert(scores@ =~= Seq::new(i as nat, |k: int| score_of(han + k, 0, oya, tsumo)));
        }
        scores
    }

    /// The three ways of writing mangan.
    fn mangan(oya: bool, tsumo: bool) -> (r: Vec<Score>)
        ensures
            r@ == mangan_scores(oya, tsumo),
    {
        let mut scores: Vec<Score> = Vec::new();
        scores.push(Score::new(3, 70, oya, tsumo));
        scores.push(Score::new(4, 40, oya, tsumo));
        scores.push(Score::new(5, 0, oya, tsumo));
        assert(scores@ =~= mangan_scores(oya, tsumo));
        scores
    }

    /// The first han (1 to 3) and fu (from `start` up to `fu_limit`) whose score reaches the
    /// points, followed by the scores of the same value; `None` where none reaches them.
    fn fit_scores(points: u32, oya: bool, tsumo: bool, fu_limit: u8, start: u8) -> (r: Option<Vec<Score>>)
        requires
            fu_limit <= 110,
            20 <= start <= 30,
        ensures
            match first_fit(points as int, oya, tsumo, fu_limit as int, start as int, 1, start as int) {
                None => r is None,
                Some((h, f)) => r matches Some(w) && w@ == seq![score_of(h, f, oya, tsumo)] + score_chain(h, f, oya, tsumo),
            },
    {
        let ghost found = first_fit(points as int, oya, tsumo, fu_limit as int, start as int, 1, start as int);
        let mut scores: Vec<Score> = Vec::new();
        let mut han: u8 = 1;
        while han < 4
            invariant
                1 <= han <= 4,
                fu_limit <= 110,
                20 <= start <= 30,
                scores@ == Seq::<Score>::empty(),
                han > 1 ==> start <= fu_limit,
                found == first_fit(points as int, oya, tsumo, fu_limit as int, start as int, han as int, start as int),
                found == first_fit(points as int, oya, tsumo, fu_limit as int, start as int, 1, start as int),
            decreases 4 - han,
        {
            let mut fu: u8 = start;
            if fu > fu_limit {
                return None;
            }
            while fu <= fu_limit
                invariant
                    1 <= han <= 3,
                    start <= fu <= 120,
                    fu_limit <= 110,
                    20 <= start <= 30,
                    start <= fu_limit,
                    scores@ == Seq::<Score>::empty(),
                    found == first_fit(points as int, oya, tsumo, fu_limit as int, start as int, han as int, fu as int),
                    found == first_fit(points as int, oya, tsumo, fu_limit as int, start as int, 1, start as int),
                decreases 120 - fu,
            {
                let s = Score::new(han, fu, oya, tsumo);
                if s.total_points() >= points {
                    // found!
                    assert(found == Some((han as int, fu as int)));
                    scores.push(s);
                    let mut h: u8 = han;
                    let mut f: u8 = fu;
                    loop
                        invariant_except_break
                            f <= 110,
                            found == Some((han as int, fu as int)),
                            h as int <= 120 - f as int,
                            scores@ + score_chain(h as int, f as int, oya, tsumo) == seq![score_of(han as int, fu as int, oya, tsumo)] + score_chain(han as int, fu as int, oya, tsumo),
                        ensures
                            found == Some((han as int, fu as int)),
                            scores@ == seq![score_of(han as int, fu as int, oya, tsumo)] + score_chain(han as int, fu as int, oya, tsumo),
                        decreases f,
                    {
                        let nh = h + 1;
                        let nf = f / 2;
                        if f > 0 && nf >= 20 && (nf == 25 || nf % 10 == 0) {
                            // fu 20 can only be achieved with a tsumo
                            if nf == 20 && !tsumo {
                                assert(scores@ + seq![] =~= scores@);
                                break;
                            }
                            let ghost before = scores@;
                            scores.push(Score::new(nh, nf, oya, tsumo));
                            if nf == 25 {
                                assert(before + seq![score_of(nh as int, nf as int, oya, tsumo)] =~= scores@);
                                break;
                            }
                            assert(before + (seq![score_of(nh as int, nf as int, oya, tsumo)] + score_chain(nh as int, nf as int, oya, tsumo))
                                =~= scores@ + score_chain(nh as int, nf as int, oya, tsumo));
                            h = nh;
                            f = nf;
                        } else {
                            assert(scores@ + seq![] =~= scores@);
                            break;
                        }
                    }
                    return Some(scores);
                }
                fu = fu + 10;
            }
            han = han + 1;
        }
        assert(first_fit(points as int, oya, tsumo, fu_limit as int, start as int, 4, start as int) is None);
        None
    }
}

} // verus!
