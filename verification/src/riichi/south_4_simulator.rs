use vstd::prelude::*;
use super::scores::{Score, score_of, total_points_spec, capped_points_spec};
use super::random::random_in_range;

verus! {

/// The last hand of a game (south 4): the player is second and has to guess the hands that
/// overtake the leader.
pub struct South4Simulator {
    pub my_score: u32,
    pub opponent_score: u32,
    /// 1 = no one is oya
    /// 2 = I am oya
    /// 3 = opponent is oya
    pub oya_state: u8,
    pub riichi_sticks: u8,
    pub tsumibo: u8,
}

/// The riichi sticks a roll of 0-7 gives (more sticks are rarer).
pub open spec fn sticks_for_roll(roll: int) -> u8 {
    if roll < 4 { 0 } else if roll < 6 { 1 } else if roll == 6 { 2 } else { 3 }
}

/// The tsumibo a roll of 0-9 gives.
pub open spec fn tsumibo_for_roll(roll: int) -> u8 {
    if roll < 3 { 0 } else if roll < 5 { 1 } else if roll < 7 { 2 } else { (roll - 4) as u8 }
}

/// The points the player is behind, less the pot, plus the 100 that a tie lacks; 100 where
/// the player is not behind.
pub open spec fn point_difference(s: South4Simulator) -> int {
    let d = s.opponent_score - s.my_score + 100 - 1000 * s.riichi_sticks - 300 * s.tsumibo;
    if d <= 0 { 100 } else { d }
}

/// The points a tsumo has to be worth: the difference less the tsumibo the leader pays, of
/// which the leader's share is left out (4/5, 3/4 or 2/3 of it, rounded up, by who is oya).
pub open spec fn tsumo_points(s: South4Simulator) -> int {
    let t = point_difference(s) - 100 * s.tsumibo;
    if s.oya_state == 1 {
        (4 * t + 4) / 5
    } else if s.oya_state == 2 {
        (3 * t + 3) / 4
    } else if s.oya_state == 3 {
        (2 * t + 2) / 3
    } else {
        t
    }
}

/// The points, han and fu of the cheapest hand that reaches the points (zeros where none does).
pub open spec fn correct_hand(points: int, oya: bool, tsumo: bool, limit: int) -> (int, u8, u8) {
    match capped_points_spec(points, oya, tsumo, limit) {
        Some(v) => (total_points_spec(v[0]), v[0].han, v[0].fu),
        None => (0, 0, 0),
    }
}

/// What `evaluate` gives: whether each guess is worth what the cheapest right hand is, and
/// those hands.
pub open spec fn evaluate_spec(s: South4Simulator, direct_ron: (u8, u8), other_ron: (u8, u8), tsumo: (u8, u8), hard_mode: bool) -> ((bool, bool, bool), ((u8, u8), (u8, u8), (u8, u8))) {
    let limit = if hard_mode { 110int } else { 60int };
    let oya = s.oya_state == 2;
    let pd = point_difference(s);
    let d = correct_hand(pd / 2, oya, false, limit);
    let o = correct_hand(pd, oya, false, limit);
    let t = correct_hand(tsumo_points(s), oya, true, limit);
    (
        (
            d.0 == total_points_spec(score_of(direct_ron.0 as int, direct_ron.1 as int, oya, false)),
            o.0 == total_points_spec(score_of(other_ron.0 as int, other_ron.1 as int, oya, false)),
            t.0 == total_points_spec(score_of(tsumo.0 as int, tsumo.1 as int, oya, true)),
        ),
        ((d.1, d.2), (o.1, o.2), (t.1, t.2)),
    )
}

/// A state `evaluate` can take: small scores and a tsumibo count the leader's payment can
/// cover.
pub open spec fn evaluable(s: South4Simulator) -> bool {
    &&& s.my_score < 0x80_0000
    &&& s.opponent_score < 0x80_0000
    &&& s.tsumibo <= 2
    &&& point_difference(s) >= 100 * s.tsumibo
}

/// The state the rolls give: the player's score (30000 and 100 times the first roll, -100 to
/// 49), the leader's lead (100 times the second, 10 to 319), who is oya, and the pot.
pub open spec fn simulator_of(score_roll: int, lead_roll: int, oya_roll: int, sticks_roll: int, tsumibo_roll: int) -> South4Simulator {
    let my = 30000 + 100 * score_roll;
    South4Simulator {
        my_score: my as u32,
        opponent_score: (my + 100 * lead_roll) as u32,
        oya_state: oya_roll as u8,
        riichi_sticks: sticks_for_roll(sticks_roll),
        tsumibo: tsumibo_for_roll(tsumibo_roll),
    }
}

/// What the hand of the best score among some gives: its total, han and fu.
fn first_score(scores: Option<Vec<Score>>) -> (r: (u32, u8, u8))
    requires
        scores matches Some(v) ==> v@.len() > 0,
    ensures
        match scores {
            Some(v) => r.0 as int == total_points_spec(v@[0]) && r.1 == v@[0].han && r.2 == v@[0].fu,
            None => r == (0u32, 0u8, 0u8),
        },
{
    match scores {
        Some(v) => (v[0].total_points(), v[0].han, v[0].fu),
        None => (0, 0, 0),
    }
}

proof fn lemma_from_points_nonempty(points: int, oya: bool, tsumo: bool, limit: int)
    ensures
        capped_points_spec(points, oya, tsumo, limit) matches Some(v) ==> v.len() > 0,
{
    let div = if oya { 6int } else { 4int };
    if points <= 8000 * div && points > 2000 * div {
        let v = capped_points_spec(points, oya, tsumo, limit)->0;
        assert(v.len() > 0);
    }
}

impl South4Simulator {
    /// A random state where the player is second by points that one hand can make up.
    pub fn new() -> (s: South4Simulator)
        ensures
            exists|score_roll: int, lead_roll: int, oya_roll: int, sticks_roll: int, tsumibo_roll: int|
                -100 <= score_roll < 50 && 10 <= lead_roll < 320 && 1 <= oya_roll < 4 && 0 <= sticks_roll < 8
                && 0 <= tsumibo_roll < 10
                && s == #[trigger] simulator_of(score_roll, lead_roll, oya_roll, sticks_roll, tsumibo_roll),
            20000 <= s.my_score <= 34900,
            s.my_score % 100 == 0,
            1000 <= s.opponent_score - s.my_score <= 31900,
            (s.opponent_score - s.my_score) % 100 == 0,
            1 <= s.oya_state <= 3,
            s.riichi_sticks <= 3,
            s.tsumibo <= 5,
    {
        let score_roll = random_in_range(-100, 50);
        let lead_roll = random_in_range(10, 320);
        let oya_roll = random_in_range(1, 4);
        // I want the chance of getting more sticks to be lower
        let sticks_roll = random_in_range(0, 8);
        let tsumibo_roll = random_in_range(0, 10);
        South4Simulator::from_rolls(score_roll as i32, lead_roll as u32, oya_roll as u8, sticks_roll as u8, tsumibo_roll as u8)
    }

    /// The state that the rolls of `new` give.
    pub fn from_rolls(score_roll: i32, lead_roll: u32, oya_roll: u8, sticks_roll: u8, tsumibo_roll: u8) -> (s: South4Simulator)
        requires
            -100 <= score_roll < 50,
            10 <= lead_roll < 320,
            sticks_roll < 8,
            tsumibo_roll < 10,
        ensures
            s == simulator_of(score_roll as int, lead_roll as int, oya_roll as int, sticks_roll as int, tsumibo_roll as int),
            20000 <= s.my_score <= 34900,
            s.my_score % 100 == 0,
            1000 <= s.opponent_score - s.my_score <= 31900,
            (s.opponent_score - s.my_score) % 100 == 0,
            s.oya_state == oya_roll,
            s.riichi_sticks <= 3,
            s.tsumibo <= 5,
    {
        let sticks_table: [u8; 8] = [0, 0, 0, 0, 1, 1, 2, 3];
        let tsumibo_table: [u8; 10] = [0, 0, 0, 1, 1, 2, 2, 3, 4, 5];
        let my_score: i32 = 30000 + 100 * score_roll;
        let first_place_score: i32 = my_score + 100 * (lead_roll as i32);
        let s = South4Simulator {
            my_score: my_score as u32,
            opponent_score: first_place_score as u32,
            oya_state: oya_roll,
            riichi_sticks: sticks_table[sticks_roll as usize],
            tsumibo: tsumibo_table[tsumibo_roll as usize],
        };
        assert(s.riichi_sticks == sticks_for_roll(sticks_roll as int));
        assert(s.tsumibo == tsumibo_for_roll(tsumibo_roll as int));
        s
    }

    /// Checks if the player correctly estimated the hands they need: a direct hit on the leader,
    /// a ron from someone else and a tsumo.
    #[verifier::rlimit(40)]
    pub fn evaluate(&self, direct_ron: (u8, u8), other_ron: (u8, u8), tsumo: (u8, u8), hard_mode: bool) -> (r: ((bool, bool, bool), ((u8, u8), (u8, u8), (u8, u8))))
        requires
            evaluable(*self),
        ensures
            r == evaluate_spec(*self, direct_ron, other_ron, tsumo, hard_mode),
    {
        let mut point_difference: i32 = self.opponent_score as i32 - self.my_score as i32 + 100 - 1000 * self.riichi_sticks as i32
            - 300 * self.tsumibo as i32;
        let fu_limit: u8 = if hard_mode { 110 } else { 60 };
        if point_difference <= 0 {
            point_difference = 100;  // you can just win with whatever
        }
        // opponent pays all, so I only need 1/2 of our point difference
        let direct_ron_points = (point_difference / 2) as u32;
        // the leader pays 100 points per stick
        let mut tsumo_points = point_difference as u32 - (self.tsumibo * 100) as u32;
        let mut oya = false;
        if self.oya_state == 1 {
            // opponent will pay 1/4 of the winnings, so I only need to find 4/5 of the difference
            tsumo_points = (4 * tsumo_points + 4) / 5;
        } else if self.oya_state == 2 {
            // opponent will pay 1/3 of the winnings
            tsumo_points = (3 * tsumo_points + 3) / 4;
            oya = true;
        } else if self.oya_state == 3 {
            // opponent pays 1/2 of the winnings, so our difference changes accordingly
            tsumo_points = (2 * tsumo_points + 2) / 3;
        }
        proof {
            lemma_from_points_nonempty(direct_ron_points as int, oya, false, fu_limit as int);
            lemma_from_points_nonempty(point_difference as int, oya, false, fu_limit as int);
            lemma_from_points_nonempty(tsumo_points as int, oya, true, fu_limit as int);
        }
        let direct_ron_score = Score::new(direct_ron.0, direct_ron.1, oya, false);
        let direct = first_score(Score::from_points_capped(direct_ron_points, oya, false, fu_limit));
        let other_ron_score = Score::new(other_ron.0, other_ron.1, oya, false);
        let other = first_score(Score::from_points_capped(point_difference as u32, oya, false, fu_limit));
        let tsumo_score = Score::new(tsumo.0, tsumo.1, oya, true);
        let tsumo_correct = first_score(Score::from_points_capped(tsumo_points, oya, true, fu_limit));
        (
            (
                direct.0 == direct_ron_score.total_points(),
                other.0 == other_ron_score.total_points(),
                tsumo_correct.0 == tsumo_score.total_points(),
            ),
            ((direct.1, direct.2), (other.1, other.2), (tsumo_correct.1, tsumo_correct.2)),
        )
    }
}

} // verus!
