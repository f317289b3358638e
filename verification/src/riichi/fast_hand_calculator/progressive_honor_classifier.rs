use vstd::prelude::*;
use super::resources::Resources;

verus! {

/// One step of the honor state machine: from the current state, the state at current + the
/// action's number, and the arrangement value at that state; none where a step leaves the
/// table.
pub open spec fn honor_step(t: Seq<u32>, current: int, action: int) -> Option<(int, int)> {
    if current + action >= t.len() || current + action > u32::MAX {
        None
    } else {
        let next = t[current + action] as int;
        if next >= t.len() {
            None
        } else {
            Some((next, t[next] as int))
        }
    }
}

/// Returns the arrangement value of honors after the execution of a single action.
/// actionIds:
///
/// 0  draw with 0 of the same type in concealed hand
/// 1  draw with 1
/// 2  draw with 2
/// 3  draw with 3
///
/// 4  draw with pon of the same type
///
/// 5  discard with 1 of the same type in concealed hand
/// 6  discard with 2
/// 7  discard with 3
/// 8  discard with 4
///
/// 9  discard with pon of the same type
///
/// 10 pon with 2 of the same type in hand before pon
/// 11 pon with 3
///
/// 12 daiminkan
///
/// 13 shouminkan
///
/// 14 ankan
///
/// The next state is always at current + 1 + actionId
pub struct ProgressiveHonorClassifier {
    current: u32,
}

impl ProgressiveHonorClassifier {
    /// The current state.
    pub closed spec fn state(&self) -> int {
        self.current as int
    }

    pub fn new() -> (c: ProgressiveHonorClassifier)
        ensures
            c.state() == 0,
    {
        ProgressiveHonorClassifier { current: 0 }
    }

    /// Takes the step of this action and gives the arrangement value reached.
    fn step(&mut self, action: u32, res: &Resources) -> (r: u32)
        requires
            honor_step(res.honor_states(), old(self).state(), action as int) is Some,
        ensures
            honor_step(res.honor_states(), old(self).state(), action as int) == Some((final(self).state(), r as int)),
    {
        let t = res.get_honor_state_machine();
        self.current = t[(self.current + action) as usize];
        t[self.current as usize]
    }

    /// A draw of an honor of which `previous_tiles` (at most 3) were held; `meld_bit` is 1
    /// where the type is a pon.
    pub fn draw(&mut self, previous_tiles: u8, meld_bit: u8, res: &Resources) -> (r: u32)
        requires
            previous_tiles <= 3,
            meld_bit <= 1,
            honor_step(res.honor_states(), old(self).state(), previous_tiles + 4 * meld_bit + 1) is Some,
        ensures
            honor_step(res.honor_states(), old(self).state(), previous_tiles + 4 * meld_bit + 1) == Some((final(self).state(), r as int)),
    {
        let mb = meld_bit << 2u8;
        assert(mb == 4 * meld_bit) by (bit_vector)
            requires
                meld_bit <= 1,
                mb == meld_bit << 2u8,
        ;
        let action = previous_tiles + mb + 1;
        self.step(action as u32, res)
    }

    /// A discard of an honor of which `tiles_after_discard` (at most 3) are left; `meld_bit`
    /// is 1 where the type is a pon.
    pub fn discard(&mut self, tiles_after_discard: u8, meld_bit: u8, res: &Resources) -> (r: u32)
        requires
            tiles_after_discard <= 3,
            meld_bit <= 1,
            honor_step(res.honor_states(), old(self).state(), tiles_after_discard + 4 * meld_bit + 6) is Some,
        ensures
            honor_step(res.honor_states(), old(self).state(), tiles_after_discard + 4 * meld_bit + 6) == Some((final(self).state(), r as int)),
    {
        let mb = meld_bit << 2u8;
        assert(mb == 4 * meld_bit) by (bit_vector)
            requires
                meld_bit <= 1,
                mb == meld_bit << 2u8,
        ;
        let action = tiles_after_discard + mb + 6;
        self.step(action as u32, res)
    }

    /// A pon of an honor of which `previous_tiles` (2 or 3) were held.
    pub fn pon(&mut self, previous_tiles: u8, res: &Resources) -> (r: u32)
        requires
            honor_step(res.honor_states(), old(self).state(), previous_tiles + 9) is Some,
        ensures
            honor_step(res.honor_states(), old(self).state(), previous_tiles + 9) == Some((final(self).state(), r as int)),
    {
        self.step(previous_tiles as u32 + 9, res)
    }

    pub fn daiminkan(&mut self, res: &Resources) -> (r: u32)
        requires
            honor_step(res.honor_states(), old(self).state(), 13) is Some,
        ensures
            honor_step(res.honor_states(), old(self).state(), 13) == Some((final(self).state(), r as int)),
    {
        self.step(13, res)
    }

    pub fn shouminkan(&mut self, res: &Resources) -> (r: u32)
        requires
            honor_step(res.honor_states(), old(self).state(), 14) is Some,
        ensures
            honor_step(res.honor_states(), old(self).state(), 14) == Some((final(self).state(), r as int)),
    {
        self.step(14, res)
    }

    pub fn ankan(&mut self, res: &Resources) -> (r: u32)
        requires
            honor_step(res.honor_states(), old(self).state(), 15) is Some,
        ensures
            honor_step(res.honor_states(), old(self).state(), 15) == Some((final(self).state(), r as int)),
    {
        self.step(15, res)
    }
}

} // verus!
