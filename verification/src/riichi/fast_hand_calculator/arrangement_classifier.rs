use vstd::prelude::*;
use super::resources::Resources;

verus! {

/// The walk through the arrangement transitions: from the entry at the first value, each next
/// value added to the current entry; none where it leaves the table or a sum leaves `u32`.
pub open spec fn arrangement_walk(t: Seq<u32>, v: Seq<u32>) -> Option<u32> {
    if v.len() != 4 || v[0] >= t.len() {
        None
    } else {
        let c0 = t[v[0] as int];
        if c0 + v[1] >= t.len() || c0 + v[1] > u32::MAX {
            None
        } else {
            let c1 = t[c0 + v[1]];
            if c1 + v[2] >= t.len() || c1 + v[2] > u32::MAX {
                None
            } else {
                let c2 = t[c1 + v[2]];
                if c2 + v[3] >= t.len() || c2 + v[3] > u32::MAX {
                    None
                } else {
                    Some(t[c2 + v[3]])
                }
            }
        }
    }
}

/// Turns the arrangement values of the three suits and the honors into a shanten value.
pub struct ArrangementClassifier {}

impl ArrangementClassifier {
    pub fn new() -> (c: Self) {
        Self {}
    }

    /// The entry the walk through the transitions reaches (where it stays in the table).
    pub fn classify(&self, values: &[u32; 4], res: &Resources) -> (r: u32)
        requires
            arrangement_walk(res.transitions(), values@) is Some,
        ensures
            arrangement_walk(res.transitions(), values@) == Some(r),
    {
        let transitions = res.get_arrangement_transitions();
        let mut current = transitions[values[0] as usize];
        current = transitions[(current + values[1]) as usize];
        current = transitions[(current + values[2]) as usize];
        current = transitions[(current + values[3]) as usize];
        current
    }
}

} // verus!
