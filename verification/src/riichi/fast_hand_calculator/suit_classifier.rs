use vstd::prelude::*;
use super::resources::Resources;

verus! {

/// The walk through the first phase for the melds of a suit, six bits each, youngest in the
/// least significant bits: from `current`, each meld id added to the current entry, until a
/// zero id or five melds; gives the entry reached and how many melds were read, none where the
/// walk leaves the table.
pub open spec fn meld_walk(fp: Seq<u32>, melds: int, current: int, k: int) -> Option<(int, int)>
    decreases 5 - k,
{
    if k >= 5 || melds % 64 == 0 {
        Some((current, k))
    } else if current + melds % 64 >= fp.len() {
        None
    } else {
        meld_walk(fp, melds / 64, fp[current + melds % 64] as int, k + 1)
    }
}

/// What is added to the entry after each of the first eight steps of the second phase, by
/// meld count.
pub open spec fn suit_adds(meld_count: int) -> Seq<int> {
    if meld_count == 1 {
        seq![0, 0, 0, 11752, 30650, 55952, 80078, 99750]
    } else if meld_count == 2 {
        seq![0, 0, 22358, 54162, 90481, 120379, 139662, 150573]
    } else if meld_count == 3 {
        seq![0, 24641, 50680, 76245, 93468, 102953, 107217, 108982]
    } else {
        seq![0, 0, 0, 0, 0, 0, 0, 0]
    }
}

/// The walk through the second phase over the nine counts of a suit, from step `j`: each count
/// added to the current entry, the entry there, plus what is added after that step; the
/// entry after the last step. None where the walk leaves the table or a value leaves `u32`.
pub open spec fn suit_walk(sp: Seq<u32>, current: int, counts: Seq<u8>, adds: Seq<int>, j: int) -> Option<int>
    decreases 9 - j,
{
    if j >= 9 {
        Some(current)
    } else {
        let idx = current + counts[j];
        if idx >= sp.len() || idx > u32::MAX {
            None
        } else {
            let v = sp[idx] + if j < 8 { adds[j] } else { 0 };
            if v > u32::MAX {
                None
            } else {
                suit_walk(sp, v, counts, adds, j + 1)
            }
        }
    }
}

/// What is added after step `j` (below 8) of the second phase walk, for 1 to 4 melds.
fn suit_add(meld_count: u8, j: usize) -> (r: u32)
    requires
        1 <= meld_count <= 4,
        j < 8,
    ensures
        r as int == suit_adds(meld_count as int)[j as int],
{
    if meld_count == 1 {
        if j == 3 { 11752 } else if j == 4 { 30650 } else if j == 5 { 55952 } else if j == 6 { 80078 } else if j == 7 { 99750 } else { 0 }
    } else if meld_count == 2 {
        if j == 2 { 22358 } else if j == 3 { 54162 } else if j == 4 { 90481 } else if j == 5 { 120379 } else if j == 6 { 139662 } else if j == 7 { 150573 } else { 0 }
    } else if meld_count == 3 {
        if j == 1 { 24641 } else if j == 2 { 50680 } else if j == 3 { 76245 } else if j == 4 { 93468 } else if j == 5 { 102953 } else if j == 6 { 107217 } else if j == 7 { 108982 } else { 0 }
    } else {
        0
    }
}

/// Arrangement values of a suit from its tile counts, through the lookup tables.
pub struct SuitClassifier {
    meld_count: u8,
    entry: u32,
}

impl SuitClassifier {
    /// How many melds of the suit were read.
    pub closed spec fn meld_count_view(&self) -> int {
        self.meld_count as int
    }

    /// The second phase entry the melds lead to.
    pub closed spec fn entry_view(&self) -> int {
        self.entry as int
    }

    /// A classifier with no melds.
    pub fn new() -> (c: SuitClassifier)
        ensures
            c.meld_count_view() == 0,
            c.entry_view() == 0,
    {
        SuitClassifier { meld_count: 0, entry: 0 }
    }

    /// Reads the melds of the suit (six bits each, youngest in the least significant bits):
    /// the meld count and the entry that the first phase walk reaches.
    pub fn set_melds(&mut self, melds: u32, res: &Resources)
        requires
            meld_walk(res.first_phase(), melds as int, 0, 0) matches Some(w) && w.0 < res.first_phase().len(),
        ensures
            meld_walk(res.first_phase(), melds as int, 0, 0) matches Some(w)
                && final(self).meld_count_view() == w.1
                && final(self).entry_view() == res.first_phase()[w.0],
    {
        let fp = res.get_suit_first_phase();
        let n = fp.len();
        let ghost all = melds as int;
        let mut melds = melds;
        let mut current: usize = 0;
        self.meld_count = 0;
        let mut i: u8 = 0;
        while i < 5
            invariant
                fp@ == res.first_phase(),
                n == fp@.len(),
                i <= 5,
                self.meld_count == i,
                meld_walk(fp@, all, 0, 0) matches Some(w) && w.0 < fp@.len(),
                meld_walk(fp@, melds as int, current as int, i as int) == meld_walk(fp@, all, 0, 0),
            ensures
                meld_walk(fp@, all, 0, 0) == Some((current as int, self.meld_count as int)),
                meld_walk(fp@, all, 0, 0) matches Some(w) && w.0 < fp@.len(),
            decreases 5 - i,
        {
            let m = melds & 0b111111u32;
            assert(m == melds % 64) by (bit_vector)
                requires
                    m == melds & 0b111111u32,
            ;
            if m != 0 {
                assert(current + m < fp@.len());
                current = fp[current + m as usize] as usize;
                let next = melds >> 6u32;
                assert(next == melds / 64) by (bit_vector)
                    requires
                        next == melds >> 6u32,
                ;
                melds = next;
                self.meld_count = self.meld_count + 1;
            } else {
                break;
            }
            i = i + 1;
        }
        self.entry = fp[current];
    }

    /// The arrangement value of a suit (0 manzu, 1 pinzu, 2 souzu): with no melds the base 5
    /// lookup at the suit's hash; with one to four, the second phase walk for that many melds
    /// over the suit's nine counts; 0 otherwise.
    pub fn get_value(&self, tiles: &[u8; 34], suit: usize, base5hashes: &[u32; 3], res: &Resources) -> (r: u32)
        requires
            suit < 3,
            self.meld_count_view() == 0 ==> base5hashes@[suit as int] < res.base_5_lookup().len(),
            1 <= self.meld_count_view() <= 4 ==> suit_walk(res.second_phase(self.meld_count_view()), self.entry_view(),
                tiles@.subrange(9 * suit, 9 * suit + 9), suit_adds(self.meld_count_view()), 0) is Some,
        ensures
            self.meld_count_view() == 0 ==> r == res.base_5_lookup()[base5hashes@[suit as int] as int],
            1 <= self.meld_count_view() <= 4 ==> suit_walk(res.second_phase(self.meld_count_view()), self.entry_view(),
                tiles@.subrange(9 * suit, 9 * suit + 9), suit_adds(self.meld_count_view()), 0) == Some(r as int),
            self.meld_count_view() > 4 ==> r == 0,
    {
        let offset = suit * 9;
        if self.meld_count == 0 {
            let b = res.get_suit_base_5_lookup();
            return b[base5hashes[suit] as usize] as u32;
        }
        if self.meld_count > 4 {
            return 0;
        }
        let ghost a = suit_adds(self.meld_count as int);
        let second_phase = res.get_suit_second_phase(self.meld_count).unwrap();
        let ghost counts = tiles@.subrange(9 * suit, 9 * suit + 9);
        let ghost sp = second_phase@;
        let mut current: u32 = self.entry;
        let mut j: usize = 0;
        while j < 8
            invariant
                j <= 8,
                suit < 3,
                offset == 9 * suit,
                sp == second_phase@,
                counts == tiles@.subrange(9 * suit, 9 * suit + 9),
                1 <= self.meld_count <= 4,
                a == suit_adds(self.meld_count as int),
                suit_walk(sp, current as int, counts, a, j as int) == suit_walk(sp, self.entry_view(), counts, a, 0),
                suit_walk(sp, current as int, counts, a, j as int) is Some,
            decreases 8 - j,
        {
            assert(counts[j as int] == tiles@[offset + j]);
            let idx = current as u64 + tiles[offset + j] as u64;
            let v = second_phase[idx as usize] as u64 + suit_add(self.meld_count, j) as u64;
            current = v as u32;
            j = j + 1;
        }
        assert(counts[8] == tiles@[offset + 8]);
        let idx = current as u64 + tiles[offset + 8] as u64;
        proof {
            assert(suit_walk(sp, sp[idx as int] as int, counts, a, 9) == Some(sp[idx as int] as int));
        }
        second_phase[idx as usize]
    }
}

} // verus!
