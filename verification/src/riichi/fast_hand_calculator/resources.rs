use vstd::prelude::*;
use super::super::text::{chars_of, digit_value, from_digit_char};
use super::super::table::{digits_value, has_non_digit, lemma_digits_grow, lemma_digits_nonneg};

verus! {

/// What `str::parse::<i32>` reads from a text: an optional sign, then one or more decimal
/// digits, the value within the range of `i32`.
pub open spec fn i32_text_value(s: Seq<char>) -> Option<int> {
    let neg = s.len() > 0 && s[0] == '-';
    let d = if s.len() > 0 && (s[0] == '-' || s[0] == '+') { s.drop_first() } else { s };
    if d.len() == 0 || has_non_digit(d) {
        None
    } else {
        let v = if neg { -digits_value(d) } else { digits_value(d) };
        if v < -2147483648 || v > 2147483647 { None } else { Some(v) }
    }
}

/// A table entry read from a line: its value, 0 where it is negative or not a number.
pub open spec fn table_entry(line: Seq<char>) -> u32 {
    match i32_text_value(line) {
        Some(n) => if n < 0 { 0 } else { n as u32 },
        None => 0,
    }
}

/// A text split at each line feed, as `str::split('\n')` does (a text without one is a line
/// of its own; a final line feed ends with an empty line).
pub open spec fn split_lines(s: Seq<char>) -> Seq<Seq<char>>
    decreases s.len(),
{
    if s.len() == 0 {
        seq![seq![]]
    } else {
        let rest = split_lines(s.drop_last());
        if s.last() == '\n' {
            rest.push(seq![])
        } else {
            rest.update(rest.len() - 1, rest.last().push(s.last()))
        }
    }
}

/// The entries of a table written one per line.
pub open spec fn table_of(s: Seq<char>) -> Seq<u32> {
    split_lines(s).map_values(|l: Seq<char>| table_entry(l))
}

/// Reads one table entry from a line.
fn parse_entry(line: &Vec<char>) -> (r: u32)
    ensures
        r == table_entry(line@),
{
    let ghost s = line@;
    if line.len() > 0 && line[0] == '-' {
        proof {
            let d = s.drop_first();
            if !(d.len() == 0 || has_non_digit(d)) {
                assert forall|j: int| 0 <= j < d.len() implies #[trigger] digit_value(d[j]) is Some by {}
                lemma_digits_nonneg(d);
            }
        }
        return 0;
    }
    let start: usize = if line.len() > 0 && line[0] == '+' { 1 } else { 0 };
    let ghost d = if s.len() > 0 && s[0] == '+' { s.drop_first() } else { s };
    assert(d =~= s.skip(start as int));
    if start == line.len() {
        return 0;
    }
    let mut value: u64 = 0;
    let mut i: usize = start;
    while i < line.len()
        invariant
            s == line@,
            !(s.len() > 0 && s[0] == '-'),
            start <= i <= s.len(),
            d == s.skip(start as int),
            d.len() > 0,
            d == (if s.len() > 0 && (s[0] == '-' || s[0] == '+') { s.drop_first() } else { s }),
            value as int == digits_value(d.take(i - start)),
            value <= 2147483647,
            forall|j: int| 0 <= j < i - start ==> #[trigger] digit_value(d[j]) is Some,
        decreases line.len() - i,
    {
        assert(d.take(i - start + 1).drop_last() =~= d.take(i - start));
        assert(d[i - start] == s[i as int]);
        match from_digit_char(line[i]) {
            None => {
                assert(digit_value(d[i - start]) is None);
                assert(has_non_digit(d));
                return 0;
            },
            Some(v) => {
                let next = value * 10 + v as u64;
                assert(d.take(i - start + 1).last() == d[i - start]);
                assert(digits_value(d.take(i - start + 1)) == next);
                if next > 2147483647 {
                    proof {
                        if !has_non_digit(d) {
                            assert forall|j: int| 0 <= j < d.len() implies #[trigger] digit_value(d[j]) is Some by {}
                            lemma_digits_grow(d, i - start + 1);
                        }
                    }
                    return 0;
                }
                value = next;
            },
        }
        i = i + 1;
    }
    assert(d.take(i - start) =~= d);
    assert(!has_non_digit(d));
    value as u32
}

/// Reads a table written one entry per line: each line's number, 0 where it is negative or
/// not a number.
pub fn prepare_data_from_string(data: &str) -> (r: Vec<u32>)
    ensures
        r@ == table_of(data@),
{
    let c = chars_of(data);
    let mut out: Vec<u32> = Vec::new();
    let mut line: Vec<char> = Vec::new();
    let mut i: usize = 0;
    proof {
        assert(c@.take(0) =~= Seq::<char>::empty());
        assert(split_lines(c@.take(0)).drop_last().map_values(|l: Seq<char>| table_entry(l)) =~= Seq::<u32>::empty());
    }
    while i < c.len()
        invariant
            c@ == data@,
            i <= c@.len(),
            split_lines(c@.take(i as int)).len() >= 1,
            out@ == split_lines(c@.take(i as int)).drop_last().map_values(|l: Seq<char>| table_entry(l)),
            line@ == split_lines(c@.take(i as int)).last(),
        decreases c.len() - i,
    {
        let ghost lines = split_lines(c@.take(i as int));
        assert(c@.take(i + 1).drop_last() =~= c@.take(i as int));
        assert(c@.take(i + 1).last() == c@[i as int]);
        if c[i] == '\n' {
            let e = parse_entry(&line);
            out.push(e);
            line = Vec::new();
            proof {
                let next = split_lines(c@.take(i + 1));
                assert(next == lines.push(seq![]));
                assert(next.drop_last() =~= lines);
                assert(out@ =~= lines.map_values(|l: Seq<char>| table_entry(l)));
                assert(line@ =~= next.last());
            }
        } else {
            line.push(c[i]);
            proof {
                let next = split_lines(c@.take(i + 1));
                assert(next == lines.update(lines.len() - 1, lines.last().push(c@[i as int])));
                assert(next.drop_last() =~= lines.drop_last());
                assert(line@ =~= next.last());
            }
        }
        i = i + 1;
    }
    let e = parse_entry(&line);
    out.push(e);
    proof {
        assert(c@.take(c@.len() as int) =~= c@);
        let lines = split_lines(c@);
        assert(lines =~= lines.drop_last().push(lines.last()));
        assert(out@ =~= lines.map_values(|l: Seq<char>| table_entry(l)));
    }
    out
}

/// The lookup tables of the fast shanten calculator.
pub struct Resources {
    suit_first_phase: Vec<u32>,
    suit_second_phase_0: Vec<u32>,
    suit_second_phase_1: Vec<u32>,
    suit_second_phase_2: Vec<u32>,
    suit_second_phase_3: Vec<u32>,
    suit_second_phase_4: Vec<u32>,
    suit_base_5_lookup: Vec<u8>,
    arrangement_transitions: Vec<u32>,
    honor_state_machine: Vec<u32>,
}

impl Resources {
    /// The first phase of the suit classifier.
    pub closed spec fn first_phase(&self) -> Seq<u32> {
        self.suit_first_phase@
    }

    /// The second phase of the suit classifier for this many melds (0 to 4).
    pub closed spec fn second_phase(&self, i: int) -> Seq<u32> {
        if i == 0 {
            self.suit_second_phase_0@
        } else if i == 1 {
            self.suit_second_phase_1@
        } else if i == 2 {
            self.suit_second_phase_2@
        } else if i == 3 {
            self.suit_second_phase_3@
        } else {
            self.suit_second_phase_4@
        }
    }

    /// The arrangement values of suits without melds, by base 5 hash.
    pub closed spec fn base_5_lookup(&self) -> Seq<u8> {
        self.suit_base_5_lookup@
    }

    /// The transitions of the arrangement classifier.
    pub closed spec fn transitions(&self) -> Seq<u32> {
        self.arrangement_transitions@
    }

    /// The state machine of the honor classifier.
    pub closed spec fn honor_states(&self) -> Seq<u32> {
        self.honor_state_machine@
    }

    /// The tables read from their texts (one entry per line; the second phase has one text
    /// for each meld count, 0 to 4) and from the bytes of the base 5 lookup.
    pub fn from_data(first_phase: &str, second_phase: &Vec<String>, base5: &Vec<u8>, transitions: &str, honors: &str) -> (r: Resources)
        requires
            second_phase@.len() == 5,
        ensures
            r.first_phase() == table_of(first_phase@),
            forall|i: int| 0 <= i < 5 ==> #[trigger] r.second_phase(i) == table_of(second_phase@[i]@),
            r.base_5_lookup() == base5@,
            r.transitions() == table_of(transitions@),
            r.honor_states() == table_of(honors@),
    {
        let r = Resources {
            suit_first_phase: prepare_data_from_string(first_phase),
            suit_second_phase_0: prepare_data_from_string(second_phase[0].as_str()),
            suit_second_phase_1: prepare_data_from_string(second_phase[1].as_str()),
            suit_second_phase_2: prepare_data_from_string(second_phase[2].as_str()),
            suit_second_phase_3: prepare_data_from_string(second_phase[3].as_str()),
            suit_second_phase_4: prepare_data_from_string(second_phase[4].as_str()),
            suit_base_5_lookup: base5.clone(),
            arrangement_transitions: prepare_data_from_string(transitions),
            honor_state_machine: prepare_data_from_string(honors),
        };
        proof {
            assert forall|i: int| 0 <= i < 5 implies #[trigger] r.second_phase(i) == table_of(second_phase@[i]@) by {
                if i == 0 {
                } else if i == 1 {
                } else if i == 2 {
                } else if i == 3 {
                } else {
                }
            }
        }
        r
    }

    pub fn get_suit_first_phase(&self) -> (t: &Vec<u32>)
        ensures
            t@ == self.first_phase(),
    {
        &self.suit_first_phase
    }

    pub fn get_suit_second_phase(&self, i: u8) -> (t: Option<&Vec<u32>>)
        ensures
            i <= 4 ==> (t matches Some(v) && v@ == self.second_phase(i as int)),
            i > 4 ==> t is None,
    {
        match i {
            0 => Some(&self.suit_second_phase_0),
            1 => Some(&self.suit_second_phase_1),
            2 => Some(&self.suit_second_phase_2),
            3 => Some(&self.suit_second_phase_3),
            4 => Some(&self.suit_second_phase_4),
            _ => None,
        }
    }

    pub fn get_suit_base_5_lookup(&self) -> (t: &Vec<u8>)
        ensures
            t@ == self.base_5_lookup(),
    {
        &self.suit_base_5_lookup
    }

    pub fn get_honor_state_machine(&self) -> (t: &Vec<u32>)
        ensures
            t@ == self.honor_states(),
    {
        &self.honor_state_machine
    }

    pub fn get_arrangement_transitions(&self) -> (t: &Vec<u32>)
        ensures
            t@ == self.transitions(),
    {
        &self.arrangement_transitions
    }
}

} // verus!
