//! Per-cell candidate sets: which of the digits 1 through 9 a cell may still
//! hold, as nine boolean flags, with the collapse query that detects a cell
//! resolved to a single digit.

use vstd::prelude::*;

verus! {

/// A cell's candidate set: flag `i` true means digit `i + 1` is still
/// possible for the cell. A cell built from a puzzle starts with either all
/// nine flags true (unresolved) or exactly one (resolved); elimination may
/// later leave any subset, flags being only ever cleared, never set.
#[derive(Copy, Clone, Debug)]
pub struct Sp {
    pub states: [bool; 9],
}

/// The flags of an unresolved cell: every digit still possible.
pub open spec fn full_states() -> Seq<bool> {
    Seq::new(9, |k: int| true)
}

/// The flags of a cell resolved to `digit` (1 through 9): one true flag,
/// at index `digit - 1`.
pub open spec fn singleton_states(digit: int) -> Seq<bool> {
    Seq::new(9, |k: int| k == digit - 1)
}

/// Exactly one flag is true, the one at index `d`.
pub open spec fn is_singleton_of(s: Seq<bool>, d: int) -> bool {
    &&& 0 <= d < 9
    &&& s[d]
    &&& forall|j: int| 0 <= j < 9 && j != d ==> !s[j]
}

/// Exactly one flag of the set is true.
pub open spec fn has_single_candidate(s: Seq<bool>) -> bool {
    exists|d: int| is_singleton_of(s, d)
}

/// The character that writes the digit `d` (1 through 9).
pub open spec fn digit_char(d: int) -> char {
    if d == 1 {
        '1'
    } else if d == 2 {
        '2'
    } else if d == 3 {
        '3'
    } else if d == 4 {
        '4'
    } else if d == 5 {
        '5'
    } else if d == 6 {
        '6'
    } else if d == 7 {
        '7'
    } else if d == 8 {
        '8'
    } else {
        '9'
    }
}

/// The comma-joined listing of the digits of the true flags at index `i` and
/// above; `first` says whether nothing has been written yet, so that a comma
/// goes before every digit but the first.
pub open spec fn render_from(s: Seq<bool>, i: int, first: bool) -> Seq<char>
    decreases 9 - i,
{
    if i < 0 || i >= 9 {
        Seq::empty()
    } else if s[i] {
        (if first {
            seq![digit_char(i + 1)]
        } else {
            seq![',', digit_char(i + 1)]
        }) + render_from(s, i + 1, false)
    } else {
        render_from(s, i + 1, first)
    }
}

/// What `display` returns: the literal `any` when all nine flags are true,
/// else the comma-joined digits of the true flags, in increasing order.
pub open spec fn render_spec(s: Seq<bool>) -> Seq<char> {
    if forall|d: int| 0 <= d < 9 ==> s[d] {
        seq!['a', 'n', 'y']
    } else {
        render_from(s, 0, true)
    }
}

/// The one-character string that writes the digit `d`.
fn digit_str(d: usize) -> (r: &'static str)
    requires
        1 <= d <= 9,
    ensures
        r@ == seq![digit_char(d as int)],
{
    proof {
        reveal_strlit("1");
        reveal_strlit("2");
        reveal_strlit("3");
        reveal_strlit("4");
        reveal_strlit("5");
        reveal_strlit("6");
        reveal_strlit("7");
        reveal_strlit("8");
        reveal_strlit("9");
    }
    let r = if d == 1 {
        "1"
    } else if d == 2 {
        "2"
    } else if d == 3 {
        "3"
    } else if d == 4 {
        "4"
    } else if d == 5 {
        "5"
    } else if d == 6 {
        "6"
    } else if d == 7 {
        "7"
    } else if d == 8 {
        "8"
    } else {
        "9"
    };
    proof {
        assert(r@ =~= seq![digit_char(d as int)]);
    }
    r
}

impl Default for Sp {
    /// The neutral value the generic peer extraction fills its output with
    /// before writing the peers: a set with every flag false.
    fn default() -> (sp: Sp)
        ensures
            sp.states@ == Seq::new(9, |k: int| false),
    {
        let sp = Sp { states: [false; 9] };
        proof {
            assert(sp.states@ =~= Seq::new(9, |k: int| false));
        }
        sp
    }
}

impl Sp {
    /// Constructor for an unresolved cell: all nine digits remain possible.
    pub fn full() -> (sp: Sp)
        ensures
            sp.states@ == full_states(),
    {
        let sp = Sp { states: [true; 9] };
        proof {
            assert(sp.states@ =~= full_states());
        }
        sp
    }

    /// Constructor for a cell resolved to `digit`: only its flag is true.
    pub fn singleton(digit: u8) -> (sp: Sp)
        requires
            1 <= digit <= 9,
        ensures
            sp.states@ == singleton_states(digit as int),
    {
        let sp = Sp {
            states: [
                digit == 1,
                digit == 2,
                digit == 3,
                digit == 4,
                digit == 5,
                digit == 6,
                digit == 7,
                digit == 8,
                digit == 9,
            ],
        };
        proof {
            assert(sp.states@ =~= singleton_states(digit as int));
        }
        sp
    }

    /// Clears the flag of `digit`, leaving the other flags as they were.
    pub fn clear(&mut self, digit: u8)
        requires
            1 <= digit <= 9,
        ensures
            final(self).states@ == old(self).states@.update(digit - 1, false),
    {
        self.states[(digit - 1) as usize] = false;
    }

    /// Human-readable listing of the set: the digits whose flags are true,
    /// comma-joined in increasing order, or the marker `any` when all nine
    /// remain.
    pub fn display(&self) -> (out: String)
        ensures
            out@ == render_spec(self.states@),
    {
        let mut all_true = true;
        for i in 0..9usize
            invariant
                all_true <==> (forall|j: int| 0 <= j < i ==> self.states@[j]),
        {
            if !self.states[i] {
                all_true = false;
            }
        }
        if all_true {
            let r = String::from_str("any");
            proof {
                reveal_strlit("any");
                assert(r@ =~= seq!['a', 'n', 'y']);
            }
            return r;
        }
        let mut out = String::new();
        let mut first = true;
        proof {
            assert(out@ + render_from(self.states@, 0, true) =~= render_from(
                self.states@,
                0,
                true,
            ));
        }
        for i in 0..9usize
            invariant
                !(forall|d: int| 0 <= d < 9 ==> self.states@[d]),
                first <==> (forall|j: int| 0 <= j < i ==> !self.states@[j]),
                out@ + render_from(self.states@, i as int, first) == render_from(
                    self.states@,
                    0,
                    true,
                ),
        {
            if self.states[i] {
                let ghost prev = out@;
                if !first {
                    out.append(",");
                    proof {
                        reveal_strlit(",");
                    }
                }
                out.append(digit_str(i + 1));
                proof {
                    if first {
                        assert(out@ =~= prev + seq![digit_char(i + 1)]);
                        assert(render_from(self.states@, i as int, true) == seq![
                            digit_char(i + 1),
                        ] + render_from(self.states@, i + 1, false));
                    } else {
                        assert(out@ =~= prev + seq![',', digit_char(i + 1)]);
                        assert(render_from(self.states@, i as int, false) == seq![
                            ',',
                            digit_char(i + 1),
                        ] + render_from(self.states@, i + 1, false));
                    }
                    assert(out@ + render_from(self.states@, i + 1, false) =~= prev + render_from(
                        self.states@,
                        i as int,
                        first,
                    ));
                }
                first = false;
            }
        }
        proof {
            assert(render_from(self.states@, 9, first) =~= Seq::<char>::empty());
            assert(out@ =~= out@ + render_from(self.states@, 9, first));
            assert(out@ == render_spec(self.states@));
        }
        out
    }

    /// The collapse query: returns `Some(d)` exactly when the set has a
    /// single true flag, namely the one of digit `d`; returns `None` both
    /// for a set with no true flag and for one with several, without
    /// distinguishing the two. A query, never a mutation.
    pub fn try_collapse(&self) -> (r: Option<u8>)
        ensures
            r is Some <==> has_single_candidate(self.states@),
            r matches Some(d) ==> 1 <= d <= 9 && is_singleton_of(self.states@, d - 1),
    {
        let mut trues_cnt: usize = 0;
        let mut val: usize = 0;
        for i in 0..9usize
            invariant
                trues_cnt <= i,
                val < 9,
                trues_cnt == 0 ==> forall|j: int| 0 <= j < i ==> !self.states@[j],
                trues_cnt == 1 ==> val < i && self.states@[val as int] && forall|j: int|
                    0 <= j < i && j != val ==> !self.states@[j],
                trues_cnt >= 2 ==> exists|j1: int, j2: int|
                    0 <= j1 < j2 < i && self.states@[j1] && self.states@[j2],
        {
            if self.states[i] {
                trues_cnt += 1;
                val = i;
            }
        }
        proof {
            if trues_cnt == 0 {
                assert forall|d: int| !is_singleton_of(self.states@, d) by {
                    if 0 <= d < 9 {
                        assert(!self.states@[d]);
                    }
                }
            } else if trues_cnt >= 2 {
                let (j1, j2) = choose|j1: int, j2: int|
                    0 <= j1 < j2 < 9 && self.states@[j1] && self.states@[j2];
                assert forall|d: int| !is_singleton_of(self.states@, d) by {
                    if is_singleton_of(self.states@, d) {
                        if j1 != d {
                            assert(!self.states@[j1]);
                        } else {
                            assert(!self.states@[j2]);
                        }
                    }
                }
            } else {
                assert(is_singleton_of(self.states@, val as int));
            }
        }
        if trues_cnt == 1 {
            Some((val + 1) as u8)
        } else {
            None
        }
    }
}

} // verus!
