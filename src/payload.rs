use vstd::prelude::*;
use vstd::string::*;

use crate::catalog::CrudError;
use crate::runner::{BililiveEntry, DebugEntry};

verus! {

pub open spec fn is_digit(c: u8) -> bool {
    48 <= c <= 57
}

/// The value of a run of ASCII decimal digits.
pub open spec fn digits_value(b: Seq<u8>) -> nat
    decreases b.len(),
{
    if b.len() == 0 {
        0
    } else {
        digits_value(b.drop_last()) * 10 + (b.last() - 48) as nat
    }
}

pub open spec fn all_digits(d: Seq<u8>) -> bool {
    forall|i: int| 0 <= i < d.len() ==> is_digit(#[trigger] d[i])
}

/// The text after an optional leading `+`.
pub open spec fn sign_stripped(b: Seq<u8>) -> Seq<u8> {
    if b.len() > 0 && b[0] == 43 {
        b.drop_first()
    } else {
        b
    }
}

/// What `u64::from_str` accepts: an optional `+`, then one or more ASCII
/// digits whose value fits in 64 bits.
pub open spec fn decimal_u64(b: Seq<u8>) -> Option<u64> {
    let d = sign_stripped(b);
    if d.len() > 0 && all_digits(d) && digits_value(d) <= u64::MAX {
        Some(digits_value(d) as u64)
    } else {
        None
    }
}

proof fn lemma_digits_grow(d: Seq<u8>, i: int, j: int)
    requires
        0 <= i <= j <= d.len(),
        all_digits(d),
    ensures
        digits_value(d.take(i)) <= digits_value(d.take(j)),
    decreases j - i,
{
    if i < j {
        lemma_digits_grow(d, i, j - 1);
        assert(d.take(j).drop_last() == d.take(j - 1));
    }
}

/// Parses a decimal `u64` the way `u64::from_str` does.
pub fn parse_u64(s: &str) -> (r: Option<u64>)
    ensures
        r == decimal_u64(s.spec_bytes()),
{
    let b = s.as_bytes();
    let ghost all = b@;
    let start: usize = if b.len() > 0 && b[0] == 43 {
        1
    } else {
        0
    };
    let ghost d = all.subrange(start as int, all.len() as int);
    proof {
        if start == 1 {
            assert(d == all.drop_first());
        } else {
            assert(d == all);
        }
    }
    if b.len() == start {
        return None;
    }
    let mut acc: u64 = 0;
    let mut i: usize = start;
    while i < b.len()
        invariant
            start <= i <= b@.len(),
            b@ == all,
            all == s.spec_bytes(),
            start == (if all.len() > 0 && all[0] == 43 {
                1usize
            } else {
                0usize
            }),
            d == all.subrange(start as int, all.len() as int),
            forall|k: int| 0 <= k < i - start ==> is_digit(#[trigger] d[k]),
            acc == digits_value(d.take(i - start)),
        decreases b.len() - i,
    {
        let c = b[i];
        proof {
            assert(d[i - start] == c);
            assert(d.take(i - start + 1).drop_last() == d.take(i - start));
        }
        if c < 48 || c > 57 {
            proof {
                assert(!is_digit(d[i - start]));
                assert(sign_stripped(all) == d);
                assert(!all_digits(d));
            }
            return None;
        }
        let digit = (c - 48) as u64;
        proof {
            assert(d.take(i - start + 1).last() == c);
            assert(digits_value(d.take(i - start + 1)) == acc * 10 + digit);
        }
        if acc > (u64::MAX - digit) / 10 {
            proof {
                assert(acc * 10 + digit > u64::MAX) by (nonlinear_arith)
                    requires
                        acc > (u64::MAX - digit) / 10,
                        digit <= 9,
                ;
                assert(sign_stripped(all) == d);
                if all_digits(d) {
                    lemma_digits_grow(d, i - start + 1, d.len() as int);
                    assert(d.take(d.len() as int) == d);
                }
            }
            return None;
        }
        proof {
            assert(acc * 10 + digit <= u64::MAX) by (nonlinear_arith)
                requires
                    acc <= (u64::MAX - digit) / 10,
                    digit <= 9,
            ;
        }
        acc = acc * 10 + digit;
        i += 1;
    }
    proof {
        assert(d.take(d.len() as int) == d);
        assert(sign_stripped(all) == d);
        assert(all_digits(d));
    }
    Some(acc)
}

impl DebugEntry {
    /// Reads a debug task's parameter from its text form.
    pub fn from_str_e(s: &str) -> (r: Result<DebugEntry, CrudError>)
        ensures
            decimal_u64(s.spec_bytes()) matches Some(n) ==> r == Ok::<DebugEntry, CrudError>(
                DebugEntry { id: n },
            ),
            decimal_u64(s.spec_bytes()) is None ==> (r matches Err(CrudError::InvalidValue { value })
                && value@ == s@),
    {
        match parse_u64(s) {
            Some(id) => Ok(DebugEntry { id }),
            None => Err(CrudError::InvalidValue { value: s.to_string() }),
        }
    }
}

impl BililiveEntry {
    /// Reads a live-stream task's parameter from its text form.
    pub fn from_str_e(s: &str) -> (r: Result<BililiveEntry, CrudError>)
        ensures
            decimal_u64(s.spec_bytes()) matches Some(n) ==> r == Ok::<BililiveEntry, CrudError>(
                BililiveEntry { uid: n },
            ),
            decimal_u64(s.spec_bytes()) is None ==> (r matches Err(CrudError::InvalidValue { value })
                && value@ == s@),
    {
        match parse_u64(s) {
            Some(uid) => Ok(BililiveEntry { uid }),
            None => Err(CrudError::InvalidValue { value: s.to_string() }),
        }
    }
}

} // verus!

verus! {

pub open spec fn digit_char(d: nat) -> char {
    if d == 0 {
        '0'
    } else if d == 1 {
        '1'
    } else if d == 2 {
        '2'
    } else if d == 3 {
        '3'
    } else if d == 4 {
        '4'
    } else if d == 5 {
        '5'
    } else if d == 6 {
        '6'
    } else if d == 7 {
        '7'
    } else if d == 8 {
        '8'
    } else {
        '9'
    }
}

/// The decimal text of `n`, without sign or leading zeros.
pub open spec fn decimal_text(n: nat) -> Seq<char>
    decreases n,
{
    if n < 10 {
        seq![digit_char(n)]
    } else {
        decimal_text(n / 10) + seq![digit_char(n % 10)]
    }
}

fn digit_text(d: u64) -> (r: &'static str)
    requires
        d < 10,
    ensures
        r@ == seq![digit_char(d as nat)],
{
    proof {
        reveal_strlit("0");
        reveal_strlit("1");
        reveal_strlit("2");
        reveal_strlit("3");
        reveal_strlit("4");
        reveal_strlit("5");
        reveal_strlit("6");
        reveal_strlit("7");
        reveal_strlit("8");
        reveal_strlit("9");
    }
    if d == 0 {
        "0"
    } else if d == 1 {
        "1"
    } else if d == 2 {
        "2"
    } else if d == 3 {
        "3"
    } else if d == 4 {
        "4"
    } else if d == 5 {
        "5"
    } else if d == 6 {
        "6"
    } else if d == 7 {
        "7"
    } else if d == 8 {
        "8"
    } else {
        "9"
    }
}

/// Writes `n` in decimal, as a task kind's payload is shown.
pub fn to_decimal(n: u64) -> (r: String)
    ensures
        r@ == decimal_text(n as nat),
    decreases n,
{
    if n < 10 {
        String::from_str(digit_text(n))
    } else {
        let mut s = to_decimal(n / 10);
        s.append(digit_text(n % 10));
        s
    }
}

} // verus!
