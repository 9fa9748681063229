//! Byte-level scanning helpers: locating a byte in a run and reading a
//! decimal number, shared by the tokenizer and the template parser.

use vstd::prelude::*;

verus! {

/// Index of the first occurrence of `b` in `s`, or `s.len()` when `b` does
/// not occur.
pub open spec fn first_pos(s: Seq<u8>, b: u8) -> int
    decreases s.len(),
{
    if s.len() == 0 {
        0
    } else if s[0] == b {
        0
    } else {
        1 + first_pos(s.drop_first(), b)
    }
}

pub proof fn lemma_first_pos(s: Seq<u8>, b: u8)
    ensures
        0 <= first_pos(s, b) <= s.len(),
        first_pos(s, b) < s.len() ==> s[first_pos(s, b)] == b,
        forall|j: int| 0 <= j < first_pos(s, b) ==> s[j] != b,
    decreases s.len(),
{
    if s.len() > 0 && s[0] != b {
        lemma_first_pos(s.drop_first(), b);
        assert forall|j: int| 0 <= j < first_pos(s, b) implies s[j] != b by {
            if j > 0 {
                assert(s.drop_first()[j - 1] != b);
            }
        }
    }
}

/// Returns the index of the first occurrence of `b` in `s`, or `s.len()`
/// when `b` does not occur.
pub fn find_byte(s: &[u8], b: u8) -> (r: usize)
    ensures
        r == first_pos(s@, b),
{
    proof {
        lemma_first_pos(s@, b);
    }
    let n: usize = s.len();
    let mut i: usize = 0;
    while i < n
        invariant
            0 <= i <= n,
            n == s@.len(),
            forall|j: int| 0 <= j < i ==> s@[j] != b,
            0 <= first_pos(s@, b) <= s@.len(),
            first_pos(s@, b) < s@.len() ==> s@[first_pos(s@, b)] == b,
            forall|j: int| 0 <= j < first_pos(s@, b) ==> s@[j] != b,
        decreases n - i,
    {
        if s[i] == b {
            proof {
                if first_pos(s@, b) < i {
                    assert(s@[first_pos(s@, b)] != b);
                }
            }
            return i;
        }
        i = i + 1;
    }
    proof {
        if first_pos(s@, b) < s@.len() {
            assert(s@[first_pos(s@, b)] != b);
        }
    }
    n
}

pub open spec fn is_digit(b: u8) -> bool {
    48 <= b <= 57
}

pub open spec fn all_digits(s: Seq<u8>) -> bool {
    forall|i: int| 0 <= i < s.len() ==> is_digit(s[i])
}

/// Numeric value of a run of decimal digits.
pub open spec fn dec_value(s: Seq<u8>) -> int
    decreases s.len(),
{
    if s.len() == 0 {
        0
    } else {
        dec_value(s.drop_last()) * 10 + (s.last() - 48)
    }
}

/// The number that `usize::from_str` reads from `s`, before any range check:
/// an optional leading plus sign, then one or more decimal digits; `None` on
/// any other shape.
pub open spec fn parse_uint(s: Seq<u8>) -> Option<int> {
    let digits = if s.len() > 0 && s[0] == 43 {
        s.drop_first()
    } else {
        s
    };
    if digits.len() > 0 && all_digits(digits) {
        Some(dec_value(digits))
    } else {
        None
    }
}

pub proof fn lemma_dec_value_nonneg(s: Seq<u8>)
    requires
        all_digits(s),
    ensures
        dec_value(s) >= 0,
    decreases s.len(),
{
    if s.len() > 0 {
        assert forall|i: int| 0 <= i < s.drop_last().len() implies is_digit(
            s.drop_last()[i],
        ) by {
            assert(s.drop_last()[i] == s[i]);
        }
        lemma_dec_value_nonneg(s.drop_last());
        assert(is_digit(s.last()));
    }
}

/// A longer digit run never reads as a smaller number.
pub proof fn lemma_dec_value_prefix_le(s: Seq<u8>, i: int)
    requires
        all_digits(s),
        0 <= i <= s.len(),
    ensures
        dec_value(s.take(i)) <= dec_value(s),
    decreases s.len() - i,
{
    if i == s.len() {
        assert(s.take(i) =~= s);
    } else {
        assert(s.take(i + 1).drop_last() =~= s.take(i));
        assert(s.take(i + 1).last() == s[i]);
        assert forall|j: int| 0 <= j < s.take(i).len() implies is_digit(s.take(i)[j]) by {
            assert(s.take(i)[j] == s[j]);
        }
        lemma_dec_value_nonneg(s.take(i));
        assert(is_digit(s[i]));
        assert(dec_value(s.take(i + 1)) == dec_value(s.take(i)) * 10 + (s[i] - 48));
        lemma_dec_value_prefix_le(s, i + 1);
    }
}

/// Reads an unsigned decimal number exactly as `usize::from_str` does: an
/// optional leading `+`, then one or more digits; `None` on any other shape
/// or when the value exceeds `usize::MAX`.
#[verifier::loop_isolation(false)]
pub fn parse_usize(s: &[u8]) -> (r: Option<usize>)
    ensures
        match parse_uint(s@) {
            Some(v) => (v <= usize::MAX ==> (r matches Some(u) && u == v)) && (v > usize::MAX
                ==> r is None),
            None => r is None,
        },
{
    let n: usize = s.len();
    let start: usize = if n > 0 && s[0] == 43 {
        1
    } else {
        0
    };
    let ghost digits: Seq<u8> = if s@.len() > 0 && s@[0] == 43 {
        s@.drop_first()
    } else {
        s@
    };
    proof {
        assert(digits =~= s@.subrange(start as int, n as int));
    }
    if n == start {
        return None;
    }
    let mut i: usize = start;
    let mut acc: usize = 0;
    while i < n
        invariant
            start <= i <= n,
            forall|j: int| start <= j < i ==> is_digit(s@[j]),
            acc == dec_value(s@.subrange(start as int, i as int)),
        decreases n - i,
    {
        let c = s[i];
        if c < 48 || c > 57 {
            proof {
                assert(!is_digit(digits[i - start]));
            }
            return None;
        }
        let d: usize = (c - 48) as usize;
        proof {
            assert(s@.subrange(start as int, i + 1 as int).drop_last() =~= s@.subrange(
                start as int,
                i as int,
            ));
            assert(s@.subrange(start as int, i + 1 as int).last() == s@[i as int]);
        }
        let wide: u128 = (acc as u128) * 10 + (d as u128);
        if wide > (usize::MAX as u128) {
            proof {
                let pre = s@.subrange(start as int, i + 1 as int);
                assert(dec_value(pre) == acc * 10 + d);
                if all_digits(digits) {
                    assert(pre =~= digits.take(i + 1 - start));
                    lemma_dec_value_prefix_le(digits, i + 1 - start);
                }
            }
            return None;
        }
        acc = wide as usize;
        i = i + 1;
    }
    proof {
        assert(digits =~= s@.subrange(start as int, n as int));
        assert forall|j: int| 0 <= j < digits.len() implies is_digit(digits[j]) by {
            assert(digits[j] == s@[j + start]);
        }
    }
    Some(acc)
}

} // verus!
