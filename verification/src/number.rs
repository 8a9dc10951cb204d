//! Decimal numbers in text: what a string denotes as an integer, under the
//! usual reading (an optional sign, then one or more ASCII digits, nothing
//! else, and the value in range).

use vstd::prelude::*;

use crate::text::chars_of;

verus! {

/// An ASCII decimal digit.
pub open spec fn is_digit(c: char) -> bool {
    '0' <= c && c <= '9'
}

/// The value of a digit.
pub open spec fn digit_value(c: char) -> nat {
    (c as nat - '0' as nat) as nat
}

/// Every character is a digit.
pub open spec fn all_digits(ds: Seq<char>) -> bool {
    forall|i: int| 0 <= i < ds.len() ==> is_digit(ds[i])
}

/// The value of a run of digits, most significant first.
pub open spec fn digits_value(ds: Seq<char>) -> nat
    decreases ds.len(),
{
    if ds.len() == 0 {
        0
    } else {
        digits_value(ds.drop_last()) * 10 + digit_value(ds.last())
    }
}

/// The digits of `s` after an optional leading `+`, if they are one or more
/// digits and nothing else.
pub open spec fn unsigned_digits(s: Seq<char>) -> Option<Seq<char>> {
    let ds = if s.len() > 0 && s[0] == '+' { s.skip(1) } else { s };
    if ds.len() > 0 && all_digits(ds) {
        Some(ds)
    } else {
        None
    }
}

/// What `s` denotes as an unsigned integer that fits in 64 bits.
pub open spec fn parse_u64_spec(s: Seq<char>) -> Option<u64> {
    match unsigned_digits(s) {
        Some(ds) => if digits_value(ds) <= u64::MAX {
            Some(digits_value(ds) as u64)
        } else {
            None
        },
        None => None,
    }
}

/// What `s` denotes as a signed integer that fits in 64 bits: an optional
/// `-` or `+`, then digits.
pub open spec fn parse_i64_spec(s: Seq<char>) -> Option<i64> {
    if s.len() > 0 && s[0] == '-' {
        let ds = s.skip(1);
        if ds.len() > 0 && all_digits(ds) && digits_value(ds) <= 0x8000_0000_0000_0000 {
            Some((0 - digits_value(ds)) as i64)
        } else {
            None
        }
    } else {
        match unsigned_digits(s) {
            Some(ds) => if digits_value(ds) <= i64::MAX {
                Some(digits_value(ds) as i64)
            } else {
                None
            },
            None => None,
        }
    }
}

proof fn lemma_digits_value_grows(ds: Seq<char>, k: int)
    requires
        0 <= k <= ds.len(),
        all_digits(ds),
    ensures
        digits_value(ds.take(k)) <= digits_value(ds),
    decreases ds.len() - k,
{
    if k < ds.len() {
        lemma_digits_value_grows(ds, k + 1);
        assert(ds.take(k + 1).drop_last() =~= ds.take(k));
        assert(digits_value(ds.take(k + 1)) == digits_value(ds.take(k)) * 10 + digit_value(ds[k]));
    } else {
        assert(ds.take(k) =~= ds);
    }
}

/// The value of the digits `cs[lo..]`, if they are one or more digits and
/// the value is at most `max`.
fn digits_up_to(cs: &Vec<char>, lo: usize, max: u64) -> (res: Option<u64>)
    requires
        lo <= cs.len(),
        max >= 9,
    ensures
        match res {
            Some(v) => cs@.skip(lo as int).len() > 0 && all_digits(cs@.skip(lo as int)) && v == digits_value(
                cs@.skip(lo as int),
            ) && v <= max,
            None => !(cs@.skip(lo as int).len() > 0 && all_digits(cs@.skip(lo as int)) && digits_value(
                cs@.skip(lo as int),
            ) <= max),
        },
{
    let ghost ds = cs@.skip(lo as int);
    if lo == cs.len() {
        return None;
    }
    let mut v: u64 = 0;
    let mut i: usize = lo;
    while i < cs.len()
        invariant
            ds == cs@.skip(lo as int),
            lo <= i <= cs.len(),
            all_digits(ds.take(i - lo)),
            v == digits_value(ds.take(i - lo)),
            v <= max,
            max >= 9,
        decreases cs.len() - i,
    {
        let c = cs[i];
        assert(ds.take(i - lo + 1).drop_last() =~= ds.take(i - lo));
        assert(ds[i - lo] == c);
        if !('0' <= c && c <= '9') {
            assert(!is_digit(ds[i - lo]));
            return None;
        }
        let d: u64 = (c as u32 - '0' as u32) as u64;
        assert(d == digit_value(c));
        if v > (max - d) / 10 {
            proof {
                assert(v * 10 + d > max) by (nonlinear_arith)
                    requires
                        v > (max - d) / 10,
                        d <= 9,
                        d <= max || v > 0,
                ;
                if all_digits(ds) {
                    lemma_digits_value_grows(ds, i - lo + 1);
                }
            }
            return None;
        }
        proof {
            assert(v * 10 + d <= max) by (nonlinear_arith)
                requires
                    v <= (max - d) / 10,
                    d <= max,
            ;
        }
        v = v * 10 + d;
        i = i + 1;
        assert(all_digits(ds.take(i - lo)));
    }
    assert(ds.take(i - lo) =~= ds);
    Some(v)
}

/// What `s` denotes as an unsigned 64-bit integer.
pub fn parse_u64(s: &str) -> (res: Option<u64>)
    ensures
        res == parse_u64_spec(s@),
{
    let cs = chars_of(s);
    let lo: usize = if cs.len() > 0 && cs[0] == '+' { 1 } else { 0 };
    assert(cs@.skip(lo as int) =~= (if s@.len() > 0 && s@[0] == '+' { s@.skip(1) } else { s@ }));
    digits_up_to(&cs, lo, u64::MAX)
}

/// What `s` denotes as a signed 64-bit integer.
pub fn parse_i64(s: &str) -> (res: Option<i64>)
    ensures
        res == parse_i64_spec(s@),
{
    let cs = chars_of(s);
    if cs.len() > 0 && cs[0] == '-' {
        match digits_up_to(&cs, 1, 0x8000_0000_0000_0000) {
            Some(v) => {
                if v == 0x8000_0000_0000_0000 {
                    Some(i64::MIN)
                } else {
                    Some(0 - (v as i64))
                }
            },
            None => None,
        }
    } else {
        let lo: usize = if cs.len() > 0 && cs[0] == '+' { 1 } else { 0 };
        assert(cs@.skip(lo as int) =~= (if s@.len() > 0 && s@[0] == '+' { s@.skip(1) } else { s@ }));
        match digits_up_to(&cs, lo, i64::MAX as u64) {
            Some(v) => Some(v as i64),
            None => None,
        }
    }
}


/// What `s` denotes as an unsigned 16-bit integer.
pub open spec fn parse_u16_spec(s: Seq<char>) -> Option<u16> {
    match parse_u64_spec(s) {
        Some(v) => if v <= u16::MAX {
            Some(v as u16)
        } else {
            None
        },
        None => None,
    }
}

/// What `s` denotes as an unsigned 16-bit integer, such as a port.
pub fn parse_u16(s: &str) -> (res: Option<u16>)
    ensures
        res == parse_u16_spec(s@),
{
    match parse_u64(s) {
        Some(v) => if v <= 65535 {
            Some(v as u16)
        } else {
            None
        },
        None => None,
    }
}
} // verus!
