//! Normalizing an input line to a canonical byte count, and the whole
//! pipeline from input line to size report.
//!
//! The number written at the start of the line is taken as a count of
//! units; a recognized two-letter unit token (kb, mb, gb, tb, in any
//! letter case) multiplies it by the matching power of 1024. A missing
//! unit, a single stray letter, or an unrecognized token leaves the
//! count as plain bytes. A product that does not fit in 64 bits is
//! refused rather than wrapped.

use vstd::prelude::*;
use vstd::arithmetic::div_mod::{lemma_fundamental_div_mod, lemma_mod_bound};
use vstd::arithmetic::mul::lemma_mul_inequality;
use crate::chars::is_digit_char;
use crate::extract::{
    number_part, unit_part, trim_spec, run_len, extract_file_size_number, extract_file_size_unit,
    lemma_run_len_members, lemma_run_len_le,
};
use crate::numeral::{digits_value, parse_digits};
use crate::report::{Sizes, is_report_for};
use crate::text::string_chars;

verus! {

/// The one failure of the pipeline, split by its cause.
#[derive(Debug, Clone, Copy, PartialEq, Eq, Structural)]
pub enum ParseFailure {
    /// The trimmed input does not start with a decimal digit, so no
    /// number could be read.
    NoDigits,
    /// The byte count named by the input does not fit in 64 bits.
    Overflow,
}

/// `u` written in lower case is the two-letter token whose letters are
/// `lo` and `'b'`; `up` is the upper-case form of `lo`.
pub open spec fn is_unit_pair(u: Seq<char>, lo: char, up: char) -> bool {
    u.len() == 2 && (u[0] == lo || u[0] == up) && (u[1] == 'b' || u[1] == 'B')
}

/// How many bytes one unit of the token `u` stands for: a power of 1024
/// for the four recognized tokens, compared without regard to letter
/// case; 1 for a token shorter than two characters and for any
/// unrecognized token, which both leave the count as plain bytes.
pub open spec fn unit_multiplier(u: Seq<char>) -> nat {
    if u.len() < 2 {
        1
    } else if is_unit_pair(u, 'k', 'K') {
        1024
    } else if is_unit_pair(u, 'm', 'M') {
        1048576
    } else if is_unit_pair(u, 'g', 'G') {
        1073741824
    } else if is_unit_pair(u, 't', 'T') {
        1099511627776
    } else {
        1
    }
}

/// The canonical byte count named by the input line: the number written
/// by its leading digits times the multiplier of its unit token.
pub open spec fn parsed_bytes(s: Seq<char>) -> nat {
    digits_value(number_part(s)) * unit_multiplier(unit_part(s))
}

/// The multiplier of a unit token, as a machine integer.
fn unit_mult(v: &Vec<char>) -> (m: u64)
    ensures
        m as nat == unit_multiplier(v@),
        1 <= m,
{
    if v.len() != 2 {
        return 1;
    }
    let c0 = v[0];
    let c1 = v[1];
    if !(c1 == 'b' || c1 == 'B') {
        1
    } else if c0 == 'k' || c0 == 'K' {
        1024
    } else if c0 == 'm' || c0 == 'M' {
        1048576
    } else if c0 == 'g' || c0 == 'G' {
        1073741824
    } else if c0 == 't' || c0 == 'T' {
        1099511627776
    } else {
        1
    }
}

/// `val * m` when the product fits in 64 bits, `None` when it does not.
fn mul_checked(val: u64, m: u64) -> (r: Option<u64>)
    requires
        1 <= m,
    ensures
        r is Some <==> (val as nat) * (m as nat) <= u64::MAX,
        r is Some ==> r->0 as nat == (val as nat) * (m as nat),
{
    if m == 1 {
        proof {
            assert((val as int) * (m as int) == val as int);
        }
        Some(val)
    } else if val <= u64::MAX / m {
        proof {
            let q = (u64::MAX / m) as int;
            lemma_fundamental_div_mod(u64::MAX as int, m as int);
            lemma_mod_bound(u64::MAX as int, m as int);
            assert(q * (m as int) <= u64::MAX as int);
            lemma_mul_inequality(val as int, q, m as int);
            assert((val as int) * (m as int) <= u64::MAX as int);
        }
        Some(val * m)
    } else {
        proof {
            let q = (u64::MAX / m) as int;
            lemma_fundamental_div_mod(u64::MAX as int, m as int);
            lemma_mod_bound(u64::MAX as int, m as int);
            assert((q + 1) * (m as int) == q * (m as int) + m as int) by (nonlinear_arith);
            assert((q + 1) * (m as int) > u64::MAX as int);
            lemma_mul_inequality(q + 1, val as int, m as int);
            assert((val as int) * (m as int) > u64::MAX as int);
        }
        None
    }
}

/// Normalize the input line to a canonical byte count.
///
/// Succeeds exactly when the trimmed input starts with a digit and the
/// byte count it names fits in 64 bits; each failure names its cause.
pub fn parse_size(size: &String) -> (r: Result<u64, ParseFailure>)
    ensures
        r is Ok <==> number_part(size@).len() > 0 && parsed_bytes(size@) <= u64::MAX,
        r is Ok ==> r->Ok_0 as nat == parsed_bytes(size@),
        r == Err::<u64, ParseFailure>(ParseFailure::NoDigits) <==> number_part(size@).len() == 0,
        r == Err::<u64, ParseFailure>(ParseFailure::Overflow) <==> number_part(size@).len() > 0
            && parsed_bytes(size@) > u64::MAX,
{
    let num = extract_file_size_number(size);
    let nv = string_chars(&num);
    if nv.len() == 0 {
        return Err(ParseFailure::NoDigits);
    }
    proof {
        let dg = |c: char| is_digit_char(c);
        let t = trim_spec(size@);
        lemma_run_len_le(t, dg);
        lemma_run_len_members(t, dg);
        assert(nv@ == t.take(run_len(t, dg) as int));
        assert forall|j: int| 0 <= j < nv@.len() implies is_digit_char(#[trigger] nv@[j]) by {
            assert(nv@[j] == t[j]);
            assert(dg(t[j]));
        }
    }
    let val_opt = parse_digits(&nv);
    let unit = extract_file_size_unit(size);
    let uv = string_chars(&unit);
    let m = unit_mult(&uv);
    let ghost dv = digits_value(number_part(size@));
    let ghost mult = unit_multiplier(unit_part(size@));
    proof {
        lemma_mul_inequality(1, mult as int, dv as int);
        assert(dv <= parsed_bytes(size@));
    }
    match val_opt {
        None => {
            proof {
                assert(dv > u64::MAX);
                assert(parsed_bytes(size@) >= dv);
            }
            Err(ParseFailure::Overflow)
        },
        Some(val) => {
            proof {
                assert(val as nat == dv);
                assert((val as nat) * (m as nat) == parsed_bytes(size@));
            }
            match mul_checked(val, m) {
                Some(total) => Ok(total),
                None => Err(ParseFailure::Overflow),
            }
        },
    }
}

/// The whole pipeline: normalize the input line and render the size
/// report for the resulting byte count.
///
/// Succeeds exactly when `parse_size` does, with the same failures; on
/// success every field of the report describes the parsed byte count.
pub fn format_size(size: &String) -> (r: Result<Sizes, ParseFailure>)
    ensures
        r is Ok <==> number_part(size@).len() > 0 && parsed_bytes(size@) <= u64::MAX,
        r is Ok ==> is_report_for(r->Ok_0, parsed_bytes(size@)),
        r == Err::<Sizes, ParseFailure>(ParseFailure::NoDigits) <==> number_part(size@).len()
            == 0,
        r == Err::<Sizes, ParseFailure>(ParseFailure::Overflow) <==> number_part(size@).len() > 0
            && parsed_bytes(size@) > u64::MAX,
{
    match parse_size(size) {
        Ok(v) => Ok(Sizes::new(v)),
        Err(ParseFailure::NoDigits) => Err(ParseFailure::NoDigits),
        Err(ParseFailure::Overflow) => Err(ParseFailure::Overflow),
    }
}

} // verus!
