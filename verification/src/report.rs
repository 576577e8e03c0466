//! The size report: one byte count rendered five ways. The byte count
//! itself is written as a plain numeral; the other four fields show the
//! count divided by a decimal (1000-based) divisor, rounded to a fixed
//! number of decimal places.

use vstd::prelude::*;
use vstd::arithmetic::div_mod::{lemma_fundamental_div_mod_converse, lemma_div_is_ordered};
use vstd::arithmetic::mul::lemma_mul_inequality;
use crate::numeral::{
    pow10, dec_str, fixed_str, round_to, pow10_small, u64_string, fixed_string,
    lemma_pow10_values,
};

verus! {

/// Five decimal-formatted views of one byte count, all derived from the
/// same canonical value.
#[derive(Debug)]
pub struct Sizes {
    pub bytes: String,
    pub kilobytes: String,
    pub megabytes: String,
    pub gigabytes: String,
    pub terabytes: String,
}

/// The field shown for `b` bytes under the divisor `divisor` at `p`
/// decimal places: the numeral of `b * 10^p / divisor` rounded to the
/// nearest integer (halves up), written with the decimal point `p`
/// digits from the end.
pub open spec fn scaled_field(b: nat, divisor: nat, p: nat) -> Seq<char> {
    fixed_str(round_to(b * pow10(p), divisor), p)
}

/// What each field of a report for the byte count `b` says: bytes as a
/// plain numeral, kilobytes and megabytes to two decimal places,
/// gigabytes to five, terabytes to eight.
pub open spec fn is_report_for(s: Sizes, b: nat) -> bool {
    &&& s.bytes@ == dec_str(b)
    &&& s.kilobytes@ == scaled_field(b, 1000, 2)
    &&& s.megabytes@ == scaled_field(b, 1000000, 2)
    &&& s.gigabytes@ == scaled_field(b, 1000000000, 5)
    &&& s.terabytes@ == scaled_field(b, 1000000000000, 8)
}

/// `b * 10^p / divisor` rounded to the nearest integer, halves up.
fn scaled_round(b: u64, p: usize, divisor: u64) -> (r: u64)
    requires
        1 <= p <= 8,
        pow10(p as nat) <= divisor,
        divisor <= 1000000000000,
    ensures
        r as nat == round_to((b as nat) * pow10(p as nat), divisor as nat),
{
    let m = pow10_small(p);
    let half = divisor / 2;
    proof {
        assert((b as nat) * (m as nat) <= 18446744073709551615nat * 100000000nat)
            by (nonlinear_arith)
            requires
                b <= 18446744073709551615u64,
                m <= 100000000u64,
        ;
    }
    let t: u128 = ((b as u128) * (m as u128) + (half as u128)) / (divisor as u128);
    proof {
        let bn = b as int;
        let mn = m as int;
        let dn = divisor as int;
        let hn = half as int;
        lemma_mul_inequality(mn, dn, bn);
        lemma_div_is_ordered(bn * mn + hn, bn * dn + hn, dn);
        lemma_fundamental_div_mod_converse(bn * dn + hn, dn, bn, hn);
        assert(t <= b);
    }
    t as u64
}

impl Sizes {
    /// Build the report for `bytes`: every field is derived from this
    /// one count, so the five strings are always mutually consistent.
    pub fn new(bytes: u64) -> (s: Sizes)
        ensures
            is_report_for(s, bytes as nat),
    {
        proof {
            lemma_pow10_values();
        }
        let kb = scaled_round(bytes, 2, 1000);
        let mb = scaled_round(bytes, 2, 1000000);
        let gb = scaled_round(bytes, 5, 1000000000);
        let tb = scaled_round(bytes, 8, 1000000000000);
        Sizes {
            bytes: u64_string(bytes),
            kilobytes: fixed_string(kb, 2),
            megabytes: fixed_string(mb, 2),
            gigabytes: fixed_string(gb, 5),
            terabytes: fixed_string(tb, 8),
        }
    }
}

} // verus!

