//! The general laws of the pipeline, stated over the same spec
//! functions that the executable functions' contracts use.

use vstd::prelude::*;
use crate::chars::{is_digit_char, is_space_char, is_alpha_char};
use crate::extract::{number_part, unit_part, lemma_run_len_is, lemma_trim_no_space};
use crate::numeral::{dec_str, digits_value, lemma_dec_str_props};
use crate::report::{Sizes, is_report_for};
use crate::size::{is_unit_pair, unit_multiplier, parsed_bytes};

verus! {

/// Formatting is a pure function of the byte count: any two reports for
/// the same count carry identical field strings, so formatting the same
/// count twice yields the same report.
pub proof fn lemma_report_deterministic(a: Sizes, b: Sizes, count: nat)
    requires
        is_report_for(a, count),
        is_report_for(b, count),
    ensures
        a.bytes@ == b.bytes@,
        a.kilobytes@ == b.kilobytes@,
        a.megabytes@ == b.megabytes@,
        a.gigabytes@ == b.gigabytes@,
        a.terabytes@ == b.terabytes@,
{
}

/// For every number `n` and every recognized unit token `u` (kb, mb,
/// gb, tb, in any letter case), the input written as the numeral of `n`
/// followed directly by `u` splits into exactly that numeral and that
/// token, and normalizes to `n` times the token's power of 1024.
pub proof fn lemma_parse_size_units(n: u64, u: Seq<char>)
    requires
        is_unit_pair(u, 'k', 'K') || is_unit_pair(u, 'm', 'M') || is_unit_pair(u, 'g', 'G')
            || is_unit_pair(u, 't', 'T'),
    ensures
        number_part(dec_str(n as nat) + u) == dec_str(n as nat),
        unit_part(dec_str(n as nat) + u) == u,
        parsed_bytes(dec_str(n as nat) + u) == (n as nat) * unit_multiplier(u),
        is_unit_pair(u, 'k', 'K') ==> unit_multiplier(u) == 1024,
        is_unit_pair(u, 'm', 'M') ==> unit_multiplier(u) == 1024 * 1024,
        is_unit_pair(u, 'g', 'G') ==> unit_multiplier(u) == 1024 * 1024 * 1024,
        is_unit_pair(u, 't', 'T') ==> unit_multiplier(u) == 1024 * 1024 * 1024 * 1024,
{
    let dg = |c: char| is_digit_char(c);
    let ds = |c: char| is_digit_char(c) || is_space_char(c);
    let al = |c: char| is_alpha_char(c);
    let d = dec_str(n as nat);
    let s = d + u;
    lemma_dec_str_props(n as nat);
    assert(is_alpha_char(u[0]) && !is_digit_char(u[0]) && !is_space_char(u[0]));
    assert(is_alpha_char(u[1]) && !is_digit_char(u[1]) && !is_space_char(u[1]));
    assert forall|j: int| 0 <= j < s.len() implies !is_space_char(#[trigger] s[j]) by {
        if j < d.len() {
            assert(s[j] == d[j]);
        } else {
            assert(s[j] == u[j - d.len()]);
        }
    }
    lemma_trim_no_space(s);
    assert forall|j: int| 0 <= j < d.len() implies dg(#[trigger] s[j]) && ds(s[j]) by {
        assert(s[j] == d[j]);
    }
    assert(s[d.len() as int] == u[0]);
    lemma_run_len_is(s, dg, d.len() as int);
    assert(s.take(d.len() as int) =~= d);
    assert(number_part(s) == d);
    lemma_run_len_is(s, ds, d.len() as int);
    assert(s.skip(d.len() as int) =~= u);
    lemma_run_len_is(u, al, 2);
    assert(u.take(2) =~= u);
    assert(unit_part(s) == u);
    assert(parsed_bytes(s) == (n as nat) * unit_multiplier(u));
}

/// Round-trip sanity: the bytes field of a report, read back as a
/// number, is the byte count the report was built from. Fed back into
/// the parser whole, the field names that same count again: it is all
/// digits, carries no unit token, and so normalizes to itself.
pub proof fn lemma_bytes_field_round_trip(s: Sizes, count: u64)
    requires
        is_report_for(s, count as nat),
    ensures
        digits_value(s.bytes@) == count as nat,
        number_part(s.bytes@) == s.bytes@,
        unit_part(s.bytes@).len() == 0,
        parsed_bytes(s.bytes@) == count as nat,
{
    let dg = |c: char| is_digit_char(c);
    let ds = |c: char| is_digit_char(c) || is_space_char(c);
    let al = |c: char| is_alpha_char(c);
    let d = dec_str(count as nat);
    lemma_dec_str_props(count as nat);
    assert forall|j: int| 0 <= j < d.len() implies !is_space_char(#[trigger] d[j]) by {
        assert(is_digit_char(d[j]));
    }
    lemma_trim_no_space(d);
    assert forall|j: int| 0 <= j < d.len() implies dg(#[trigger] d[j]) && ds(d[j]) by {
        assert(is_digit_char(d[j]));
    }
    lemma_run_len_is(d, dg, d.len() as int);
    assert(d.take(d.len() as int) =~= d);
    assert(number_part(d) == d);
    lemma_run_len_is(d, ds, d.len() as int);
    let u = d.skip(d.len() as int);
    assert(u =~= Seq::<char>::empty());
    lemma_run_len_is(u, al, 0);
    assert(u.take(0) =~= Seq::<char>::empty());
    assert(unit_part(d).len() == 0);
    assert(unit_multiplier(unit_part(d)) == 1);
    assert(parsed_bytes(d) == count as nat);
}

} // verus!
