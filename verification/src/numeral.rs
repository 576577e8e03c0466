//! Decimal numerals: the mathematical writing of a natural number in
//! base ten, verified renderers from `u64` to such numerals (plain,
//! zero-padded, and with a fixed number of decimal places), and a
//! verified reader that turns a run of digit characters back into the
//! number it writes.

use vstd::prelude::*;
use vstd::arithmetic::div_mod::lemma_fundamental_div_mod;
use crate::chars::{is_digit_char, digit_char, digit_val, digit_char_exec, digit_val_exec};
use crate::text::chars_into_string;

verus! {

/// The `n`-th power of ten.
pub open spec fn pow10(n: nat) -> nat
    decreases n,
{
    if n == 0 {
        1
    } else {
        10 * pow10((n - 1) as nat)
    }
}

/// The base-ten numeral of `n`: one digit for `n < 10`, no leading zeros
/// otherwise.
pub open spec fn dec_str(n: nat) -> Seq<char>
    decreases n,
{
    if n < 10 {
        seq![digit_char(n)]
    } else {
        dec_str(n / 10) + seq![digit_char(n % 10)]
    }
}

/// The last `width` digits of the base-ten numeral of `n`, zero-padded
/// on the left to exactly `width` characters.
pub open spec fn dec_str_pad(n: nat, width: nat) -> Seq<char>
    decreases width,
{
    if width == 0 {
        Seq::empty()
    } else {
        dec_str_pad(n / 10, (width - 1) as nat) + seq![digit_char(n % 10)]
    }
}

/// The number written by a run of digit characters, read left to right;
/// the empty run writes zero.
pub open spec fn digits_value(s: Seq<char>) -> nat
    decreases s.len(),
{
    if s.len() == 0 {
        0
    } else {
        10 * digits_value(s.drop_last()) + digit_val(s.last())
    }
}

/// The numeral of `scaled` with a decimal point placed `p` digits from
/// its end: an integer part followed by `'.'` and exactly `p` digits.
pub open spec fn fixed_str(scaled: nat, p: nat) -> Seq<char> {
    dec_str(scaled / pow10(p)) + seq!['.'] + dec_str_pad(scaled % pow10(p), p)
}

/// `n / d` rounded to the nearest integer, halves rounded up.
pub open spec fn round_to(n: nat, d: nat) -> nat
    recommends
        d > 0,
{
    (n + d / 2) / d
}

/// The powers of ten up to `pow10(8)`, written out.
pub proof fn lemma_pow10_values()
    ensures
        pow10(0) == 1,
        pow10(1) == 10,
        pow10(2) == 100,
        pow10(3) == 1000,
        pow10(4) == 10000,
        pow10(5) == 100000,
        pow10(6) == 1000000,
        pow10(7) == 10000000,
        pow10(8) == 100000000,
{
    assert(pow10(0) == 1);
    assert(pow10(1) == 10);
    assert(pow10(2) == 100);
    assert(pow10(3) == 1000);
    assert(pow10(4) == 10000);
    assert(pow10(5) == 100000);
    assert(pow10(6) == 1000000);
    assert(pow10(7) == 10000000);
    assert(pow10(8) == 100000000);
}

/// The numeral of `n` is non-empty, consists of digit characters, and
/// reads back as `n`.
pub proof fn lemma_dec_str_props(n: nat)
    ensures
        dec_str(n).len() >= 1,
        forall|j: int| 0 <= j < dec_str(n).len() ==> is_digit_char(#[trigger] dec_str(n)[j]),
        digits_value(dec_str(n)) == n,
    decreases n,
{
    if n < 10 {
        assert(dec_str(n).drop_last() =~= Seq::<char>::empty());
        assert(dec_str(n).last() == digit_char(n));
        assert(digits_value(dec_str(n)) == 10 * digits_value(dec_str(n).drop_last()) + digit_val(
            dec_str(n).last(),
        ));
        assert(digit_val(digit_char(n)) == n);
    } else {
        lemma_dec_str_props(n / 10);
        lemma_fundamental_div_mod(n as int, 10);
        let prefix = dec_str(n / 10);
        let whole = dec_str(n);
        assert(whole.drop_last() =~= prefix);
        assert(whole.last() == digit_char(n % 10));
        assert(digit_val(digit_char(n % 10)) == n % 10);
        assert(digits_value(whole) == 10 * digits_value(prefix) + digit_val(whole.last()));
        assert forall|j: int| 0 <= j < whole.len() implies is_digit_char(#[trigger] whole[j]) by {
            if j < prefix.len() {
                assert(whole[j] == prefix[j]);
            }
        }
    }
}

/// A prefix of a digit run never reads as more than the whole run.
pub proof fn lemma_digits_value_take_le(s: Seq<char>, i: int)
    requires
        0 <= i <= s.len(),
    ensures
        digits_value(s.take(i)) <= digits_value(s),
    decreases s.len() - i,
{
    if i == s.len() {
        assert(s.take(i) =~= s);
    } else {
        lemma_digits_value_take_le(s.drop_last(), i);
        assert(s.drop_last().take(i) =~= s.take(i));
    }
}

/// Render `n` as its base-ten numeral.
pub fn dec_chars(n: u64) -> (v: Vec<char>)
    ensures
        v@ == dec_str(n as nat),
{
    let mut v: Vec<char> = Vec::new();
    let mut cur: u64 = n;
    proof {
        assert(dec_str(n as nat) =~= dec_str(n as nat) + v@);
    }
    while cur >= 10
        invariant
            dec_str(n as nat) == dec_str(cur as nat) + v@,
        decreases cur,
    {
        let d = cur % 10;
        let c = digit_char_exec(d);
        let ghost v0 = v@;
        v.insert(0, c);
        proof {
            assert(v@ =~= seq![digit_char((cur % 10) as nat)] + v0);
            assert(dec_str((cur / 10) as nat) + v@ =~= dec_str(cur as nat) + v0);
        }
        cur = cur / 10;
    }
    let c = digit_char_exec(cur);
    let ghost v0 = v@;
    v.insert(0, c);
    proof {
        assert(v@ =~= seq![digit_char(cur as nat)] + v0);
        assert(dec_str(cur as nat) =~= seq![digit_char(cur as nat)]);
        assert(v@ =~= dec_str(n as nat));
    }
    v
}

/// Render the last `width` digits of `n`, zero-padded to `width`.
pub fn dec_chars_pad(n: u64, width: usize) -> (v: Vec<char>)
    ensures
        v@ == dec_str_pad(n as nat, width as nat),
{
    let mut v: Vec<char> = Vec::new();
    let mut cur: u64 = n;
    let mut j: usize = 0;
    proof {
        assert(dec_str_pad(n as nat, width as nat) =~= dec_str_pad(n as nat, width as nat) + v@);
    }
    while j < width
        invariant
            j <= width,
            dec_str_pad(n as nat, width as nat) == dec_str_pad(cur as nat, (width - j) as nat)
                + v@,
        decreases width - j,
    {
        let d = cur % 10;
        let c = digit_char_exec(d);
        let ghost v0 = v@;
        v.insert(0, c);
        proof {
            assert(v@ =~= seq![digit_char((cur % 10) as nat)] + v0);
            assert(dec_str_pad((cur / 10) as nat, (width - j - 1) as nat) + v@ =~= dec_str_pad(
                cur as nat,
                (width - j) as nat,
            ) + v0);
        }
        cur = cur / 10;
        j = j + 1;
    }
    proof {
        assert(dec_str_pad(cur as nat, 0) =~= Seq::<char>::empty());
        assert(dec_str_pad(n as nat, width as nat) =~= v@);
    }
    v
}

/// Render `n` as a `String` holding its base-ten numeral.
pub fn u64_string(n: u64) -> (r: String)
    ensures
        r@ == dec_str(n as nat),
{
    let v = dec_chars(n);
    chars_into_string(&v)
}

/// `pow10` on small exponents, as a machine integer.
pub fn pow10_small(p: usize) -> (r: u64)
    requires
        p <= 8,
    ensures
        r as nat == pow10(p as nat),
        1 <= r <= 100000000,
{
    proof {
        lemma_pow10_values();
    }
    if p == 0 {
        1
    } else if p == 1 {
        10
    } else if p == 2 {
        100
    } else if p == 3 {
        1000
    } else if p == 4 {
        10000
    } else if p == 5 {
        100000
    } else if p == 6 {
        1000000
    } else if p == 7 {
        10000000
    } else {
        100000000
    }
}

/// Render `scaled` with a decimal point `p` digits from the end.
pub fn fixed_string(scaled: u64, p: usize) -> (r: String)
    requires
        1 <= p <= 8,
    ensures
        r@ == fixed_str(scaled as nat, p as nat),
{
    let pow = pow10_small(p);
    let ip = scaled / pow;
    let fp = scaled % pow;
    let mut v = dec_chars(ip);
    v.push('.');
    let mut w = dec_chars_pad(fp, p);
    proof {
        assert(v@ =~= dec_str((scaled as nat) / pow10(p as nat)) + seq!['.']);
    }
    v.append(&mut w);
    proof {
        assert(v@ =~= fixed_str(scaled as nat, p as nat));
    }
    chars_into_string(&v)
}

/// Read a run of digit characters as the number it writes; `None` when
/// that number does not fit in a `u64`.
pub fn parse_digits(v: &Vec<char>) -> (r: Option<u64>)
    requires
        forall|j: int| 0 <= j < v@.len() ==> is_digit_char(#[trigger] v@[j]),
    ensures
        digits_value(v@) <= u64::MAX ==> r == Some(digits_value(v@) as u64),
        digits_value(v@) > u64::MAX ==> r is None,
{
    let mut acc: u64 = 0;
    let mut i: usize = 0;
    proof {
        assert(v@.take(0) =~= Seq::<char>::empty());
    }
    while i < v.len()
        invariant
            i <= v@.len(),
            forall|j: int| 0 <= j < v@.len() ==> is_digit_char(#[trigger] v@[j]),
            acc == digits_value(v@.take(i as int)),
        decreases v@.len() - i,
    {
        let c = v[i];
        let d = digit_val_exec(c);
        proof {
            assert(v@.take(i + 1).drop_last() =~= v@.take(i as int));
            assert(v@.take(i + 1).last() == v@[i as int]);
        }
        if acc > u64::MAX / 10 || (acc == u64::MAX / 10 && d > u64::MAX % 10) {
            proof {
                assert(digits_value(v@.take(i + 1)) > u64::MAX);
                lemma_digits_value_take_le(v@, i + 1);
            }
            return None;
        }
        acc = acc * 10 + d;
        i = i + 1;
    }
    proof {
        assert(v@.take(v@.len() as int) =~= v@);
    }
    Some(acc)
}

} // verus!
