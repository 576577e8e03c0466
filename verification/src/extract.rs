//! Scanning the input line: trimming surrounding whitespace, taking the
//! leading run of digits, and taking the alphabetic unit token that
//! follows the digits.

use vstd::prelude::*;
use crate::chars::{
    is_digit_char, is_space_char, is_alpha_char, is_digit_char_exec, is_space_char_exec,
    is_alpha_char_exec,
};
use crate::text::{chars_into_string, string_chars};

verus! {

/// The length of the longest prefix of `s` whose characters all satisfy `p`.
pub open spec fn run_len(s: Seq<char>, p: spec_fn(char) -> bool) -> nat
    decreases s.len(),
{
    if s.len() == 0 || !p(s[0]) {
        0
    } else {
        1 + run_len(s.drop_first(), p)
    }
}

/// The length of the longest suffix of `s` whose characters all satisfy `p`.
pub open spec fn suffix_run_len(s: Seq<char>, p: spec_fn(char) -> bool) -> nat
    decreases s.len(),
{
    if s.len() == 0 || !p(s.last()) {
        0
    } else {
        1 + suffix_run_len(s.drop_last(), p)
    }
}

/// `s` with leading and trailing whitespace removed.
pub open spec fn trim_spec(s: Seq<char>) -> Seq<char> {
    let t = s.skip(run_len(s, |c: char| is_space_char(c)) as int);
    t.take(t.len() - suffix_run_len(t, |c: char| is_space_char(c)))
}

/// The leading run of digit characters of the trimmed input: the number
/// the input names, as written.
pub open spec fn number_part(s: Seq<char>) -> Seq<char> {
    let t = trim_spec(s);
    t.take(run_len(t, |c: char| is_digit_char(c)) as int)
}

/// The unit token of the trimmed input: skip the leading run of digits
/// and whitespace, then take the run of letters that follows.
pub open spec fn unit_part(s: Seq<char>) -> Seq<char> {
    let t = trim_spec(s);
    let u = t.skip(run_len(t, |c: char| is_digit_char(c) || is_space_char(c)) as int);
    u.take(run_len(u, |c: char| is_alpha_char(c)) as int)
}

/// A run is never longer than the sequence it is a prefix of.
pub proof fn lemma_run_len_le(s: Seq<char>, p: spec_fn(char) -> bool)
    ensures
        run_len(s, p) <= s.len(),
    decreases s.len(),
{
    if s.len() != 0 && p(s[0]) {
        lemma_run_len_le(s.drop_first(), p);
    }
}

/// Every character inside the run satisfies the run's predicate.
pub proof fn lemma_run_len_members(s: Seq<char>, p: spec_fn(char) -> bool)
    ensures
        forall|j: int| 0 <= j < run_len(s, p) ==> p(s[j]),
    decreases s.len(),
{
    lemma_run_len_le(s, p);
    if s.len() != 0 && p(s[0]) {
        lemma_run_len_members(s.drop_first(), p);
        assert forall|j: int| 0 <= j < run_len(s, p) implies p(s[j]) by {
            if j > 0 {
                assert(s.drop_first()[j - 1] == s[j]);
                assert(0 <= j - 1 < run_len(s.drop_first(), p));
            }
        }
    }
}

/// Counting a run restarts cleanly after a prefix known to satisfy `p`.
pub proof fn lemma_run_len_from(s: Seq<char>, p: spec_fn(char) -> bool, i: int)
    requires
        0 <= i <= s.len(),
        forall|j: int| 0 <= j < i ==> p(s[j]),
    ensures
        run_len(s, p) == i + run_len(s.skip(i), p),
    decreases i,
{
    if i == 0 {
        assert(s.skip(0) =~= s);
    } else {
        assert(p(s[0]));
        lemma_run_len_from(s.drop_first(), p, i - 1);
        assert(s.drop_first().skip(i - 1) =~= s.skip(i));
        assert forall|j: int| 0 <= j < i - 1 implies p(s.drop_first()[j]) by {
            assert(s.drop_first()[j] == s[j + 1]);
        }
        assert(run_len(s.drop_first(), p) == i - 1 + run_len(s.drop_first().skip(i - 1), p));
    }
}

/// A run is exactly `i` long when the first `i` characters satisfy `p`
/// and the next one, if any, does not.
pub proof fn lemma_run_len_is(s: Seq<char>, p: spec_fn(char) -> bool, i: int)
    requires
        0 <= i <= s.len(),
        forall|j: int| 0 <= j < i ==> p(s[j]),
        i == s.len() || !p(s[i]),
    ensures
        run_len(s, p) == i,
{
    lemma_run_len_from(s, p, i);
    if i < s.len() {
        assert(s.skip(i)[0] == s[i]);
        assert(run_len(s.skip(i), p) == 0);
    } else {
        assert(s.skip(i) =~= Seq::<char>::empty());
    }
}

/// Counting a suffix run restarts cleanly before a suffix known to
/// satisfy `p`: the count is that suffix plus the run of what precedes it.
pub proof fn lemma_suffix_run_len_from(s: Seq<char>, p: spec_fn(char) -> bool, i: int)
    requires
        0 <= i <= s.len(),
        forall|j: int| s.len() - i <= j < s.len() ==> p(s[j]),
    ensures
        suffix_run_len(s, p) == i + suffix_run_len(s.take(s.len() - i), p),
    decreases i,
{
    if i == 0 {
        assert(s.take(s.len() as int) =~= s);
    } else {
        assert(p(s.last()));
        lemma_suffix_run_len_from(s.drop_last(), p, i - 1);
        assert(s.drop_last().take(s.len() - i) =~= s.take(s.len() - i));
    }
}

/// A suffix run is exactly `s.len() - i` long when the characters from
/// `i` on satisfy `p` and the one before `i`, if any, does not.
pub proof fn lemma_suffix_run_len_is(s: Seq<char>, p: spec_fn(char) -> bool, i: int)
    requires
        0 <= i <= s.len(),
        forall|j: int| i <= j < s.len() ==> p(s[j]),
        i == 0 || !p(s[i - 1]),
    ensures
        suffix_run_len(s, p) == s.len() - i,
{
    lemma_suffix_run_len_from(s, p, s.len() - i);
    if i > 0 {
        assert(s.take(i).last() == s[i - 1]);
        assert(suffix_run_len(s.take(i), p) == 0);
    } else {
        assert(s.take(0) =~= Seq::<char>::empty());
    }
}

/// A sequence without whitespace characters trims to itself.
pub proof fn lemma_trim_no_space(s: Seq<char>)
    requires
        forall|j: int| 0 <= j < s.len() ==> !is_space_char(#[trigger] s[j]),
    ensures
        trim_spec(s) == s,
{
    let sp = |c: char| is_space_char(c);
    lemma_run_len_is(s, sp, 0);
    assert(s.skip(0) =~= s);
    lemma_suffix_run_len_is(s, sp, s.len() as int);
    assert(trim_spec(s) =~= s);
}

/// The bounds of the trimmed region of `v`: `trim_spec(v@)` is
/// `v@.subrange(start, end)`.
fn trim_bounds(v: &Vec<char>) -> (r: (usize, usize))
    ensures
        r.0 <= r.1 <= v@.len(),
        trim_spec(v@) == v@.subrange(r.0 as int, r.1 as int),
        forall|j: int| 0 <= j < r.0 ==> is_space_char(#[trigger] v@[j]),
{
    let ghost sp = |c: char| is_space_char(c);
    let n = v.len();
    let mut start: usize = 0;
    while start < n && is_space_char_exec(v[start])
        invariant
            start <= n,
            n == v@.len(),
            forall|j: int| 0 <= j < start ==> is_space_char(#[trigger] v@[j]),
        decreases n - start,
    {
        start = start + 1;
    }
    proof {
        lemma_run_len_is(v@, sp, start as int);
    }
    let mut end: usize = n;
    while end > start && is_space_char_exec(v[end - 1])
        invariant
            start <= end <= n,
            n == v@.len(),
            forall|j: int| end <= j < n ==> is_space_char(#[trigger] v@[j]),
        decreases end,
    {
        end = end - 1;
    }
    proof {
        let t = v@.skip(start as int);
        assert forall|j: int| end - start <= j < t.len() implies sp(t[j]) by {
            assert(t[j] == v@[j + start]);
        }
        if end > start {
            assert(t[end - start - 1] == v@[end - 1]);
        }
        lemma_suffix_run_len_is(t, sp, end - start);
        assert(t.take(end - start) =~= v@.subrange(start as int, end as int));
        assert(trim_spec(v@) =~= v@.subrange(start as int, end as int));
    }
    (start, end)
}

/// The longest leading run of decimal digits of the trimmed input, as a
/// string; empty when the trimmed input does not start with a digit.
pub fn extract_file_size_number(size: &String) -> (r: String)
    ensures
        r@ == number_part(size@),
{
    let ghost dg = |c: char| is_digit_char(c);
    let v = string_chars(size);
    let (start, end) = trim_bounds(&v);
    let ghost t = trim_spec(size@);
    let mut out: Vec<char> = Vec::new();
    let mut i: usize = start;
    while i < end && is_digit_char_exec(v[i])
        invariant
            start <= i <= end <= v@.len(),
            v@ == size@,
            t == v@.subrange(start as int, end as int),
            out@ == v@.subrange(start as int, i as int),
            forall|j: int| start <= j < i ==> is_digit_char(#[trigger] v@[j]),
        decreases end - i,
    {
        let c = v[i];
        out.push(c);
        proof {
            assert(v@.subrange(start as int, i as int).push(v@[i as int]) =~= v@.subrange(
                start as int,
                i + 1,
            ));
        }
        i = i + 1;
    }
    proof {
        assert forall|j: int| 0 <= j < i - start implies dg(t[j]) by {
            assert(t[j] == v@[j + start]);
        }
        if i < end {
            assert(t[i - start] == v@[i as int]);
        }
        lemma_run_len_is(t, dg, i - start);
        assert(t.take(i - start) =~= v@.subrange(start as int, i as int));
        assert(number_part(size@) =~= out@);
    }
    chars_into_string(&out)
}

/// The run of letters that follows the leading digits and whitespace of
/// the trimmed input: the unit token, as written; empty when there is none.
pub fn extract_file_size_unit(size: &String) -> (r: String)
    ensures
        r@ == unit_part(size@),
{
    let ghost ds = |c: char| is_digit_char(c) || is_space_char(c);
    let ghost al = |c: char| is_alpha_char(c);
    let v = string_chars(size);
    let (start, end) = trim_bounds(&v);
    let ghost t = trim_spec(size@);
    let mut i: usize = start;
    while i < end && (is_digit_char_exec(v[i]) || is_space_char_exec(v[i]))
        invariant
            start <= i <= end <= v@.len(),
            v@ == size@,
            t == v@.subrange(start as int, end as int),
            forall|j: int|
                start <= j < i ==> is_digit_char(#[trigger] v@[j]) || is_space_char(v@[j]),
        decreases end - i,
    {
        i = i + 1;
    }
    proof {
        assert forall|j: int| 0 <= j < i - start implies ds(t[j]) by {
            assert(t[j] == v@[j + start]);
        }
        if i < end {
            assert(t[i - start] == v@[i as int]);
        }
        lemma_run_len_is(t, ds, i - start);
    }
    let ghost u = t.skip(i - start);
    proof {
        assert(u =~= v@.subrange(i as int, end as int));
    }
    let mut out: Vec<char> = Vec::new();
    let unit_start = i;
    while i < end && is_alpha_char_exec(v[i])
        invariant
            unit_start <= i <= end <= v@.len(),
            v@ == size@,
            u == v@.subrange(unit_start as int, end as int),
            out@ == v@.subrange(unit_start as int, i as int),
            forall|j: int| unit_start <= j < i ==> is_alpha_char(#[trigger] v@[j]),
        decreases end - i,
    {
        let c = v[i];
        out.push(c);
        proof {
            assert(v@.subrange(unit_start as int, i as int).push(v@[i as int]) =~= v@.subrange(
                unit_start as int,
                i + 1,
            ));
        }
        i = i + 1;
    }
    proof {
        assert forall|j: int| 0 <= j < i - unit_start implies al(u[j]) by {
            assert(u[j] == v@[j + unit_start]);
        }
        if i < end {
            assert(u[i - unit_start] == v@[i as int]);
        }
        lemma_run_len_is(u, al, i - unit_start);
        assert(u.take(i - unit_start) =~= v@.subrange(unit_start as int, i as int));
        assert(unit_part(size@) =~= out@);
    }
    chars_into_string(&out)
}

} // verus!
