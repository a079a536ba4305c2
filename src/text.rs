//! Character-level helpers: reading a string's characters, comparing
//! strings, and decimal digit strings with their values.

use vstd::prelude::*;
use vstd::string::*;

verus! {

pub open spec fn is_digit(c: char) -> bool {
    '0' <= c && c <= '9'
}

pub open spec fn all_digits(s: Seq<char>) -> bool {
    forall|i: int| 0 <= i < s.len() ==> is_digit(#[trigger] s[i])
}

pub open spec fn digit_of(c: char) -> nat {
    (c as int - '0' as int) as nat
}

/// The value of a decimal digit string, most significant digit first.
pub open spec fn digits_value(s: Seq<char>) -> nat
    decreases s.len(),
{
    if s.len() == 0 {
        0
    } else {
        10 * digits_value(s.drop_last()) + digit_of(s.last())
    }
}

pub open spec fn pow10(n: nat) -> nat
    decreases n,
{
    if n == 0 {
        1
    } else {
        10 * pow10((n - 1) as nat)
    }
}

/// A digit string of length `n` has a value below `10^n`.
pub proof fn lemma_digits_value_bound(s: Seq<char>)
    requires
        all_digits(s),
    ensures
        digits_value(s) < pow10(s.len()),
    decreases s.len(),
{
    if s.len() > 0 {
        let p = s.drop_last();
        assert(all_digits(p)) by {
            assert forall|i: int| 0 <= i < p.len() implies is_digit(#[trigger] p[i]) by {
                assert(p[i] == s[i]);
            }
        }
        lemma_digits_value_bound(p);
        assert(is_digit(s[s.len() - 1]));
    }
}

/// The characters of `s`, one per element.
pub fn chars_of(s: &str) -> (v: Vec<char>)
    ensures
        v@ == s@,
{
    let n = s.unicode_len();
    let mut v: Vec<char> = Vec::new();
    let mut i: usize = 0;
    while i < n
        invariant
            n == s@.len(),
            i <= n,
            v@ == s@.subrange(0, i as int),
        decreases n - i,
    {
        v.push(s.get_char(i));
        i = i + 1;
        assert(v@ =~= s@.subrange(0, i as int));
    }
    assert(v@ =~= s@);
    v
}

/// Whether two strings hold the same characters.
pub fn text_eq(a: &str, b: &str) -> (r: bool)
    ensures
        r == (a@ == b@),
{
    let n = a.unicode_len();
    if n != b.unicode_len() {
        return false;
    }
    let mut i: usize = 0;
    while i < n
        invariant
            n == a@.len(),
            n == b@.len(),
            i <= n,
            forall|j: int| 0 <= j < i ==> a@[j] == b@[j],
        decreases n - i,
    {
        if a.get_char(i) != b.get_char(i) {
            return false;
        }
        i = i + 1;
    }
    assert(a@ =~= b@);
    true
}

/// Whether `s` begins with the character `c`.
pub fn starts_with_char(s: &str, c: char) -> (r: bool)
    ensures
        r == (s@.len() > 0 && s@[0] == c),
{
    s.unicode_len() > 0 && s.get_char(0) == c
}

/// The length of the run of digits in `v` that starts at `i`.
pub open spec fn digit_run(v: Seq<char>, i: int) -> nat
    decreases v.len() - i,
{
    if 0 <= i < v.len() && is_digit(v[i]) {
        1 + digit_run(v, i + 1)
    } else {
        0
    }
}

pub proof fn lemma_digit_run_digits(v: Seq<char>, i: int)
    requires
        0 <= i <= v.len(),
    ensures
        i + digit_run(v, i) <= v.len(),
        all_digits(v.subrange(i, i + digit_run(v, i))),
        i + digit_run(v, i) < v.len() ==> !is_digit(v[i + digit_run(v, i)]),
    decreases v.len() - i,
{
    if 0 <= i < v.len() && is_digit(v[i]) {
        lemma_digit_run_digits(v, i + 1);
        let n = digit_run(v, i);
        let r = v.subrange(i, i + n);
        let r1 = v.subrange(i + 1, i + n);
        assert forall|j: int| 0 <= j < r.len() implies is_digit(#[trigger] r[j]) by {
            if j > 0 {
                assert(r[j] == r1[j - 1]);
            }
        }
    } else {
        assert(v.subrange(i, i) =~= Seq::<char>::empty());
    }
}

/// The length of the run of digits in `v` that starts at `i`.
pub fn digit_run_at(v: &Vec<char>, i: usize) -> (n: usize)
    requires
        i <= v@.len(),
    ensures
        n == digit_run(v@, i as int),
        i + n <= v@.len(),
        i + n <= usize::MAX,
{
    let mut j: usize = i;
    while j < v.len() && '0' <= v[j] && v[j] <= '9'
        invariant
            i <= j <= v@.len(),
            digit_run(v@, i as int) == (j - i) + digit_run(v@, j as int),
        decreases v@.len() - j,
    {
        j = j + 1;
    }
    j - i
}

/// The value of the digits `v[start..end]`, or `None` where it exceeds
/// `u64::MAX`.
pub fn digits_to_u64(v: &Vec<char>, start: usize, end: usize) -> (r: Option<u64>)
    requires
        start <= end <= v@.len(),
        all_digits(v@.subrange(start as int, end as int)),
    ensures
        r == (if digits_value(v@.subrange(start as int, end as int)) <= u64::MAX {
            Some(digits_value(v@.subrange(start as int, end as int)) as u64)
        } else {
            None::<u64>
        }),
{
    let mut acc: u64 = 0;
    let mut j: usize = start;
    assert(v@.subrange(start as int, start as int) =~= Seq::<char>::empty());
    while j < end
        invariant
            start <= j <= end <= v@.len(),
            all_digits(v@.subrange(start as int, end as int)),
            acc == digits_value(v@.subrange(start as int, j as int)),
        decreases end - j,
    {
        let ghost prefix = v@.subrange(start as int, j as int);
        let ghost next = v@.subrange(start as int, j + 1);
        assert(next.drop_last() =~= prefix);
        assert(next.last() == v@[j as int]);
        assert(is_digit(v@[j as int])) by {
            assert(v@.subrange(start as int, end as int)[j - start] == v@[j as int]);
        }
        let d = (v[j] as u32 - '0' as u32) as u64;
        let step = acc.checked_mul(10);
        match step {
            None => {
                proof {
                    lemma_digits_value_grows(v@.subrange(start as int, end as int), (j + 1 - start) as int);
                    assert(v@.subrange(start as int, end as int).subrange(0, (j + 1 - start) as int) =~= next);
                }
                return None;
            },
            Some(t) => match t.checked_add(d) {
                None => {
                    proof {
                        lemma_digits_value_grows(v@.subrange(start as int, end as int), (j + 1 - start) as int);
                        assert(v@.subrange(start as int, end as int).subrange(0, (j + 1 - start) as int) =~= next);
                    }
                    return None;
                },
                Some(a) => {
                    acc = a;
                },
            },
        }
        j = j + 1;
    }
    Some(acc)
}

/// Adding digits never lowers the value: a prefix's value bounds the whole.
pub proof fn lemma_digits_value_grows(s: Seq<char>, k: int)
    requires
        0 <= k <= s.len(),
    ensures
        digits_value(s.subrange(0, k)) <= digits_value(s),
    decreases s.len() - k,
{
    if k < s.len() {
        lemma_digits_value_grows(s, k + 1);
        let a = s.subrange(0, k + 1);
        assert(a.drop_last() =~= s.subrange(0, k));
    } else {
        assert(s.subrange(0, k) =~= s);
    }
}

} // verus!
