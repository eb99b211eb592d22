//! Small string helpers shared by the encoders and the readers.
use vstd::prelude::*;
use vstd::string::*;

verus! {

/// Appends `c` to `s` by `String::push` of std; the contract claims that the
/// characters of `s` grow by exactly `c`.
#[verifier::external_body]
pub(crate) fn push_char(s: &mut String, c: char)
    ensures
        final(s)@ == old(s)@.push(c),
{
    s.push(c);
}

/// Compares two string slices character by character.
pub fn str_eq(a: &str, b: &str) -> (r: bool)
    ensures
        r == (a@ == b@),
{
    let n = a.unicode_len();
    let m = b.unicode_len();
    if n != m {
        return false;
    }
    let mut i: usize = 0;
    while i < n
        invariant
            n == a@.len(),
            m == b@.len(),
            n == m,
            i <= n,
            forall|j: int| 0 <= j < i ==> a@[j] == b@[j],
        decreases n - i,
    {
        if a.get_char(i) != b.get_char(i) {
            return false;
        }
        i = i + 1;
    }
    assert(a@ =~= b@);
    true
}

/// Index of the first occurrence of `pat` in `s`, if any.
pub open spec fn first_occurrence(s: Seq<char>, pat: Seq<char>) -> Option<int>
    decreases s.len(),
{
    if pat.len() == 0 {
        Some(0)
    } else if s.len() < pat.len() {
        None
    } else if s.take(pat.len() as int) == pat {
        Some(0)
    } else {
        match first_occurrence(s.skip(1), pat) {
            Some(i) => Some(i + 1),
            None => None,
        }
    }
}

pub proof fn lemma_first_occurrence_le(s: Seq<char>, pat: Seq<char>)
    ensures
        first_occurrence(s, pat) matches Some(i) ==> 0 <= i <= s.len() - pat.len(),
    decreases s.len(),
{
    if pat.len() > 0 && s.len() >= pat.len() && s.take(pat.len() as int) != pat {
        lemma_first_occurrence_le(s.skip(1), pat);
    }
}

/// Whether `pat` occurs in `s` at index `i`.
fn occurs_at(s: &str, pat: &str, i: usize, n: usize, m: usize) -> (r: bool)
    requires
        n == s@.len(),
        m == pat@.len(),
        i + m <= n,
    ensures
        r == (s@.skip(i as int).take(m as int) == pat@),
{
    let mut j: usize = 0;
    while j < m
        invariant
            n == s@.len(),
            m == pat@.len(),
            i + m <= n,
            j <= m,
            forall|k: int| 0 <= k < j ==> s@[i + k] == pat@[k],
        decreases m - j,
    {
        if s.get_char(i + j) != pat.get_char(j) {
            assert(s@.skip(i as int).take(m as int)[j as int] != pat@[j as int]);
            return false;
        }
        j = j + 1;
    }
    assert(s@.skip(i as int).take(m as int) =~= pat@);
    true
}

/// Finds the first occurrence of `pat` in `s`, as a character index.
pub fn find_str(s: &str, pat: &str) -> (r: Option<usize>)
    ensures
        match r {
            Some(k) => first_occurrence(s@, pat@) == Some(k as int) && k <= s@.len(),
            None => first_occurrence(s@, pat@) is None,
        },
{
    let n = s.unicode_len();
    let m = pat.unicode_len();
    proof {
        lemma_first_occurrence_le(s@, pat@);
    }
    if m == 0 {
        return Some(0);
    }
    if n < m {
        return None;
    }
    let mut i: usize = 0;
    assert(s@.skip(0) =~= s@);
    while i <= n - m
        invariant
            n == s@.len(),
            m == pat@.len(),
            1 <= m <= n,
            i <= n - m + 1,
            first_occurrence(s@, pat@) == (match first_occurrence(s@.skip(i as int), pat@) {
                Some(k) => Some(k + i),
                None => None::<int>,
            }),
        decreases n + 1 - i,
    {
        let hit = occurs_at(s, pat, i, n, m);
        if hit {
            assert(s@.skip(i as int).take(m as int) == pat@);
            return Some(i);
        }
        assert(s@.skip(i as int).skip(1) =~= s@.skip(i + 1));
        assert(s@.skip(i as int).take(m as int) != pat@);
        i = i + 1;
    }
    assert(s@.skip(i as int).len() < m);
    None
}

/// An ASCII decimal digit.
pub open spec fn is_digit(b: u8) -> bool {
    48 <= b && b <= 57
}

/// The number written by decimal digits.
pub open spec fn digits_value(t: Seq<u8>) -> nat
    decreases t.len(),
{
    if t.len() == 0 {
        0
    } else {
        digits_value(t.drop_last()) * 10 + (t.last() - 48) as nat
    }
}

/// The digits part of a number: without a leading `+`.
pub open spec fn usize_digits(s: Seq<u8>) -> Seq<u8> {
    if s.len() > 0 && s[0] == 43 {
        s.skip(1)
    } else {
        s
    }
}

/// Every byte is a decimal digit.
pub open spec fn all_digits(t: Seq<u8>) -> bool {
    forall|i: int| 0 <= i < t.len() ==> is_digit(#[trigger] t[i])
}

/// `usize::from_str` on the bytes of a string: an optional `+`, then at least
/// one decimal digit, and a value that fits a `usize`.
pub open spec fn parse_usize_spec(s: Seq<u8>) -> Option<nat> {
    let t = usize_digits(s);
    if s.len() == 0 || t.len() == 0 || !all_digits(t) || digits_value(t) > usize::MAX {
        None
    } else {
        Some(digits_value(t))
    }
}

proof fn lemma_digits_value_mono(t: Seq<u8>, k: int)
    requires
        0 <= k <= t.len(),
        forall|i: int| 0 <= i < t.len() ==> is_digit(#[trigger] t[i]),
    ensures
        digits_value(t.take(k)) <= digits_value(t),
    decreases t.len() - k,
{
    if k < t.len() {
        assert(t.take(k + 1).drop_last() =~= t.take(k));
        assert(is_digit(t[k]));
        lemma_digits_value_mono(t, k + 1);
    } else {
        assert(t.take(k) =~= t);
    }
}

/// Parses a decimal `usize` as `usize::from_str` does.
pub fn parse_usize(s: &str) -> (r: Option<usize>)
    ensures
        match parse_usize_spec(s.spec_bytes()) {
            Some(v) => r == Some(v as usize),
            None => r is None,
        },
{
    let bytes = s.as_bytes();
    let n = bytes.len();
    if n == 0 {
        return None;
    }
    let start: usize = if bytes[0] == 43 { 1 } else { 0 };
    if start == n {
        return None;
    }
    let ghost t = usize_digits(bytes@);
    assert(t =~= bytes@.skip(start as int));
    let mut v: usize = 0;
    let mut i: usize = start;
    assert(t.take(0) =~= Seq::<u8>::empty());
    while i < n
        invariant
            n == bytes@.len(),
            start <= i <= n,
            start < n,
            bytes@ == s.spec_bytes(),
            t == usize_digits(bytes@),
            t =~= bytes@.skip(start as int),
            forall|j: int| 0 <= j < i - start ==> is_digit(#[trigger] t[j]),
            v as nat == digits_value(t.take(i - start)),
        decreases n - i,
    {
        let b = bytes[i];
        if !(48 <= b && b <= 57) {
            assert(!is_digit(t[i - start]));
            assert(!all_digits(t));
            return None;
        }
        let ghost k = i - start;
        assert(t.take(k + 1).drop_last() =~= t.take(k));
        assert(t.take(k + 1).last() == b);
        assert(digits_value(t.take(k + 1)) == v * 10 + (b - 48) as nat);
        let m = v.checked_mul(10);
        let w = match m {
            Some(m) => m.checked_add((b - 48) as usize),
            None => None,
        };
        match w {
            Some(w) => {
                v = w;
            },
            None => {
                proof {
                    if all_digits(t) {
                        lemma_digits_value_mono(t, k + 1);
                    }
                }
                return None;
            },
        }
        i = i + 1;
    }
    assert(t.take(n - start) =~= t);
    Some(v)
}

} // verus!
