//! Verified text building blocks: appending single characters, decimal and
//! hexadecimal rendering of integers, and substring search.
use vstd::prelude::*;

verus! {

/// Relies on String::push: appends exactly the one character to the string.
#[verifier::external_body]
pub fn push_char(s: &mut String, c: char)
    ensures
        final(s)@ == old(s)@.push(c),
{
    s.push(c)
}

// =========================================================================
// Decimal and hexadecimal rendering
// =========================================================================

/// The character for one digit value below 16, using lower-case letters.
pub open spec fn digit_char(d: nat) -> char {
    if d == 0 { '0' }
    else if d == 1 { '1' }
    else if d == 2 { '2' }
    else if d == 3 { '3' }
    else if d == 4 { '4' }
    else if d == 5 { '5' }
    else if d == 6 { '6' }
    else if d == 7 { '7' }
    else if d == 8 { '8' }
    else if d == 9 { '9' }
    else if d == 10 { 'a' }
    else if d == 11 { 'b' }
    else if d == 12 { 'c' }
    else if d == 13 { 'd' }
    else if d == 14 { 'e' }
    else { 'f' }
}

/// The decimal rendering of a natural number, without leading zeros
/// (except for zero itself).
pub open spec fn dec_of(n: nat) -> Seq<char>
    decreases n,
{
    if n < 10 {
        seq![digit_char(n)]
    } else {
        dec_of(n / 10) + seq![digit_char(n % 10)]
    }
}

/// The lower-case hexadecimal rendering of a natural number.
pub open spec fn hex_of(n: nat) -> Seq<char>
    decreases n,
{
    if n < 16 {
        seq![digit_char(n)]
    } else {
        hex_of(n / 16) + seq![digit_char(n % 16)]
    }
}

/// The decimal rendering of an integer: a minus sign before the magnitude
/// for negative values.
pub open spec fn int_dec_of(n: int) -> Seq<char> {
    if n >= 0 {
        dec_of(n as nat)
    } else {
        seq!['-'] + dec_of((-n) as nat)
    }
}

fn digit_str(d: u64) -> (r: &'static str)
    requires
        d < 16,
    ensures
        r@ =~= seq![digit_char(d as nat)],
{
    let r: &'static str = if d == 0 { "0" }
    else if d == 1 { "1" }
    else if d == 2 { "2" }
    else if d == 3 { "3" }
    else if d == 4 { "4" }
    else if d == 5 { "5" }
    else if d == 6 { "6" }
    else if d == 7 { "7" }
    else if d == 8 { "8" }
    else if d == 9 { "9" }
    else if d == 10 { "a" }
    else if d == 11 { "b" }
    else if d == 12 { "c" }
    else if d == 13 { "d" }
    else if d == 14 { "e" }
    else { "f" };
    proof {
        reveal_strlit("0");
        reveal_strlit("1");
        reveal_strlit("2");
        reveal_strlit("3");
        reveal_strlit("4");
        reveal_strlit("5");
        reveal_strlit("6");
        reveal_strlit("7");
        reveal_strlit("8");
        reveal_strlit("9");
        reveal_strlit("a");
        reveal_strlit("b");
        reveal_strlit("c");
        reveal_strlit("d");
        reveal_strlit("e");
        reveal_strlit("f");
    }
    r
}

/// Render a u64 in decimal.
pub fn u64_to_dec(n: u64) -> (r: String)
    ensures
        r@ == dec_of(n as nat),
    decreases n,
{
    if n < 10 {
        String::from_str(digit_str(n))
    } else {
        let mut r = u64_to_dec(n / 10);
        r.append(digit_str(n % 10));
        assert(r@ =~= dec_of(n as nat));
        r
    }
}

/// Render a usize in decimal.
pub fn usize_to_dec(n: usize) -> (r: String)
    ensures
        r@ == dec_of(n as nat),
{
    u64_to_dec(n as u64)
}

/// Render a u64 in lower-case hexadecimal.
pub fn u64_to_hex(n: u64) -> (r: String)
    ensures
        r@ == hex_of(n as nat),
    decreases n,
{
    if n < 16 {
        String::from_str(digit_str(n))
    } else {
        let mut r = u64_to_hex(n / 16);
        r.append(digit_str(n % 16));
        assert(r@ =~= hex_of(n as nat));
        r
    }
}

/// Render a u128 in decimal.
pub fn u128_to_dec(n: u128) -> (r: String)
    ensures
        r@ == dec_of(n as nat),
    decreases n,
{
    if n < 10 {
        String::from_str(digit_str((n as u64)))
    } else {
        let mut r = u128_to_dec(n / 10);
        r.append(digit_str((n % 10) as u64));
        assert(r@ =~= dec_of(n as nat));
        r
    }
}

/// Render an i128 in decimal, with a leading minus sign when negative.
pub fn i128_to_dec(n: i128) -> (r: String)
    ensures
        r@ == int_dec_of(n as int),
{
    if n >= 0 {
        let r = u128_to_dec(n as u128);
        assert(r@ =~= int_dec_of(n as int));
        r
    } else {
        let m: u128 = ((-(n + 1)) as u128) + 1;
        let mut r = String::from_str("-");
        let mag = u128_to_dec(m);
        r.append(mag.as_str());
        proof {
            reveal_strlit("-");
            assert(r@ =~= int_dec_of(n as int));
        }
        r
    }
}

/// Whether two string slices hold the same characters.
pub fn str_eq(a: &str, b: &str) -> (r: bool)
    ensures
        r == (a@ == b@),
{
    let n = a.unicode_len();
    let m = b.unicode_len();
    if n != m {
        return false;
    }
    let mut i: usize = 0;
    while i < n
        invariant
            i <= n,
            n == a@.len(),
            n == b@.len(),
            forall |k: int| 0 <= k < i ==> a@[k] == b@[k],
        decreases n - i,
    {
        if a.get_char(i) != b.get_char(i) {
            return false;
        }
        i = i + 1;
    }
    proof {
        assert(a@ =~= b@);
    }
    true
}

// =========================================================================
// Substring search
// =========================================================================

/// `p` occurs as a contiguous substring of `s` starting at position `i`.
pub open spec fn occurs_at(s: Seq<char>, p: Seq<char>, i: int) -> bool {
    0 <= i && i + p.len() <= s.len() && s.subrange(i, i + p.len()) == p
}

/// `p` occurs somewhere in `s`.
pub open spec fn has_substring(s: Seq<char>, p: Seq<char>) -> bool {
    exists |i: int| occurs_at(s, p, i)
}

/// Whether `pat` occurs as a contiguous substring of `s`.
pub fn str_contains(s: &str, pat: &str) -> (r: bool)
    ensures
        r == has_substring(s@, pat@),
{
    let n = s.unicode_len();
    let m = pat.unicode_len();
    if m > n {
        proof {
            assert(forall |i: int| !occurs_at(s@, pat@, i));
        }
        return false;
    }
    let mut i: usize = 0;
    loop
        invariant
            i <= n - m,
            m <= n,
            n == s@.len(),
            m == pat@.len(),
            forall |k: int| 0 <= k < i ==> !occurs_at(s@, pat@, k),
        ensures
            (exists |k: int| occurs_at(s@, pat@, k)) == has_substring(s@, pat@),
        decreases n - m - i,
    {
        let mut j: usize = 0;
        let mut matches = true;
        while j < m
            invariant
                j <= m,
                i + m <= n,
                n == s@.len(),
                m == pat@.len(),
                matches ==> forall |k: int| 0 <= k < j ==> s@[i + k] == pat@[k],
                !matches ==> !occurs_at(s@, pat@, i as int),
            decreases m - j,
        {
            if s.get_char(i + j) != pat.get_char(j) {
                proof {
                    let ii = i as int;
                    if occurs_at(s@, pat@, ii) {
                        assert(s@.subrange(ii, ii + pat@.len())[j as int] == pat@[j as int]);
                    }
                }
                matches = false;
                j = m;
            } else {
                j = j + 1;
            }
        }
        if matches {
            proof {
                let ii = i as int;
                assert(s@.subrange(ii, ii + pat@.len()) =~= pat@);
                assert(occurs_at(s@, pat@, ii));
            }
            return true;
        }
        if i == n - m {
            proof {
                assert(forall |k: int| occurs_at(s@, pat@, k) ==> 0 <= k <= n - m);
                assert(forall |k: int| !occurs_at(s@, pat@, k));
            }
            return false;
        }
        i = i + 1;
    }
}

} // verus!
