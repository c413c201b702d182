//! Verified helpers for working with `&str` and `String` values:
//! equality, prefix/suffix tests, concatenation and substring search.

use vstd::prelude::*;

verus! {

/// Character-wise equality of two string slices.
pub fn str_eq(a: &str, b: &str) -> (r: bool)
    ensures
        r == (a@ == b@),
{
    let alen = a.unicode_len();
    let blen = b.unicode_len();
    if alen != blen {
        assert(a@ != b@) by {
            assert(a@.len() != b@.len());
        }
        return false;
    }
    let mut i: usize = 0;
    while i < alen
        invariant
            alen == a@.len(),
            blen == b@.len(),
            alen == blen,
            i <= alen,
            forall|j: int| 0 <= j < i ==> a@[j] == b@[j],
        decreases alen - i,
    {
        if a.get_char(i) != b.get_char(i) {
            return false;
        }
        i += 1;
    }
    proof {
        assert(a@ =~= b@);
    }
    true
}

/// Does `s` start with `prefix`?
pub fn has_prefix(s: &str, prefix: &str) -> (r: bool)
    ensures
        r == prefix@.is_prefix_of(s@),
{
    let slen = s.unicode_len();
    let plen = prefix.unicode_len();
    if plen > slen {
        return false;
    }
    let mut i: usize = 0;
    while i < plen
        invariant
            slen == s@.len(),
            plen == prefix@.len(),
            plen <= slen,
            i <= plen,
            forall|j: int| 0 <= j < i ==> s@[j] == prefix@[j],
        decreases plen - i,
    {
        if s.get_char(i) != prefix.get_char(i) {
            return false;
        }
        i += 1;
    }
    proof {
        assert(prefix@ =~= s@.subrange(0, plen as int));
    }
    true
}

/// Does `s` end with `suffix`?
pub fn has_suffix(s: &str, suffix: &str) -> (r: bool)
    ensures
        r == suffix@.is_suffix_of(s@),
{
    let slen = s.unicode_len();
    let xlen = suffix.unicode_len();
    if xlen > slen {
        return false;
    }
    let start = slen - xlen;
    let mut i: usize = 0;
    while i < xlen
        invariant
            slen == s@.len(),
            xlen == suffix@.len(),
            xlen <= slen,
            start == slen - xlen,
            i <= xlen,
            forall|j: int| 0 <= j < i ==> s@[start + j] == suffix@[j],
        decreases xlen - i,
    {
        if s.get_char(start + i) != suffix.get_char(i) {
            return false;
        }
        i += 1;
    }
    proof {
        assert(suffix@ =~= s@.subrange(start as int, slen as int));
    }
    true
}

/// Concatenation of two string slices into an owned `String`.
pub fn concat2(a: &str, b: &str) -> (r: String)
    ensures
        r@ == a@ + b@,
{
    let s = String::from_str(a);
    s.concat(b)
}

/// Concatenation of three string slices into an owned `String`.
pub fn concat3(a: &str, b: &str, c: &str) -> (r: String)
    ensures
        r@ == a@ + b@ + c@,
{
    let s = String::from_str(a);
    let s = s.concat(b);
    s.concat(c)
}

/// The substring of `s` from character position `from` to the end.
pub fn tail_from(s: &str, from: usize) -> (r: String)
    requires
        from <= s@.len(),
    ensures
        r@ == s@.subrange(from as int, s@.len() as int),
{
    let len = s.unicode_len();
    let t = s.substring_char(from, len);
    String::from_str(t)
}

/// Position of the first occurrence of `c` in `s`, if any.
pub fn first_index_of(s: &str, c: char) -> (r: Option<usize>)
    ensures
        match r {
            Some(i) => i < s@.len() && s@[i as int] == c && (forall|j: int|
                0 <= j < i ==> s@[j] != c),
            None => forall|j: int| 0 <= j < s@.len() ==> s@[j] != c,
        },
{
    let len = s.unicode_len();
    let mut i: usize = 0;
    while i < len
        invariant
            len == s@.len(),
            i <= len,
            forall|j: int| 0 <= j < i ==> s@[j] != c,
        decreases len - i,
    {
        if s.get_char(i) == c {
            return Some(i);
        }
        i += 1;
    }
    None
}

/// The prefix of `s` before the first occurrence of `c`, or all of `s`
/// when `c` does not occur.
pub open spec fn spec_prefix_until(s: Seq<char>, c: char) -> Seq<char> {
    if exists|i: int| 0 <= i < s.len() && s[i] == c && (forall|j: int| 0 <= j < i ==> s[j] != c) {
        s.take(choose|i: int| 0 <= i < s.len() && s[i] == c && (forall|j: int|
            0 <= j < i ==> s[j] != c))
    } else {
        s
    }
}

/// Cut `s` at the first occurrence of `c`.
pub fn prefix_until(s: &str, c: char) -> (r: String)
    ensures
        r@ == spec_prefix_until(s@, c),
{
    match first_index_of(s, c) {
        Some(i) => {
            proof {
                let w = choose|w: int| 0 <= w < s@.len() && s@[w] == c && (forall|j: int|
                    0 <= j < w ==> s@[j] != c);
                if w < i {
                    assert(s@[w] != c);
                } else if w > i {
                    assert(s@[i as int] != c);
                }
            }
            let t = s.substring_char(0, i);
            String::from_str(t)
        },
        None => String::from_str(s),
    }
}

/// The decimal digit character for a value below 10.
pub open spec fn dec_char(n: u64) -> char
    recommends
        n < 10,
{
    ((48 + n) as u8) as char
}

/// The decimal representation of a number, most significant digit
/// first.
pub open spec fn spec_dec_str(n: u64) -> Seq<char>
    decreases n,
{
    if n < 10 {
        seq![dec_char(n)]
    } else {
        spec_dec_str(n / 10) + seq![dec_char(n % 10)]
    }
}

/// The decimal digit character for a value below 10, as a string
/// slice.
fn dec_digit_str(n: u64) -> (r: &'static str)
    requires
        n < 10,
    ensures
        r@ == seq![dec_char(n)],
{
    proof {
        reveal_strlit("0");
        reveal_strlit("1");
        reveal_strlit("2");
        reveal_strlit("3");
        reveal_strlit("4");
        reveal_strlit("5");
        reveal_strlit("6");
        reveal_strlit("7");
        reveal_strlit("8");
        reveal_strlit("9");
    }
    match n {
        0 => "0",
        1 => "1",
        2 => "2",
        3 => "3",
        4 => "4",
        5 => "5",
        6 => "6",
        7 => "7",
        8 => "8",
        _ => "9",
    }
}

/// Format a number in decimal.
pub fn u64_to_dec(n: u64) -> (r: String)
    ensures
        r@ == spec_dec_str(n),
    decreases n,
{
    if n < 10 {
        String::from_str(dec_digit_str(n))
    } else {
        let high = u64_to_dec(n / 10);
        high.concat(dec_digit_str(n % 10))
    }
}

/// Position of the last occurrence of `c` in `s`, if any.
pub fn last_index_of(s: &str, c: char) -> (r: Option<usize>)
    ensures
        match r {
            Some(i) => i < s@.len() && s@[i as int] == c && (forall|j: int|
                i < j < s@.len() ==> s@[j] != c),
            None => forall|j: int| 0 <= j < s@.len() ==> s@[j] != c,
        },
{
    let len = s.unicode_len();
    let mut i: usize = len;
    while i > 0
        invariant
            len == s@.len(),
            i <= len,
            forall|j: int| i <= j < len ==> s@[j] != c,
        decreases i,
    {
        i -= 1;
        if s.get_char(i) == c {
            return Some(i);
        }
    }
    None
}

} // verus!
