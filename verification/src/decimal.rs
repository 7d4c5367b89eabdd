//! Decimal number parsing with the grammar of std's `from_str` for integers:
//! an optional sign followed by at least one ASCII digit.

use vstd::prelude::*;
use vstd::string::StringSliceAdditionalSpecFns;

verus! {

pub open spec fn is_digit(c: char) -> bool {
    '0' <= c && c <= '9'
}

pub open spec fn all_digits(s: Seq<char>) -> bool {
    forall|i: int| 0 <= i < s.len() ==> #[trigger] is_digit(s[i])
}

/// The value of a string of decimal digits.
pub open spec fn digits_value(s: Seq<char>) -> int
    decreases s.len(),
{
    if s.len() == 0 {
        0
    } else {
        10 * digits_value(s.drop_last()) + (s.last() as u32 - '0' as u32)
    }
}

/// The integer that `s` spells: an optional `+` (or `-` where `signed`),
/// then one or more digits. `None` for anything else.
pub open spec fn decimal_value(s: Seq<char>, signed: bool) -> Option<int> {
    if s.len() == 0 {
        None
    } else {
        let neg = signed && s[0] == '-';
        let rest = if s[0] == '+' || neg { s.drop_first() } else { s };
        if rest.len() == 0 || !all_digits(rest) {
            None
        } else if neg {
            Some(-digits_value(rest))
        } else {
            Some(digits_value(rest))
        }
    }
}

/// The result of parsing `s` as an integer in `lo ..= hi`.
pub open spec fn parse_in_range(s: Seq<char>, signed: bool, lo: int, hi: int) -> Option<int> {
    match decimal_value(s, signed) {
        Some(v) => if lo <= v <= hi { Some(v) } else { None },
        None => None,
    }
}

pub open spec fn spec_parse_u8(s: Seq<char>) -> Option<u8> {
    match parse_in_range(s, false, 0, 255) {
        Some(v) => Some(v as u8),
        None => None,
    }
}

pub open spec fn spec_parse_u16(s: Seq<char>) -> Option<u16> {
    match parse_in_range(s, false, 0, 65535) {
        Some(v) => Some(v as u16),
        None => None,
    }
}

pub open spec fn spec_parse_i8(s: Seq<char>) -> Option<i8> {
    match parse_in_range(s, true, -128, 127) {
        Some(v) => Some(v as i8),
        None => None,
    }
}

proof fn lemma_digits_value_nonneg(s: Seq<char>)
    requires
        all_digits(s),
    ensures
        digits_value(s) >= 0,
    decreases s.len(),
{
    if s.len() > 0 {
        assert(is_digit(s[s.len() - 1]));
        assert(all_digits(s.drop_last())) by {
            assert forall|i: int| 0 <= i < s.drop_last().len() implies #[trigger] is_digit(
                s.drop_last()[i],
            ) by {
                assert(is_digit(s[i]));
            }
        }
        lemma_digits_value_nonneg(s.drop_last());
    }
}

proof fn lemma_digits_value_prefix(s: Seq<char>, k: int)
    requires
        all_digits(s),
        0 <= k <= s.len(),
    ensures
        digits_value(s.take(k)) <= digits_value(s),
    decreases s.len(),
{
    if k < s.len() {
        let d = s.drop_last();
        assert(all_digits(d)) by {
            assert forall|i: int| 0 <= i < d.len() implies #[trigger] is_digit(d[i]) by {
                assert(is_digit(s[i]));
            }
        }
        lemma_digits_value_prefix(d, k);
        assert(d.take(k) =~= s.take(k));
        lemma_digits_value_nonneg(d);
        assert(is_digit(s[s.len() - 1]));
    } else {
        assert(s.take(k) =~= s);
    }
}

/// Parses `s` as a decimal integer and keeps it only inside `lo ..= hi`.
pub fn parse_decimal(s: &str, signed: bool, lo: i32, hi: i32) -> (r: Option<i32>)
    requires
        -100000 <= lo <= 0,
        0 <= hi <= 100000,
    ensures
        r == (match parse_in_range(s@, signed, lo as int, hi as int) {
            Some(v) => Some(v as i32),
            None => None::<i32>,
        }),
{
    let n = s.unicode_len();
    if n == 0 {
        return None;
    }
    let c0 = s.get_char(0);
    let neg = signed && c0 == '-';
    let start: usize = if c0 == '+' || neg { 1 } else { 0 };
    let ghost rest = if c0 == '+' || neg { s@.drop_first() } else { s@ };
    assert(rest =~= s@.subrange(start as int, n as int));
    if start == n {
        return None;
    }
    let bound: i32 = if neg { -lo } else { hi };
    let mut v: i32 = 0;
    let mut i: usize = start;
    while i < n
        invariant
            start <= i <= n,
            n == s@.len(),
            n > 0,
            neg == (signed && s@[0] == '-'),
            rest == (if s@[0] == '+' || neg { s@.drop_first() } else { s@ }),
            bound as int == (if neg { -lo } else { hi as int }),
            -100000 <= lo <= 0,
            0 <= hi <= 100000,
            rest =~= s@.subrange(start as int, n as int),
            0 <= bound <= 100000,
            rest.len() == n - start,
            0 <= v <= bound,
            v == digits_value(rest.take(i - start)),
            all_digits(rest.take(i - start)),
        decreases n - i,
    {
        let c = s.get_char(i);
        if !('0' <= c && c <= '9') {
            assert(!is_digit(rest[i - start]));
            assert(!all_digits(rest));
            return None;
        }
        let d: i32 = (c as u32 - '0' as u32) as i32;
        proof {
            let t = rest.take(i + 1 - start);
            assert(t.drop_last() =~= rest.take(i - start));
            assert(t.last() == c);
            assert(all_digits(t)) by {
                assert forall|j: int| 0 <= j < t.len() implies #[trigger] is_digit(t[j]) by {
                    if j < t.len() - 1 {
                        assert(t[j] == rest.take(i - start)[j]);
                    }
                }
            }
        }
        let nv: i32 = 10 * v + d;
        if nv > bound {
            proof {
                let t = rest.take(i + 1 - start);
                assert(digits_value(t) == nv);
                let k = i + 1 - start;
                if all_digits(rest) {
                    lemma_digits_value_prefix(rest, k as int);
                }
            }
            return None;
        }
        v = nv;
        i = i + 1;
    }
    assert(rest.take(n - start) =~= rest);
    if neg {
        Some(-v)
    } else {
        Some(v)
    }
}

/// `str::parse::<u8>`.
pub fn parse_u8(s: &str) -> (r: Option<u8>)
    ensures
        r == spec_parse_u8(s@),
{
    match parse_decimal(s, false, 0, 255) {
        Some(v) => Some(v as u8),
        None => None,
    }
}

/// `str::parse::<u16>`.
pub fn parse_u16(s: &str) -> (r: Option<u16>)
    ensures
        r == spec_parse_u16(s@),
{
    match parse_decimal(s, false, 0, 65535) {
        Some(v) => Some(v as u16),
        None => None,
    }
}

/// `str::parse::<i8>`.
pub fn parse_i8(s: &str) -> (r: Option<i8>)
    ensures
        r == spec_parse_i8(s@),
{
    match parse_decimal(s, true, -128, 127) {
        Some(v) => Some(v as i8),
        None => None,
    }
}

/// The position of the first `c` in `s` at or after `i`; the length of `s`
/// where there is none.
pub open spec fn first_of(s: Seq<char>, c: char, i: int) -> int
    decreases s.len() - i,
{
    if i >= s.len() {
        s.len() as int
    } else if s[i] == c {
        i
    } else {
        first_of(s, c, i + 1)
    }
}

/// The position of the first `c` in `s` at or after `from`; the length of
/// `s` where there is none.
pub fn find_char(s: &str, c: char, from: usize) -> (r: usize)
    requires
        from <= s@.len(),
    ensures
        r == first_of(s@, c, from as int),
        from <= r <= s@.len(),
        r < s@.len() ==> s@[r as int] == c,
        forall|j: int| from <= j < r ==> s@[j] != c,
{
    let n = s.unicode_len();
    let mut i = from;
    while i < n && s.get_char(i) != c
        invariant
            n == s@.len(),
            from <= i <= n,
            forall|j: int| from <= j < i ==> s@[j] != c,
            first_of(s@, c, i as int) == first_of(s@, c, from as int),
        decreases n - i,
    {
        i += 1;
    }
    i
}

/// Whether `s` holds exactly the characters of `lit`.
pub fn str_is(s: &str, lit: &str) -> (r: bool)
    ensures
        r == (s@ == lit@),
{
    let n = s.unicode_len();
    if n != lit.unicode_len() {
        return false;
    }
    let mut i: usize = 0;
    while i < n
        invariant
            n == s@.len() == lit@.len(),
            i <= n,
            forall|j: int| 0 <= j < i ==> s@[j] == lit@[j],
        decreases n - i,
    {
        if s.get_char(i) != lit.get_char(i) {
            return false;
        }
        i += 1;
    }
    assert(s@ =~= lit@);
    true
}

/// The code of the ASCII lower case of `c`.
pub open spec fn ascii_lower(c: char) -> u32 {
    if 'A' <= c <= 'Z' { ((c as u32) + 32) as u32 } else { c as u32 }
}

/// `str::starts_with`: whether `s` begins with the characters of `prefix`.
pub fn starts_with(s: &str, prefix: &str) -> (r: bool)
    ensures
        r == (prefix@.len() <= s@.len() && s@.subrange(0, prefix@.len() as int) == prefix@),
{
    let n = prefix.unicode_len();
    if n > s.unicode_len() {
        return false;
    }
    let mut i: usize = 0;
    while i < n
        invariant
            n == prefix@.len() <= s@.len(),
            i <= n,
            forall|j: int| 0 <= j < i ==> s@[j] == prefix@[j],
        decreases n - i,
    {
        if s.get_char(i) != prefix.get_char(i) {
            return false;
        }
        i += 1;
    }
    assert(s@.subrange(0, n as int) =~= prefix@);
    true
}

fn lower_char(c: char) -> (r: u32)
    ensures
        r == ascii_lower(c),
{
    if 'A' <= c && c <= 'Z' {
        c as u32 + 32
    } else {
        c as u32
    }
}

/// `str::eq_ignore_ascii_case`: whether `s` and `lit` agree but for the case
/// of ASCII letters.
pub fn eq_ignore_ascii_case(s: &str, lit: &str) -> (r: bool)
    ensures
        r == (s@.len() == lit@.len() && forall|j: int|
            0 <= j < s@.len() ==> ascii_lower(#[trigger] s@[j]) == ascii_lower(lit@[j])),
{
    let n = s.unicode_len();
    if n != lit.unicode_len() {
        return false;
    }
    let mut i: usize = 0;
    while i < n
        invariant
            n == s@.len() == lit@.len(),
            i <= n,
            forall|j: int| 0 <= j < i ==> ascii_lower(#[trigger] s@[j]) == ascii_lower(lit@[j]),
        decreases n - i,
    {
        if lower_char(s.get_char(i)) != lower_char(lit.get_char(i)) {
            return false;
        }
        i += 1;
    }
    true
}

/// The decimal digits of `v`, most significant first, as ASCII bytes.
pub open spec fn decimal_bytes(v: nat) -> Seq<u8>
    decreases v,
{
    if v < 10 {
        seq![(48 + v) as u8]
    } else {
        decimal_bytes(v / 10) + seq![(48 + v % 10) as u8]
    }
}

/// The decimal text of `v`, with a leading minus where it is negative.
pub open spec fn signed_decimal_bytes(v: int) -> Seq<u8> {
    if v < 0 { seq![45u8] + decimal_bytes((-v) as nat) } else { decimal_bytes(v as nat) }
}

/// Appends the decimal digits of `v` to `out`.
pub fn push_decimal(out: &mut Vec<u8>, v: u32)
    ensures
        final(out)@ == old(out)@ + decimal_bytes(v as nat),
    decreases v,
{
    if v >= 10 {
        push_decimal(out, v / 10);
    }
    out.push(48 + (v % 10) as u8);
    assert(final(out)@ =~= old(out)@ + decimal_bytes(v as nat)) by {
        if v >= 10 {
            assert(decimal_bytes(v as nat) == decimal_bytes((v / 10) as nat) + seq![(48 + v % 10) as u8]);
        }
    }
}

/// Appends the decimal text of `v` to `out`.
pub fn push_signed(out: &mut Vec<u8>, v: i32)
    requires
        v > i32::MIN,
    ensures
        final(out)@ == old(out)@ + signed_decimal_bytes(v as int),
{
    if v < 0 {
        out.push(45);
        push_decimal(out, (-v) as u32);
        assert(final(out)@ =~= old(out)@ + signed_decimal_bytes(v as int));
    } else {
        push_decimal(out, v as u32);
    }
}

/// Appends the bytes of `s` to `out`.
pub fn push_str(out: &mut Vec<u8>, s: &str)
    ensures
        final(out)@ == old(out)@ + s.spec_bytes(),
{
    let b = s.as_bytes();
    let mut i: usize = 0;
    while i < b.len()
        invariant
            b@ == s.spec_bytes(),
            i <= b@.len(),
            out@ == old(out)@ + b@.subrange(0, i as int),
        decreases b@.len() - i,
    {
        out.push(b[i]);
        i += 1;
        assert(out@ =~= old(out)@ + b@.subrange(0, i as int));
    }
    assert(b@.subrange(0, b@.len() as int) =~= b@);
}

} // verus!
