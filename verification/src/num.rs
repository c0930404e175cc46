//! Parsing integers from text the way std's `FromStr` and `from_str_radix` do:
//! an optional sign, then one or more digits of the radix, and no overflow.
use vstd::prelude::*;

verus! {

/// The value of `c` as a digit (`0-9`, then `a-z` or `A-Z` from 10 on), if it
/// is one below `radix`.
pub open spec fn digit_value(c: char, radix: nat) -> Option<nat> {
    let v: int = if '0' <= c && c <= '9' {
        c as int - '0' as int
    } else if 'a' <= c && c <= 'z' {
        c as int - 'a' as int + 10
    } else if 'A' <= c && c <= 'Z' {
        c as int - 'A' as int + 10
    } else {
        36
    };
    if v < radix {
        Some(v as nat)
    } else {
        None
    }
}

/// Every character of `s` is a digit of `radix`.
pub open spec fn all_digits(s: Seq<char>, radix: nat) -> bool {
    forall|i: int| 0 <= i < s.len() ==> (#[trigger] digit_value(s[i], radix)) is Some
}

/// The number that the digits `s` denote in `radix`.
pub open spec fn digits_value(s: Seq<char>, radix: nat) -> nat
    decreases s.len(),
{
    if s.len() == 0 {
        0
    } else {
        digits_value(s.drop_last(), radix) * radix + match digit_value(s.last(), radix) {
            Some(d) => d,
            None => 0,
        }
    }
}

/// What std gives when it parses `s` as an unsigned number of `radix` whose
/// largest value is `max`: a lone sign, an empty text, a character that is no
/// digit (a `'-'` among them) or overflow are errors; one leading `'+'` is allowed.
pub open spec fn parse_unsigned(s: Seq<char>, radix: nat, max: nat) -> Option<nat> {
    if s.len() == 0 || (s.len() == 1 && (s[0] == '+' || s[0] == '-')) {
        None
    } else {
        let d = if s[0] == '+' {
            s.drop_first()
        } else {
            s
        };
        if all_digits(d, radix) && digits_value(d, radix) <= max {
            Some(digits_value(d, radix))
        } else {
            None
        }
    }
}

/// What std's `str::parse::<i32>` gives for `s`.
pub open spec fn parse_i32(s: Seq<char>) -> Option<i32> {
    if s.len() == 0 || (s.len() == 1 && (s[0] == '+' || s[0] == '-')) {
        None
    } else if s[0] == '-' {
        let d = s.drop_first();
        if all_digits(d, 10) && digits_value(d, 10) <= 0x8000_0000 {
            Some((0 - digits_value(d, 10)) as i32)
        } else {
            None
        }
    } else {
        let d = if s[0] == '+' {
            s.drop_first()
        } else {
            s
        };
        if all_digits(d, 10) && digits_value(d, 10) <= 0x7fff_ffff {
            Some(digits_value(d, 10) as i32)
        } else {
            None
        }
    }
}

/// What std's `str::parse::<u16>` gives for `s`.
pub open spec fn parse_u16(s: Seq<char>) -> Option<u16> {
    match parse_unsigned(s, 10, 0xffff) {
        Some(v) => Some(v as u16),
        None => None,
    }
}

/// What std's `u16::from_str_radix(s, 16)` gives for `s`.
pub open spec fn parse_hex_u16(s: Seq<char>) -> Option<u16> {
    match parse_unsigned(s, 16, 0xffff) {
        Some(v) => Some(v as u16),
        None => None,
    }
}

/// What std's `str::parse::<u32>` gives for `s`.
pub open spec fn parse_u32(s: Seq<char>) -> Option<u32> {
    match parse_unsigned(s, 10, 0xffff_ffff) {
        Some(v) => Some(v as u32),
        None => None,
    }
}

/// What std's `str::parse::<u64>` gives for `s`.
pub open spec fn parse_u64(s: Seq<char>) -> Option<u64> {
    match parse_unsigned(s, 10, 0xffff_ffff_ffff_ffff) {
        Some(v) => Some(v as u64),
        None => None,
    }
}

proof fn lemma_digits_value_grows(s: Seq<char>, radix: nat, k: int)
    requires
        1 <= radix,
        0 <= k <= s.len(),
    ensures
        digits_value(s.take(k), radix) <= digits_value(s, radix),
    decreases s.len() - k,
{
    if k < s.len() {
        lemma_digits_value_grows(s, radix, k + 1);
        assert(s.take(k + 1).drop_last() =~= s.take(k));
        let a = digits_value(s.take(k), radix);
        assert(a * radix >= a) by (nonlinear_arith)
            requires
                radix >= 1,
        ;
    } else {
        assert(s.take(k) =~= s);
    }
}

fn digit_of_char(c: char, radix: u32) -> (r: Option<u32>)
    requires
        2 <= radix <= 36,
    ensures
        match r {
            Some(v) => digit_value(c, radix as nat) == Some(v as nat),
            None => digit_value(c, radix as nat) is None,
        },
{
    let v: u32 = if '0' <= c && c <= '9' {
        (c as u32) - ('0' as u32)
    } else if 'a' <= c && c <= 'z' {
        (c as u32) - ('a' as u32) + 10
    } else if 'A' <= c && c <= 'Z' {
        (c as u32) - ('A' as u32) + 10
    } else {
        36
    };
    if v < radix {
        Some(v)
    } else {
        None
    }
}

/// The value of the digits `d` in `radix`, when they are all digits and the
/// value is at most `max`.
pub fn digits_to_u64(d: &[char], radix: u32, max: u64) -> (r: Option<u64>)
    requires
        2 <= radix <= 36,
    ensures
        r == (if all_digits(d@, radix as nat) && digits_value(d@, radix as nat) <= max {
            Some(digits_value(d@, radix as nat) as u64)
        } else {
            None::<u64>
        }),
{
    let mut acc: u64 = 0;
    let mut i: usize = 0;
    assert(d@.take(0) =~= Seq::<char>::empty());
    while i < d.len()
        invariant
            2 <= radix <= 36,
            i <= d@.len(),
            all_digits(d@.take(i as int), radix as nat),
            acc == digits_value(d@.take(i as int), radix as nat),
            acc <= max,
        decreases d@.len() - i,
    {
        let dv = match digit_of_char(d[i], radix) {
            Some(v) => v,
            None => {
                assert(!all_digits(d@, radix as nat)) by {
                    assert(digit_value(d@[i as int], radix as nat) is None);
                }
                return None;
            },
        };
        assert(d@.take(i + 1).drop_last() =~= d@.take(i as int));
        assert((acc as u128) * (radix as u128) <= 0xffff_ffff_ffff_ffffu128 * 36) by (nonlinear_arith)
            requires
                acc <= 0xffff_ffff_ffff_ffffu64,
                radix <= 36,
        ;
        let next: u128 = (acc as u128) * (radix as u128) + (dv as u128);
        assert(next == digits_value(d@.take(i + 1), radix as nat));
        if next > max as u128 {
            proof {
                if all_digits(d@, radix as nat) {
                    lemma_digits_value_grows(d@, radix as nat, i + 1);
                }
            }
            return None;
        }
        acc = next as u64;
        i = i + 1;
        assert(all_digits(d@.take(i as int), radix as nat)) by {
            assert forall|k: int| 0 <= k < i implies (#[trigger] digit_value(
                d@.take(i as int)[k],
                radix as nat,
            )) is Some by {
                if k < i - 1 {
                    assert(d@.take(i as int)[k] == d@.take(i - 1)[k]);
                }
            }
        }
    }
    assert(d@.take(d@.len() as int) =~= d@);
    Some(acc)
}

/// Parses `s` as an unsigned number of `radix` no larger than `max`, as std does.
pub fn parse_unsigned_chars(s: &[char], radix: u32, max: u64) -> (r: Option<u64>)
    requires
        2 <= radix <= 36,
    ensures
        r == (match parse_unsigned(s@, radix as nat, max as nat) {
            Some(v) => Some(v as u64),
            None => None::<u64>,
        }),
{
    if s.len() == 0 || (s.len() == 1 && (s[0] == '+' || s[0] == '-')) {
        return None;
    }
    if s[0] == '+' {
        let d = crate::text::skip_chars(s, 1);
        assert(d@ =~= s@.drop_first());
        digits_to_u64(d.as_slice(), radix, max)
    } else {
        digits_to_u64(s, radix, max)
    }
}

/// Parses `s` as std's `str::parse::<u16>` does.
pub fn parse_u16_chars(s: &[char]) -> (r: Option<u16>)
    ensures
        r == parse_u16(s@),
{
    match parse_unsigned_chars(s, 10, 0xffff) {
        Some(v) => Some(v as u16),
        None => None,
    }
}

/// Parses `s` as std's `u16::from_str_radix(s, 16)` does.
pub fn parse_hex_u16_chars(s: &[char]) -> (r: Option<u16>)
    ensures
        r == parse_hex_u16(s@),
{
    match parse_unsigned_chars(s, 16, 0xffff) {
        Some(v) => Some(v as u16),
        None => None,
    }
}

/// Parses `s` as std's `str::parse::<u32>` does.
pub fn parse_u32_chars(s: &[char]) -> (r: Option<u32>)
    ensures
        r == parse_u32(s@),
{
    match parse_unsigned_chars(s, 10, 0xffff_ffff) {
        Some(v) => Some(v as u32),
        None => None,
    }
}

/// Parses `s` as std's `str::parse::<u64>` does.
pub fn parse_u64_chars(s: &[char]) -> (r: Option<u64>)
    ensures
        r == parse_u64(s@),
{
    parse_unsigned_chars(s, 10, 0xffff_ffff_ffff_ffff)
}

/// Parses `s` as std's `str::parse::<i32>` does.
pub fn parse_i32_chars(s: &[char]) -> (r: Option<i32>)
    ensures
        r == parse_i32(s@),
{
    if s.len() == 0 || (s.len() == 1 && (s[0] == '+' || s[0] == '-')) {
        return None;
    }
    if s[0] == '-' {
        let d = crate::text::skip_chars(s, 1);
        assert(d@ =~= s@.drop_first());
        match digits_to_u64(d.as_slice(), 10, 0x8000_0000) {
            Some(v) => Some((0 - (v as i64)) as i32),
            None => None,
        }
    } else {
        let r = if s[0] == '+' {
            let d = crate::text::skip_chars(s, 1);
            assert(d@ =~= s@.drop_first());
            digits_to_u64(d.as_slice(), 10, 0x7fff_ffff)
        } else {
            digits_to_u64(s, 10, 0x7fff_ffff)
        };
        match r {
            Some(v) => Some(v as i32),
            None => None,
        }
    }
}

// ───────────────────────── laws ─────────────────────────

proof fn lemma_digit_char_value(d: nat)
    requires
        d < 10,
    ensures
        digit_value(crate::text::digit_char(d), 10) == Some(d),
{
}

/// The decimal digits of `n` are digits, and denote `n`.
pub proof fn lemma_dec_digits(n: nat)
    ensures
        all_digits(crate::text::dec_nat(n), 10),
        digits_value(crate::text::dec_nat(n), 10) == n,
        crate::text::dec_nat(n).len() >= 1,
    decreases n,
{
    let s = crate::text::dec_nat(n);
    if n < 10 {
        lemma_digit_char_value(n);
        assert(s.drop_last() =~= Seq::<char>::empty());
        assert(digits_value(s.drop_last(), 10) == 0);
        assert(s.last() == crate::text::digit_char(n));
        assert(digits_value(s, 10) == digits_value(s.drop_last(), 10) * 10 + n);
    } else {
        lemma_dec_digits(n / 10);
        lemma_digit_char_value(n % 10);
        let prev = crate::text::dec_nat(n / 10);
        assert(s.drop_last() =~= prev);
        assert(s.last() == crate::text::digit_char(n % 10));
        assert((n / 10) * 10 + n % 10 == n);
        assert(digits_value(s, 10) == digits_value(prev, 10) * 10 + (n % 10));
        assert forall|i: int| 0 <= i < s.len() implies (#[trigger] digit_value(s[i], 10)) is Some by {
            if i < prev.len() {
                assert(s[i] == prev[i]);
            }
        }
    }
}

/// Parsing the decimal digits of a number gives the number back, when it is
/// no larger than `max`.
pub proof fn law_parse_unsigned_dec(n: nat, max: nat)
    requires
        n <= max,
    ensures
        parse_unsigned(crate::text::dec_nat(n), 10, max) == Some(n),
{
    lemma_dec_digits(n);
    let s = crate::text::dec_nat(n);
    assert(digit_value(s[0], 10) is Some);
}

/// Parsing an `i32` written in decimal gives it back.
pub proof fn law_parse_i32_dec(n: i32)
    ensures
        parse_i32(crate::text::dec_int(n as int)) == Some(n),
{
    if n < 0 {
        let m = (-(n as int)) as nat;
        lemma_dec_digits(m);
        let s = crate::text::dec_int(n as int);
        assert(s.drop_first() =~= crate::text::dec_nat(m));
        assert(s[0] == '-');
    } else {
        law_parse_unsigned_dec(n as nat, 0x7fff_ffff);
        lemma_dec_digits(n as nat);
        let s = crate::text::dec_nat(n as nat);
        assert(digit_value(s[0], 10) is Some);
    }
}

} // verus!
