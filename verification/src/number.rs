//! Reading and writing unsigned integers as text.

use vstd::prelude::*;

verus! {

/// The value of `c` as a digit in base `radix` (10 or 16), or -1 if it is none.
pub open spec fn digit_value(c: char, radix: nat) -> int {
    let u = c as u32;
    if 0x30 <= u <= 0x39 {
        u - 0x30
    } else if radix == 16 && 0x61 <= u <= 0x66 {
        u - 0x61 + 10
    } else if radix == 16 && 0x41 <= u <= 0x46 {
        u - 0x41 + 10
    } else {
        -1
    }
}

/// Every character of `s` is a digit in base `radix`.
pub open spec fn all_digits(s: Seq<char>, radix: nat) -> bool {
    forall|i: int| 0 <= i < s.len() ==> digit_value(#[trigger] s[i], radix) >= 0
}

/// The number that the digits `s` spell in base `radix`.
pub open spec fn digits_value(s: Seq<char>, radix: nat) -> int
    decreases s.len(),
{
    if s.len() == 0 {
        0
    } else {
        digits_value(s.drop_last(), radix) * radix + digit_value(s.last(), radix)
    }
}

/// The unsigned number that `s` spells in base `radix`, as
/// `from_str_radix` of an unsigned type reads it before its range check:
/// an optional `'+'`, then one or more digits.
pub open spec fn parse_uint(s: Seq<char>, radix: nat) -> Option<int> {
    let d = if s.len() > 0 && s[0] == '+' {
        s.drop_first()
    } else {
        s
    };
    if d.len() > 0 && all_digits(d, radix) {
        Some(digits_value(d, radix))
    } else {
        None
    }
}

/// `parse_uint` for a type whose largest value is `max`.
pub open spec fn parse_bounded(s: Seq<char>, radix: nat, max: int) -> Option<int> {
    match parse_uint(s, radix) {
        Some(v) => if v <= max {
            Some(v)
        } else {
            None
        },
        None => None,
    }
}

/// An optional machine integer as an optional mathematical one.
pub open spec fn opt_int(o: Option<u64>) -> Option<int> {
    match o {
        Some(x) => Some(x as int),
        None => None,
    }
}

proof fn lemma_digits_value_nonneg(s: Seq<char>, radix: nat)
    requires
        all_digits(s, radix),
    ensures
        digits_value(s, radix) >= 0,
    decreases s.len(),
{
    if s.len() > 0 {
        assert(all_digits(s.drop_last(), radix)) by {
            assert forall|i: int| 0 <= i < s.drop_last().len() implies digit_value(
                #[trigger] s.drop_last()[i],
                radix,
            ) >= 0 by {
                assert(s.drop_last()[i] == s[i]);
            }
        }
        lemma_digits_value_nonneg(s.drop_last(), radix);
        assert(digit_value(s[s.len() - 1], radix) >= 0);
        assert(digits_value(s.drop_last(), radix) * radix >= 0) by (nonlinear_arith)
            requires
                digits_value(s.drop_last(), radix) >= 0,
        ;
    }
}

/// A number never shrinks when digits are appended to it.
proof fn lemma_digits_value_prefix(s: Seq<char>, radix: nat, k: int)
    requires
        all_digits(s, radix),
        0 <= k <= s.len(),
        radix >= 1,
    ensures
        digits_value(s, radix) >= digits_value(s.take(k), radix),
    decreases s.len(),
{
    if k < s.len() {
        let t = s.drop_last();
        assert(all_digits(t, radix)) by {
            assert forall|i: int| 0 <= i < t.len() implies digit_value(#[trigger] t[i], radix)
                >= 0 by {
                assert(t[i] == s[i]);
            }
        }
        lemma_digits_value_prefix(t, radix, k);
        assert(t.take(k) =~= s.take(k));
        lemma_digits_value_nonneg(t, radix);
        assert(digit_value(s[s.len() - 1], radix) >= 0);
        let a = digits_value(t, radix);
        assert(a * radix >= a) by (nonlinear_arith)
            requires
                a >= 0,
                radix >= 1,
        ;
    } else {
        assert(s.take(k) =~= s);
    }
}

/// The value of digit `c` in base `radix`, or -1.
pub fn digit_value_exec(c: char, radix: u64) -> (d: i64)
    ensures
        d == digit_value(c, radix as nat),
{
    let u = c as u32;
    if 0x30 <= u && u <= 0x39 {
        (u - 0x30) as i64
    } else if radix == 16 && 0x61 <= u && u <= 0x66 {
        (u - 0x61 + 10) as i64
    } else if radix == 16 && 0x41 <= u && u <= 0x46 {
        (u - 0x41 + 10) as i64
    } else {
        -1
    }
}

/// Reads `v` as an unsigned number in base `radix` that must not exceed `max`
/// (what `from_str_radix` of an unsigned type with largest value `max` returns).
pub fn parse_uint_chars(v: &[char], radix: u64, max: u64) -> (r: Option<u64>)
    requires
        radix == 10 || radix == 16,
        max >= 15,
    ensures
        opt_int(r) == parse_bounded(v@, radix as nat, max as int),
{
    let n = v.len();
    let st: usize = if n > 0 && v[0] == '+' {
        1
    } else {
        0
    };
    let ghost d = v@.subrange(st as int, n as int);
    assert(d =~= (if v@.len() > 0 && v@[0] == '+' {
        v@.drop_first()
    } else {
        v@
    }));
    if st == n {
        return None;
    }
    let mut acc: u64 = 0;
    let mut i: usize = st;
    while i < n
        invariant
            n == v@.len(),
            st <= i <= n,
            d == v@.subrange(st as int, n as int),
            d == (if v@.len() > 0 && v@[0] == '+' {
                v@.drop_first()
            } else {
                v@
            }),
            radix == 10 || radix == 16,
            max >= 15,
            acc <= max,
            acc == digits_value(v@.subrange(st as int, i as int), radix as nat),
            all_digits(v@.subrange(st as int, i as int), radix as nat),
        decreases n - i,
    {
        let ghost pre = v@.subrange(st as int, i + 1);
        assert(pre.drop_last() =~= v@.subrange(st as int, i as int));
        assert(pre.last() == v@[i as int]);
        let dig = digit_value_exec(v[i], radix);
        if dig < 0 {
            assert(d[i - st] == v@[i as int]);
            assert(!all_digits(d, radix as nat));
            return None;
        }
        let dg = dig as u64;
        if acc > (max - dg) / radix {
            proof {
                assert(acc * radix + dg > max) by (nonlinear_arith)
                    requires
                        acc > ((max - dg) as u64) / radix,
                        radix > 0,
                        dg <= max,
                ;
                if all_digits(d, radix as nat) {
                    lemma_digits_value_prefix(d, radix as nat, (i + 1 - st) as int);
                    assert(d.take((i + 1 - st) as int) =~= pre);
                }
            }
            return None;
        }
        proof {
            assert(acc * radix + dg <= max) by (nonlinear_arith)
                requires
                    acc <= ((max - dg) as u64) / radix,
                    radix > 0,
                    dg <= max,
            ;
            assert(all_digits(pre, radix as nat)) by {
                assert forall|j: int| 0 <= j < pre.len() implies digit_value(
                    #[trigger] pre[j],
                    radix as nat,
                ) >= 0 by {
                    if j < pre.len() - 1 {
                        assert(pre[j] == v@.subrange(st as int, i as int)[j]);
                    }
                }
            }
        }
        acc = acc * radix + dg;
        i = i + 1;
    }
    Some(acc)
}

/// `u8::from_str_radix(s, radix)` on a character slice.
pub fn parse_u8_chars(v: &[char], radix: u64) -> (r: Option<u8>)
    requires
        radix == 10 || radix == 16,
    ensures
        r matches Some(x) ==> parse_bounded(v@, radix as nat, 0xff) == Some(x as int),
        r is None ==> parse_bounded(v@, radix as nat, 0xff) is None,
{
    match parse_uint_chars(v, radix, 0xff) {
        Some(x) => Some(x as u8),
        None => None,
    }
}

/// `u16::from_str_radix(s, radix)` on a character slice.
pub fn parse_u16_chars(v: &[char], radix: u64) -> (r: Option<u16>)
    requires
        radix == 10 || radix == 16,
    ensures
        r matches Some(x) ==> parse_bounded(v@, radix as nat, 0xffff) == Some(x as int),
        r is None ==> parse_bounded(v@, radix as nat, 0xffff) is None,
{
    match parse_uint_chars(v, radix, 0xffff) {
        Some(x) => Some(x as u16),
        None => None,
    }
}

/// `u32::from_str_radix(s, radix)` on a character slice.
pub fn parse_u32_chars(v: &[char], radix: u64) -> (r: Option<u32>)
    requires
        radix == 10 || radix == 16,
    ensures
        r matches Some(x) ==> parse_bounded(v@, radix as nat, 0xffff_ffff) == Some(x as int),
        r is None ==> parse_bounded(v@, radix as nat, 0xffff_ffff) is None,
{
    match parse_uint_chars(v, radix, 0xffff_ffff) {
        Some(x) => Some(x as u32),
        None => None,
    }
}

/// `u64::from_str_radix(s, radix)` on a character slice.
pub fn parse_u64_chars(v: &[char], radix: u64) -> (r: Option<u64>)
    requires
        radix == 10 || radix == 16,
    ensures
        opt_int(r) == parse_bounded(v@, radix as nat, 0xffff_ffff_ffff_ffff),
{
    parse_uint_chars(v, radix, 0xffff_ffff_ffff_ffff)
}

/// The character that writes digit `d` (`0`-`9`, then `a`-`f`).
pub open spec fn digit_char(d: int) -> char {
    if d < 10 {
        (0x30 + d) as char
    } else {
        (0x61 + d - 10) as char
    }
}

/// `n` written in decimal, as `format!("{}", n)` writes it.
pub open spec fn decimal(n: nat) -> Seq<char>
    decreases n,
{
    if n < 10 {
        seq![digit_char(n as int)]
    } else {
        decimal(n / 10).push(digit_char((n % 10) as int))
    }
}

/// `n` written in lower-case hexadecimal, as `format!("{:x}", n)` writes it.
pub open spec fn hex_lower(n: nat) -> Seq<char>
    decreases n,
{
    if n < 16 {
        seq![digit_char(n as int)]
    } else {
        hex_lower(n / 16).push(digit_char((n % 16) as int))
    }
}

/// The character for digit `d`.
pub fn digit_char_exec(d: u64) -> (c: char)
    requires
        d < 16,
    ensures
        c == digit_char(d as int),
{
    if d < 10 {
        ((0x30 + d) as u8) as char
    } else {
        ((0x61 + d - 10) as u8) as char
    }
}

/// Appends `n` in decimal to `s`.
pub fn push_decimal(s: &mut String, n: u64)
    ensures
        final(s)@ == old(s)@ + decimal(n as nat),
    decreases n,
{
    if n < 10 {
        s.push(digit_char_exec(n));
        assert(old(s)@.push(digit_char(n as int)) =~= old(s)@ + seq![digit_char(n as int)]);
    } else {
        push_decimal(s, n / 10);
        s.push(digit_char_exec(n % 10));
        assert(old(s)@ + decimal((n / 10) as nat) + seq![digit_char((n % 10) as int)] =~= old(s)@
            + decimal(n as nat));
    }
}

/// Appends `n` in lower-case hexadecimal to `s`.
pub fn push_hex_lower(s: &mut String, n: u64)
    ensures
        final(s)@ == old(s)@ + hex_lower(n as nat),
    decreases n,
{
    if n < 16 {
        s.push(digit_char_exec(n));
        assert(old(s)@.push(digit_char(n as int)) =~= old(s)@ + seq![digit_char(n as int)]);
    } else {
        push_hex_lower(s, n / 16);
        s.push(digit_char_exec(n % 16));
        assert(old(s)@ + hex_lower((n / 16) as nat) + seq![digit_char((n % 16) as int)]
            =~= old(s)@ + hex_lower(n as nat));
    }
}

/// `n.to_string()`.
pub fn decimal_string(n: u64) -> (s: String)
    ensures
        s@ == decimal(n as nat),
{
    let mut s = String::new();
    push_decimal(&mut s, n);
    assert(Seq::<char>::empty() + decimal(n as nat) =~= decimal(n as nat));
    s
}


/// The decimal text of `n` is made of digits, is not empty, and spells `n`.
pub proof fn lemma_decimal_digits(n: nat)
    ensures
        decimal(n).len() > 0,
        all_digits(decimal(n), 10),
        digits_value(decimal(n), 10) == n,
        forall|i: int| 0 <= i < decimal(n).len() ==> 0x30 <= (#[trigger] decimal(n)[i]) as u32 <= 0x39,
    decreases n,
{
    if n >= 10 {
        lemma_decimal_digits(n / 10);
        let d = decimal(n);
        let init = decimal(n / 10);
        assert(d.drop_last() =~= init);
        assert(d.last() == digit_char((n % 10) as int));
        assert(digit_value(d.last(), 10) == n % 10);
        assert(digits_value(d, 10) == digits_value(init, 10) * 10 + digit_value(d.last(), 10));
        assert(digits_value(d, 10) == n);
        assert forall|i: int| 0 <= i < d.len() implies 0x30 <= (#[trigger] d[i]) as u32 <= 0x39 by {
            if i < init.len() {
                assert(d[i] == init[i]);
            }
        }
        assert forall|i: int| 0 <= i < d.len() implies digit_value(#[trigger] d[i], 10) >= 0 by {
            if i < init.len() {
                assert(d[i] == init[i]);
            }
        }
    } else {
        let d = decimal(n);
        assert(d.drop_last() =~= Seq::<char>::empty());
        assert(digits_value(d.drop_last(), 10) == 0);
        assert(d.last() == digit_char(n as int));
        assert(digit_value(d.last(), 10) == n);
        assert(digits_value(d, 10) == digits_value(d.drop_last(), 10) * 10 + digit_value(d.last(), 10));
    }
}

/// Reading the decimal text of `n` gives `n` back.
pub proof fn lemma_decimal_parses_back(n: nat, max: int)
    requires
        n <= max,
    ensures
        parse_bounded(decimal(n), 10, max) == Some(n as int),
{
    lemma_decimal_digits(n);
    assert(decimal(n)[0] != '+');
}


/// Digit `d` in upper case (`0`-`9`, then `A`-`F`).
pub open spec fn upper_digit(d: int) -> char {
    if d < 10 {
        (0x30 + d) as char
    } else {
        (0x41 + d - 10) as char
    }
}

/// The last `w` hex digits of `n`, in upper case, with leading zeros: for
/// `n` of at most `w` digits, `format!("{:0w$X}", n)`.
pub open spec fn hex_upper_width(n: nat, w: nat) -> Seq<char>
    decreases w,
{
    if w == 0 {
        seq![]
    } else {
        hex_upper_width(n / 16, (w - 1) as nat).push(upper_digit((n % 16) as int))
    }
}

/// `n` has at most `w` hex digits.
pub open spec fn fits_hex(n: nat, w: nat) -> bool
    decreases w,
{
    if w == 0 {
        n == 0
    } else {
        fits_hex(n / 16, (w - 1) as nat)
    }
}

/// The `w`-digit upper-case hex text of a number of at most `w` digits has
/// `w` hex digits, none of them `':'` or `'+'`, and spells the number.
pub proof fn lemma_hex_upper_width(n: nat, w: nat)
    requires
        fits_hex(n, w),
    ensures
        hex_upper_width(n, w).len() == w,
        all_digits(hex_upper_width(n, w), 16),
        digits_value(hex_upper_width(n, w), 16) == n,
        forall|i: int| 0 <= i < w ==> #[trigger] hex_upper_width(n, w)[i] != ':' && hex_upper_width(n, w)[i] != '+',
    decreases w,
{
    if w > 0 {
        let m = (w - 1) as nat;
        lemma_hex_upper_width(n / 16, m);
        let t = hex_upper_width(n, w);
        let init = hex_upper_width(n / 16, m);
        let d = upper_digit((n % 16) as int);
        assert(t.drop_last() =~= init);
        assert(t.last() == d);
        assert(digit_value(d, 16) == n % 16);
        assert(digits_value(t, 16) == digits_value(init, 16) * 16 + digit_value(d, 16));
        assert forall|i: int| 0 <= i < t.len() implies digit_value(#[trigger] t[i], 16) >= 0 && t[i] != ':' && t[i] != '+' by {
            if i < init.len() {
                assert(t[i] == init[i]);
                assert(hex_upper_width(n / 16, m)[i] != ':');
            }
        }
    }
}

} // verus!
