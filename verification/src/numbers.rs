//! Integers as text: decimal and hexadecimal, written and read.
use vstd::prelude::*;

verus! {

/// The decimal digit `d`.
pub open spec fn digit(d: nat) -> char {
    ((48 + d) as u32) as char
}

/// `n` in decimal, without leading zeros.
pub open spec fn decimal(n: nat) -> Seq<char>
    decreases n,
{
    if n < 10 {
        seq![digit(n)]
    } else {
        decimal(n / 10).push(digit(n % 10))
    }
}

/// `n` in decimal with a leading minus sign when negative.
pub open spec fn decimal_int(n: int) -> Seq<char> {
    if n < 0 {
        seq!['-'] + decimal((-n) as nat)
    } else {
        decimal(n as nat)
    }
}

/// The value of the decimal digit `c`.
pub open spec fn digit_value(c: char) -> int {
    c as u32 - 48
}

pub open spec fn is_digit(c: char) -> bool {
    '0' <= c && c <= '9'
}

pub open spec fn all_digits(s: Seq<char>) -> bool {
    forall|i: int| 0 <= i < s.len() ==> is_digit(#[trigger] s[i])
}

/// The number that a run of decimal digits denotes.
pub open spec fn value(s: Seq<char>) -> int
    decreases s.len(),
{
    if s.len() == 0 {
        0
    } else {
        value(s.drop_last()) * 10 + digit_value(s.last())
    }
}

/// An unsigned integer of at most `max`: digits behind an optional `+`.
pub open spec fn parse_unsigned(s: Seq<char>, max: int) -> Option<int> {
    let d = if s.len() > 0 && s[0] == '+' {
        s.skip(1)
    } else {
        s
    };
    if d.len() > 0 && all_digits(d) && value(d) <= max {
        Some(value(d))
    } else {
        None
    }
}

/// An `i64`: digits behind an optional sign.
pub open spec fn parse_signed(s: Seq<char>) -> Option<int> {
    if s.len() > 0 && s[0] == '-' {
        let d = s.skip(1);
        if d.len() > 0 && all_digits(d) && -value(d) >= i64::MIN {
            Some(-value(d))
        } else {
            None
        }
    } else {
        parse_unsigned(s, i64::MAX as int)
    }
}

proof fn lemma_value_bounds(s: Seq<char>, i: int)
    requires
        all_digits(s),
        0 <= i <= s.len(),
    ensures
        0 <= value(s.take(i)) <= value(s),
    decreases s.len(),
{
    if i == s.len() {
        assert(s.take(i) =~= s);
        if s.len() > 0 {
            assert(s.drop_last() =~= s.take(i - 1));
            lemma_value_bounds(s.drop_last(), s.len() - 1);
            assert(s.drop_last().take(s.len() - 1) =~= s.drop_last());
        }
    } else {
        lemma_value_bounds(s.drop_last(), i);
        assert(s.drop_last().take(i) =~= s.take(i));
    }
}

/// A number that was read lies in its range.
pub proof fn lemma_parse_unsigned(s: Seq<char>, max: int)
    ensures
        parse_unsigned(s, max) matches Some(i) ==> 0 <= i <= max,
{
    let d = if s.len() > 0 && s[0] == '+' {
        s.skip(1)
    } else {
        s
    };
    if all_digits(d) {
        lemma_value_bounds(d, 0);
        assert(d.take(0) =~= Seq::<char>::empty());
    }
}

/// The value of the digits of `s` from `from` on, if it is at most `max`.
fn digits_from(s: &[char], from: usize, max: u64) -> (r: Option<u64>)
    requires
        from <= s@.len(),
    ensures
        match r {
            Some(v) => s@.skip(from as int).len() > 0 && all_digits(s@.skip(from as int)) && v
                == value(s@.skip(from as int)) && v <= max,
            None => !(s@.skip(from as int).len() > 0 && all_digits(s@.skip(from as int)) && value(
                s@.skip(from as int),
            ) <= max),
        },
{
    let ghost d = s@.skip(from as int);
    if from == s.len() {
        return None;
    }
    let mut i: usize = from;
    let mut acc: u64 = 0;
    while i < s.len()
        invariant
            from <= i <= s.len(),
            d == s@.skip(from as int),
            all_digits(d.take(i - from)),
            acc == value(d.take(i - from)),
            acc <= max,
        decreases s.len() - i,
    {
        let c: char = s[i];
        let ghost k = i - from;
        assert(d[k] == c);
        if !('0' <= c && c <= '9') {
            assert(!is_digit(d[k]));
            return None;
        }
        let v: u64 = (c as u32 - 48) as u64;
        assert(d.take(k + 1).drop_last() =~= d.take(k));
        assert(d.take(k + 1).last() == c);
        assert(value(d.take(k + 1)) == acc * 10 + v);
        if v > max || acc > max / 10 || acc * 10 > max - v {
            proof {
                assert(acc * 10 + v > max);
                if all_digits(d) {
                    lemma_value_bounds(d, k + 1);
                }
            }
            return None;
        }
        assert forall|j: int| 0 <= j < d.take(k + 1).len() implies is_digit(
            #[trigger] d.take(k + 1)[j],
        ) by {
            if j < k {
                assert(is_digit(d.take(k)[j]));
            }
        }
        acc = acc * 10 + v;
        i = i + 1;
    }
    assert(d.take(i - from) =~= d);
    Some(acc)
}

/// Reads an unsigned integer of at most `max` (`str::parse` on an unsigned
/// type with that maximum).
pub fn read_unsigned(s: &str, max: u64) -> (r: Option<u64>)
    ensures
        match r {
            Some(v) => parse_unsigned(s@, max as int) == Some(v as int),
            None => parse_unsigned(s@, max as int) is None,
        },
{
    let a = crate::text::chars_of(s);
    if a.len() > 0 && a[0] == '+' {
        digits_from(a.as_slice(), 1, max)
    } else {
        assert(a@.skip(0) =~= a@);
        digits_from(a.as_slice(), 0, max)
    }
}

/// Reads a `usize` (`str::parse::<usize>`).
pub fn read_usize(s: &str) -> (r: Option<usize>)
    ensures
        match r {
            Some(v) => parse_unsigned(s@, usize::MAX as int) == Some(v as int),
            None => parse_unsigned(s@, usize::MAX as int) is None,
        },
{
    match read_unsigned(s, usize::MAX as u64) {
        Some(v) => Some(v as usize),
        None => None,
    }
}

/// Reads an `i64` (`str::parse::<i64>`).
pub fn read_i64(s: &str) -> (r: Option<i64>)
    ensures
        match r {
            Some(v) => parse_signed(s@) == Some(v as int),
            None => parse_signed(s@) is None,
        },
{
    let a = crate::text::chars_of(s);
    if a.len() > 0 && a[0] == '-' {
        match digits_from(a.as_slice(), 1, 9223372036854775808) {
            Some(v) => {
                if v == 9223372036854775808 {
                    Some(i64::MIN)
                } else {
                    Some(-(v as i64))
                }
            },
            None => None,
        }
    } else {
        match read_unsigned(s, i64::MAX as u64) {
            Some(v) => Some(v as i64),
            None => None,
        }
    }
}

/// `n` in decimal (`u64::to_string`).
pub fn decimal_u64(n: u64) -> (r: String)
    ensures
        r@ == decimal(n as nat),
    decreases n,
{
    let d: u8 = (n % 10) as u8;
    if n < 10 {
        let mut out = String::new();
        out.push((48 + d) as char);
        out
    } else {
        let mut out = decimal_u64(n / 10);
        out.push((48 + d) as char);
        out
    }
}

/// `n` in decimal (`i64::to_string`).
pub fn decimal_i64(n: i64) -> (r: String)
    ensures
        r@ == decimal_int(n as int),
{
    if n >= 0 {
        decimal_u64(n as u64)
    } else if n == i64::MIN {
        let m = decimal_u64(9223372036854775808);
        let mut out = String::new();
        out.push('-');
        out.append(m.as_str());
        out
    } else {
        let m = decimal_u64((-n) as u64);
        let mut out = String::new();
        out.push('-');
        out.append(m.as_str());
        out
    }
}

// ---------------------------------------------------------------------------
// Hexadecimal
// ---------------------------------------------------------------------------
/// The hexadecimal digit `d`, in lower case.
pub open spec fn hex_digit(d: int) -> char {
    if d < 10 {
        ((48 + d) as u32) as char
    } else {
        ((87 + d) as u32) as char
    }
}

/// The lowest `width` hexadecimal digits of `n`.
pub open spec fn hex(n: int, width: nat) -> Seq<char>
    decreases width,
{
    if width == 0 {
        Seq::empty()
    } else {
        hex(n / 16, (width - 1) as nat).push(hex_digit(n % 16))
    }
}

pub open spec fn is_hex_digit(c: char) -> bool {
    ('0' <= c && c <= '9') || ('a' <= c && c <= 'f') || ('A' <= c && c <= 'F')
}

pub open spec fn all_hex(s: Seq<char>) -> bool {
    forall|i: int| 0 <= i < s.len() ==> is_hex_digit(#[trigger] s[i])
}

/// The value of a hexadecimal digit.
pub open spec fn hex_digit_value(c: char) -> int {
    if c <= '9' {
        c as u32 - 48
    } else if c <= 'F' {
        c as u32 - 55
    } else {
        c as u32 - 87
    }
}

/// The number that a run of hexadecimal digits denotes.
pub open spec fn hex_value(s: Seq<char>) -> int
    decreases s.len(),
{
    if s.len() == 0 {
        0
    } else {
        hex_value(s.drop_last()) * 16 + hex_digit_value(s.last())
    }
}

/// A hexadecimal number behind an optional `+`.
pub open spec fn parse_hex(s: Seq<char>) -> Option<int> {
    let d = if s.len() > 0 && s[0] == '+' {
        s.skip(1)
    } else {
        s
    };
    if d.len() > 0 && all_hex(d) {
        Some(hex_value(d))
    } else {
        None
    }
}

/// The digits of `hex` are digits, and denote the number they were made of.
pub proof fn lemma_hex(n: int, width: nat)
    requires
        0 <= n < vstd::arithmetic::power::pow(16, width),
    ensures
        hex(n, width).len() == width,
        forall|i: int| 0 <= i < width ==> is_hex_digit(#[trigger] hex(n, width)[i]) && hex(n, width)[i]
            != '+' && (hex(n, width)[i] as u32) < 0x80,
        hex_value(hex(n, width)) == n,
    decreases width,
{
    reveal(vstd::arithmetic::power::pow);
    if width > 0 {
        let w = (width - 1) as nat;
        assert(vstd::arithmetic::power::pow(16, width) == 16 * vstd::arithmetic::power::pow(16, w));
        assert(n / 16 < vstd::arithmetic::power::pow(16, w));
        lemma_hex(n / 16, w);
        let h = hex(n, width);
        assert(h.drop_last() =~= hex(n / 16, w));
        assert forall|i: int| 0 <= i < width implies is_hex_digit(#[trigger] h[i]) && h[i] != '+' && (
        h[i] as u32) < 0x80 by {
            if i < w {
                assert(h[i] == hex(n / 16, w)[i]);
            }
        }
        assert(hex_digit_value(hex_digit(n % 16)) == n % 16);
    }
}

/// The digit `d` as a character.
fn hex_char(d: u8) -> (r: char)
    requires
        d < 16,
    ensures
        r == hex_digit(d as int),
{
    if d < 10 {
        (48 + d) as char
    } else {
        (87 + d) as char
    }
}

/// `n` in `width` hexadecimal digits.
pub fn hex_u32(n: u32, width: usize) -> (r: String)
    ensures
        r@ == hex(n as int, width as nat),
    decreases width,
{
    if width == 0 {
        String::new()
    } else {
        let mut out = hex_u32(n / 16, width - 1);
        out.push(hex_char((n % 16) as u8));
        out
    }
}

/// Bytes in hexadecimal, two digits each.
pub open spec fn hex_bytes(bytes: Seq<u8>) -> Seq<char>
    decreases bytes.len(),
{
    if bytes.len() == 0 {
        Seq::empty()
    } else {
        hex_bytes(bytes.drop_last()).push(hex_digit(bytes.last() as int / 16)).push(
            hex_digit(bytes.last() as int % 16),
        )
    }
}

/// Bytes in lower-case hexadecimal.
pub fn hex_lower(bytes: &[u8]) -> (r: String)
    ensures
        r@ == hex_bytes(bytes@),
{
    let mut out = String::new();
    let mut i: usize = 0;
    while i < bytes.len()
        invariant
            i <= bytes.len(),
            out@ == hex_bytes(bytes@.take(i as int)),
        decreases bytes.len() - i,
    {
        out.push(hex_char(bytes[i] / 16));
        out.push(hex_char(bytes[i] % 16));
        assert(bytes@.take(i + 1).drop_last() =~= bytes@.take(i as int));
        i = i + 1;
    }
    assert(bytes@.take(i as int) =~= bytes@);
    out
}

/// Two hexadecimal digits are written for every byte.
pub proof fn law_hex_bytes_len(bytes: Seq<u8>)
    ensures
        hex_bytes(bytes).len() == 2 * bytes.len(),
    decreases bytes.len(),
{
    if bytes.len() > 0 {
        law_hex_bytes_len(bytes.drop_last());
    }
}

/// Reads a hexadecimal number of at most six digits.
pub fn read_hex(s: &[char]) -> (r: Option<u32>)
    requires
        s@.len() <= 6,
    ensures
        match r {
            Some(v) => parse_hex(s@) == Some(v as int),
            None => parse_hex(s@) is None,
        },
{
    let from: usize = if s.len() > 0 && s[0] == '+' {
        1
    } else {
        0
    };
    let ghost d = s@.skip(from as int);
    assert(s@.skip(0) =~= s@);
    if from == s.len() {
        return None;
    }
    let mut acc: u32 = 0;
    let mut i: usize = from;
    let mut bound: u32 = 1;
    while i < s.len()
        invariant
            from <= i <= s.len(),
            s@.len() <= 6,
            d == s@.skip(from as int),
            d == (if s@.len() > 0 && s@[0] == '+' {
                s@.skip(1)
            } else {
                s@
            }),
            forall|k: int| 0 <= k < i - from ==> is_hex_digit(#[trigger] d[k]),
            acc == hex_value(d.take(i - from)),
            acc < bound,
            i - from == 0 ==> bound == 1,
            i - from == 1 ==> bound == 16,
            i - from == 2 ==> bound == 256,
            i - from == 3 ==> bound == 4096,
            i - from == 4 ==> bound == 65536,
            i - from == 5 ==> bound == 1048576,
            i - from == 6 ==> bound == 16777216,
        decreases s.len() - i,
    {
        let c: char = s[i];
        assert(d[i - from] == c);
        let v: u32 = if '0' <= c && c <= '9' {
            c as u32 - 48
        } else if 'a' <= c && c <= 'f' {
            c as u32 - 87
        } else if 'A' <= c && c <= 'F' {
            c as u32 - 55
        } else {
            assert(!is_hex_digit(d[i - from]));
            return None;
        };
        assert(d.take(i - from + 1).drop_last() =~= d.take(i - from));
        acc = acc * 16 + v;
        bound = bound * 16;
        i = i + 1;
    }
    assert(d.take(i - from) =~= d);
    Some(acc)
}

// ---------------------------------------------------------------------------
// Laws
// ---------------------------------------------------------------------------
proof fn lemma_decimal(n: nat)
    ensures
        decimal(n).len() > 0,
        all_digits(decimal(n)),
        value(decimal(n)) == n,
    decreases n,
{
    if n < 10 {
        assert(decimal(n).drop_last() =~= Seq::empty());
        assert(value(decimal(n).drop_last()) == 0);
        assert(digit_value(digit(n)) == n);
    } else {
        lemma_decimal(n / 10);
        let s = decimal(n);
        assert(s.drop_last() =~= decimal(n / 10));
        assert(digit_value(digit(n % 10)) == n % 10);
        assert(n == (n / 10) * 10 + n % 10);
        assert forall|i: int| 0 <= i < s.len() implies is_digit(#[trigger] s[i]) by {
            if i < s.len() - 1 {
                assert(s[i] == decimal(n / 10)[i]);
            }
        }
    }
}

/// A number written in decimal is read back.
pub proof fn law_decimal_reads_back(n: nat, max: int)
    ensures
        n <= max ==> parse_unsigned(decimal(n), max) == Some(n as int),
        n > max ==> parse_unsigned(decimal(n), max) is None,
        n <= i64::MAX ==> parse_signed(decimal(n)) == Some(n as int),
{
    lemma_decimal(n);
    assert(is_digit(decimal(n)[0]));
}

/// A number with its sign, written in decimal, is read back.
pub proof fn law_signed_reads_back(n: i64)
    ensures
        parse_signed(decimal_int(n as int)) == Some(n as int),
{
    if n < 0 {
        let m = (-(n as int)) as nat;
        lemma_decimal(m);
        assert(decimal_int(n as int).skip(1) =~= decimal(m));
    } else {
        law_decimal_reads_back(n as nat, i64::MAX as int);
    }
}

/// Two numbers are written alike only if they are equal.
pub proof fn law_decimal_is_injective(a: nat, b: nat)
    ensures
        decimal(a) == decimal(b) ==> a == b,
{
    lemma_decimal(a);
    lemma_decimal(b);
}

/// Text that is not made of digits behind one optional sign is no number.
pub proof fn law_other_text_is_no_number(s: Seq<char>, i: int, max: int)
    requires
        0 <= i < s.len(),
        !is_digit(s[i]),
        i > 0 || s[0] != '+',
    ensures
        parse_unsigned(s, max) is None,
        i > 0 || s[0] != '-' ==> parse_signed(s) is None,
{
    if i > 0 {
        assert(s.skip(1)[i - 1] == s[i]);
    }
}

/// The digits of a byte are those of its two halves, in lower case.
pub proof fn law_hex_bytes_digits(bytes: Seq<u8>, i: int)
    requires
        0 <= i < bytes.len(),
    ensures
        hex_bytes(bytes).len() == 2 * bytes.len(),
        is_hex_digit(hex_bytes(bytes)[2 * i]) && is_hex_digit(hex_bytes(bytes)[2 * i + 1]),
        !('A' <= hex_bytes(bytes)[2 * i] <= 'F') && !('A' <= hex_bytes(bytes)[2 * i + 1] <= 'F'),
        hex_digit_value(hex_bytes(bytes)[2 * i]) * 16 + hex_digit_value(
            hex_bytes(bytes)[2 * i + 1],
        ) == bytes[i],
    decreases bytes.len(),
{
    law_hex_bytes_len(bytes);
    let rest = bytes.drop_last();
    law_hex_bytes_len(rest);
    if i < rest.len() {
        law_hex_bytes_digits(rest, i);
        assert(hex_bytes(bytes)[2 * i] == hex_bytes(rest)[2 * i]);
        assert(hex_bytes(bytes)[2 * i + 1] == hex_bytes(rest)[2 * i + 1]);
    } else {
        let b = bytes.last() as int;
        assert(b == (b / 16) * 16 + b % 16);
        assert(hex_bytes(bytes)[2 * i] == hex_digit(b / 16));
        assert(hex_bytes(bytes)[2 * i + 1] == hex_digit(b % 16));
    }
}

} // verus!
