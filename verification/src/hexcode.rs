//! Lowercase hexadecimal encoding: of byte strings (for fingerprints) and of
//! fixed-width 64-bit integers (for the cache snapshot), with a proved
//! round trip for the fixed-width form.
use vstd::prelude::*;

verus! {

/// The lowercase hexadecimal digit character for a value in `0..16`.
pub open spec fn hex_digit_char(d: int) -> char {
    if d == 0 {
        '0'
    } else if d == 1 {
        '1'
    } else if d == 2 {
        '2'
    } else if d == 3 {
        '3'
    } else if d == 4 {
        '4'
    } else if d == 5 {
        '5'
    } else if d == 6 {
        '6'
    } else if d == 7 {
        '7'
    } else if d == 8 {
        '8'
    } else if d == 9 {
        '9'
    } else if d == 10 {
        'a'
    } else if d == 11 {
        'b'
    } else if d == 12 {
        'c'
    } else if d == 13 {
        'd'
    } else if d == 14 {
        'e'
    } else if d == 15 {
        'f'
    } else {
        '?'
    }
}

/// The value of a lowercase hexadecimal digit character, or `-1` for any
/// other character.
pub open spec fn hex_char_val(c: char) -> int {
    if c == '0' {
        0
    } else if c == '1' {
        1
    } else if c == '2' {
        2
    } else if c == '3' {
        3
    } else if c == '4' {
        4
    } else if c == '5' {
        5
    } else if c == '6' {
        6
    } else if c == '7' {
        7
    } else if c == '8' {
        8
    } else if c == '9' {
        9
    } else if c == 'a' {
        10
    } else if c == 'b' {
        11
    } else if c == 'c' {
        12
    } else if c == 'd' {
        13
    } else if c == 'e' {
        14
    } else if c == 'f' {
        15
    } else {
        -1
    }
}

/// Decoding a digit character gives back the digit.
pub proof fn lemma_hex_digit_val(d: int)
    requires
        0 <= d < 16,
    ensures
        hex_char_val(hex_digit_char(d)) == d,
{
}

/// The lowercase hexadecimal encoding of a byte string, two digits per byte,
/// most significant nibble first.
pub open spec fn hex_of(bytes: Seq<u8>) -> Seq<char>
    decreases bytes.len(),
{
    if bytes.len() == 0 {
        Seq::empty()
    } else {
        hex_of(bytes.drop_last()) + seq![
            hex_digit_char(bytes.last() as int / 16),
            hex_digit_char(bytes.last() as int % 16),
        ]
    }
}

/// The digit character for a value below sixteen.
pub fn hex_digit(d: u8) -> (c: char)
    requires
        d < 16,
    ensures
        c == hex_digit_char(d as int),
{
    if d == 0 {
        '0'
    } else if d == 1 {
        '1'
    } else if d == 2 {
        '2'
    } else if d == 3 {
        '3'
    } else if d == 4 {
        '4'
    } else if d == 5 {
        '5'
    } else if d == 6 {
        '6'
    } else if d == 7 {
        '7'
    } else if d == 8 {
        '8'
    } else if d == 9 {
        '9'
    } else if d == 10 {
        'a'
    } else if d == 11 {
        'b'
    } else if d == 12 {
        'c'
    } else if d == 13 {
        'd'
    } else if d == 14 {
        'e'
    } else {
        'f'
    }
}

/// The value of a digit character, or `-1` for a non-digit.
pub fn hex_val(c: char) -> (v: i8)
    ensures
        v as int == hex_char_val(c),
{
    if c == '0' {
        0
    } else if c == '1' {
        1
    } else if c == '2' {
        2
    } else if c == '3' {
        3
    } else if c == '4' {
        4
    } else if c == '5' {
        5
    } else if c == '6' {
        6
    } else if c == '7' {
        7
    } else if c == '8' {
        8
    } else if c == '9' {
        9
    } else if c == 'a' {
        10
    } else if c == 'b' {
        11
    } else if c == 'c' {
        12
    } else if c == 'd' {
        13
    } else if c == 'e' {
        14
    } else if c == 'f' {
        15
    } else {
        -1
    }
}

/// Encodes a byte string as lowercase hexadecimal characters.
pub fn bytes_to_hex(bytes: &Vec<u8>) -> (r: Vec<char>)
    ensures
        r@ == hex_of(bytes@),
        r@.len() == 2 * bytes@.len(),
{
    proof {
        lemma_hex_of_len(bytes@);
    }
    let mut r: Vec<char> = Vec::new();
    let mut i: usize = 0;
    while i < bytes.len()
        invariant
            i <= bytes@.len(),
            r@ == hex_of(bytes@.take(i as int)),
        decreases bytes@.len() - i,
    {
        let b = bytes[i];
        r.push(hex_digit(b / 16));
        r.push(hex_digit(b % 16));
        proof {
            let pre = bytes@.take(i + 1 as int);
            assert(pre.drop_last() =~= bytes@.take(i as int));
            assert(pre.last() == bytes@[i as int]);
            assert(r@ =~= hex_of(pre));
        }
        i += 1;
    }
    proof {
        assert(bytes@.take(bytes@.len() as int) =~= bytes@);
    }
    r
}

/// The hexadecimal encoding is twice as long as its input.
pub proof fn lemma_hex_of_len(bytes: Seq<u8>)
    ensures
        hex_of(bytes).len() == 2 * bytes.len(),
    decreases bytes.len(),
{
    if bytes.len() > 0 {
        lemma_hex_of_len(bytes.drop_last());
    }
}

/// The fixed-width lowercase hexadecimal encoding of `n`, `width` digits,
/// most significant first.
pub open spec fn hex_u64(n: u64, width: nat) -> Seq<char>
    decreases width,
{
    if width == 0 {
        Seq::empty()
    } else {
        hex_u64(n / 16, (width - 1) as nat).push(hex_digit_char(n as int % 16))
    }
}

/// A fixed-width encoding has its width as length.
pub proof fn lemma_hex_u64_len(n: u64, width: nat)
    ensures
        hex_u64(n, width).len() == width,
    decreases width,
{
    if width > 0 {
        lemma_hex_u64_len(n / 16, (width - 1) as nat);
    }
}

/// Sixteen to the power `width`: the number of values a `width`-digit
/// encoding can carry.
pub open spec fn pow16(width: nat) -> nat
    decreases width,
{
    if width == 0 {
        1
    } else {
        16 * pow16((width - 1) as nat)
    }
}

/// The value read back from a sequence of hexadecimal digit characters,
/// most significant first; `None` if any character is not a digit.
pub open spec fn parse_hex(s: Seq<char>) -> Option<nat>
    decreases s.len(),
{
    if s.len() == 0 {
        Some(0)
    } else {
        match parse_hex(s.drop_last()) {
            Some(hi) => {
                let v = hex_char_val(s.last());
                if v < 0 {
                    None
                } else {
                    Some((hi * 16 + v) as nat)
                }
            },
            None => None,
        }
    }
}

/// A parsed digit string is below sixteen to the power of its length.
pub proof fn lemma_parse_hex_bound(s: Seq<char>)
    ensures
        parse_hex(s) matches Some(n) ==> n < pow16(s.len()),
    decreases s.len(),
{
    if s.len() > 0 {
        lemma_parse_hex_bound(s.drop_last());
    }
}

/// Parsing a fixed-width encoding of `n` gives back `n`.
pub proof fn lemma_hex_u64_roundtrip(n: u64, width: nat)
    requires
        (n as nat) < pow16(width),
    ensures
        parse_hex(hex_u64(n, width)) == Some(n as nat),
    decreases width,
{
    if width == 0 {
        assert(n == 0);
    } else {
        let q = n / 16;
        let m = n % 16;
        let w1 = (width - 1) as nat;
        assert(n as nat == 16 * (q as nat) + (m as nat));
        assert((q as nat) < pow16(w1));
        lemma_hex_u64_roundtrip(q, w1);
        lemma_hex_digit_val(m as int);
        let enc = hex_u64(n, width);
        assert(enc.drop_last() =~= hex_u64(q, (width - 1) as nat));
        assert(enc.last() == hex_digit_char(m as int));
    }
}

/// Sixteen to the sixteenth power is one more than `u64::MAX`: every `u64`
/// fits in sixteen digits.
pub proof fn lemma_pow16_16()
    ensures
        pow16(16) == 0x10000000000000000,
{
    reveal_with_fuel(pow16, 17);
}

/// Encodes `n` as exactly `width` hexadecimal digit characters.
pub fn hex_u64_chars(n: u64, width: usize) -> (r: Vec<char>)
    ensures
        r@ == hex_u64(n, width as nat),
    decreases width,
{
    if width == 0 {
        Vec::new()
    } else {
        let mut v = hex_u64_chars(n / 16, width - 1);
        v.push(hex_digit((n % 16) as u8));
        v
    }
}

/// Reads the digit characters of `s` between `start` and `end` back as a
/// number; `None` on a non-digit character.
pub fn parse_hex_range(s: &Vec<char>, start: usize, end: usize) -> (r: Option<u64>)
    requires
        start <= end <= s@.len(),
        end - start <= 16,
    ensures
        match r {
            Some(n) => parse_hex(s@.subrange(start as int, end as int)) == Some(n as nat),
            None => parse_hex(s@.subrange(start as int, end as int)) is None,
        },
    decreases end - start,
{
    if end == start {
        proof {
            assert(s@.subrange(start as int, end as int) =~= Seq::<char>::empty());
        }
        Some(0)
    } else {
        let hi_opt = parse_hex_range(s, start, end - 1);
        proof {
            let full = s@.subrange(start as int, end as int);
            assert(full.drop_last() =~= s@.subrange(start as int, end as int - 1));
            assert(full.last() == s@[end - 1 as int]);
        }
        match hi_opt {
            None => None,
            Some(hi) => {
                let v = hex_val(s[end - 1]);
                if v < 0 {
                    None
                } else {
                    proof {
                        lemma_parse_hex_bound(s@.subrange(start as int, end as int - 1));
                        lemma_pow16_cap(s@.subrange(start as int, end as int - 1).len());
                    }
                    Some(hi * 16 + (v as u64))
                }
            },
        }
    }
}

/// Sixteen to any power is at least one.
pub proof fn lemma_pow16_pos(width: nat)
    ensures
        pow16(width) >= 1,
    decreases width,
{
    if width > 0 {
        lemma_pow16_pos((width - 1) as nat);
    }
}

/// Powers of sixteen grow with the exponent.
pub proof fn lemma_pow16_mono(a: nat, b: nat)
    requires
        a <= b,
    ensures
        pow16(a) <= pow16(b),
    decreases b,
{
    if a < b {
        lemma_pow16_mono(a, (b - 1) as nat);
        lemma_pow16_pos((b - 1) as nat);
    }
}

/// For widths up to fifteen digits, the bound stays at a sixteenth of the
/// sixteen-digit range, so one more digit still fits in a `u64`.
pub proof fn lemma_pow16_cap(width: nat)
    requires
        width <= 15,
    ensures
        pow16(width) <= 0x1000000000000000,
{
    lemma_pow16_mono(width, 15);
    assert(pow16(15) == 0x1000000000000000) by {
        reveal_with_fuel(pow16, 16);
    };
}

} // verus!
