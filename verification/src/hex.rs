//! Lowercase (and, for the mixed-case address, uppercase) hex encoding.

use vstd::prelude::*;
use crate::text::push_char;

verus! {

/// The lowercase hex character of a nibble value.
pub open spec fn hex_char(n: u8) -> char
    recommends
        n < 16,
{
    if n == 0 {
        '0'
    } else if n == 1 {
        '1'
    } else if n == 2 {
        '2'
    } else if n == 3 {
        '3'
    } else if n == 4 {
        '4'
    } else if n == 5 {
        '5'
    } else if n == 6 {
        '6'
    } else if n == 7 {
        '7'
    } else if n == 8 {
        '8'
    } else if n == 9 {
        '9'
    } else if n == 10 {
        'a'
    } else if n == 11 {
        'b'
    } else if n == 12 {
        'c'
    } else if n == 13 {
        'd'
    } else if n == 14 {
        'e'
    } else {
        'f'
    }
}

/// The uppercase hex character of a nibble value; digits are unchanged.
pub open spec fn hex_char_upper(n: u8) -> char
    recommends
        n < 16,
{
    if n < 10 {
        hex_char(n)
    } else if n == 10 {
        'A'
    } else if n == 11 {
        'B'
    } else if n == 12 {
        'C'
    } else if n == 13 {
        'D'
    } else if n == 14 {
        'E'
    } else {
        'F'
    }
}

/// A character that can appear in a hex rendering, either case.
pub open spec fn is_hex_char(c: char) -> bool {
    exists|n: u8| n < 16 && (c == hex_char(n) || c == hex_char_upper(n))
}

/// Two lowercase hex characters for each byte, in order, high nibble
/// first; no separators and no prefix.
pub open spec fn hex_seq(s: Seq<u8>) -> Seq<char> {
    Seq::new(
        2 * s.len(),
        |i: int| if i % 2 == 0 {
            hex_char(s[i / 2] / 16)
        } else {
            hex_char(s[i / 2] % 16)
        },
    )
}

/// The ASCII code of a character of a lowercase hex rendering.
pub open spec fn ascii_of_hex_char(n: u8) -> u8
    recommends
        n < 16,
{
    if n < 10 {
        (0x30 + n) as u8
    } else {
        (0x57 + n) as u8
    }
}

/// The ASCII bytes of the lowercase hex rendering of `s`.
pub open spec fn hex_ascii_seq(s: Seq<u8>) -> Seq<u8> {
    Seq::new(
        2 * s.len(),
        |i: int| if i % 2 == 0 {
            ascii_of_hex_char(s[i / 2] / 16)
        } else {
            ascii_of_hex_char(s[i / 2] % 16)
        },
    )
}

/// The lowercase hex character of a nibble, as an executable value.
pub fn hex_char_of(n: u8) -> (c: char)
    requires
        n < 16,
    ensures
        c == hex_char(n),
        is_hex_char(c),
{
    let c = match n {
        0 => '0',
        1 => '1',
        2 => '2',
        3 => '3',
        4 => '4',
        5 => '5',
        6 => '6',
        7 => '7',
        8 => '8',
        9 => '9',
        10 => 'a',
        11 => 'b',
        12 => 'c',
        13 => 'd',
        14 => 'e',
        _ => 'f',
    };
    proof {
        assert(c == hex_char(n));
    }
    c
}

/// The uppercase hex character of a nibble, as an executable value.
pub fn hex_char_upper_of(n: u8) -> (c: char)
    requires
        n < 16,
    ensures
        c == hex_char_upper(n),
        is_hex_char(c),
{
    let c = match n {
        0 => '0',
        1 => '1',
        2 => '2',
        3 => '3',
        4 => '4',
        5 => '5',
        6 => '6',
        7 => '7',
        8 => '8',
        9 => '9',
        10 => 'A',
        11 => 'B',
        12 => 'C',
        13 => 'D',
        14 => 'E',
        _ => 'F',
    };
    proof {
        assert(c == hex_char_upper(n));
        assert(n < 10 ==> c == hex_char(n));
    }
    c
}

/// Renders bytes as lowercase hex: two characters per byte, no
/// separators, no prefix.
pub fn bytes_to_hex(bytes: &[u8]) -> (r: String)
    ensures
        r@ == hex_seq(bytes@),
        r@.len() == 2 * bytes@.len(),
{
    let mut out = String::new();
    let mut i: usize = 0;
    while i < bytes.len()
        invariant
            i <= bytes.len(),
            out@ == hex_seq(bytes@).take(2 * i as int),
        decreases bytes.len() - i,
    {
        let b = bytes[i];
        push_char(&mut out, hex_char_of(b / 16));
        push_char(&mut out, hex_char_of(b % 16));
        i += 1;
        proof {
            assert(out@ =~= hex_seq(bytes@).take(2 * i as int));
        }
    }
    proof {
        assert(out@ =~= hex_seq(bytes@));
    }
    out
}

/// The ASCII bytes of the lowercase hex rendering.
pub fn bytes_to_hex_ascii(bytes: &[u8]) -> (r: Vec<u8>)
    ensures
        r@ == hex_ascii_seq(bytes@),
        r@.len() == 2 * bytes@.len(),
{
    let mut out: Vec<u8> = Vec::new();
    let mut i: usize = 0;
    while i < bytes.len()
        invariant
            i <= bytes.len(),
            out@ == hex_ascii_seq(bytes@).take(2 * i as int),
        decreases bytes.len() - i,
    {
        let b = bytes[i];
        let hi = b / 16;
        let lo = b % 16;
        out.push(if hi < 10 { 0x30 + hi } else { 0x57 + hi });
        out.push(if lo < 10 { 0x30 + lo } else { 0x57 + lo });
        i += 1;
        proof {
            assert(out@ =~= hex_ascii_seq(bytes@).take(2 * i as int));
        }
    }
    proof {
        assert(out@ =~= hex_ascii_seq(bytes@));
    }
    out
}

} // verus!
