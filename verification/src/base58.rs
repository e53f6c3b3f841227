//! A verified Base58 codec over the Bitcoin alphabet.
//!
//! A byte string is encoded as one `'1'` character per leading zero byte,
//! followed by the base-58 digit expansion of its big-endian value.
//! Decoding is the exact inverse and rejects characters outside the
//! alphabet; `lemma_base58_round_trip` proves the round trip for every
//! byte sequence.

use vstd::prelude::*;
use vstd::arithmetic::div_mod::{
    lemma_div_decreases, lemma_fundamental_div_mod, lemma_fundamental_div_mod_converse,
    lemma_multiply_divide_lt,
};
use crate::errors::KeyError;
use crate::text::push_char;

verus! {

// ------------------------------------------------------------------
// Numeric model: positional digit strings and their values.
// ------------------------------------------------------------------

/// Value of a little-endian digit string in the given base.
pub open spec fn le_val(s: Seq<u8>, base: nat) -> nat
    decreases s.len(),
{
    if s.len() == 0 {
        0
    } else {
        s[0] as nat + base * le_val(s.skip(1), base)
    }
}

/// Value of a big-endian digit string in the given base.
pub open spec fn be_val(s: Seq<u8>, base: nat) -> nat
    decreases s.len(),
{
    if s.len() == 0 {
        0
    } else {
        be_val(s.drop_last(), base) * base + s.last() as nat
    }
}

/// The big-endian digit expansion of `n` in the given base: empty for
/// zero, and never with a leading zero digit.
pub open spec fn digits(n: nat, base: nat) -> Seq<u8>
    decreases n,
    via digits_decreases
{
    if n == 0 || base < 2 || base > 256 {
        Seq::empty()
    } else {
        digits(n / base, base).push((n % base) as u8)
    }
}

#[via_fn]
proof fn digits_decreases(n: nat, base: nat) {
    if !(n == 0 || base < 2 || base > 256) {
        lemma_div_decreases(n as int, base as int);
    }
}

/// How many zero bytes the string starts with.
pub open spec fn leading_zeros(s: Seq<u8>) -> nat
    decreases s.len(),
{
    if s.len() == 0 || s[0] != 0 {
        0
    } else {
        1 + leading_zeros(s.skip(1))
    }
}

/// How many `'1'` characters the string starts with.
pub open spec fn leading_one_chars(t: Seq<char>) -> nat
    decreases t.len(),
{
    if t.len() == 0 || t[0] != '1' {
        0
    } else {
        1 + leading_one_chars(t.skip(1))
    }
}

// ------------------------------------------------------------------
// The Bitcoin Base58 alphabet (0, O, I and l are excluded).
// ------------------------------------------------------------------

/// The alphabet character of a base-58 digit value.
pub open spec fn b58_char(d: u8) -> char
    recommends
        d < 58,
{
    if d == 0 {
        '1'
    } else if d == 1 {
        '2'
    } else if d == 2 {
        '3'
    } else if d == 3 {
        '4'
    } else if d == 4 {
        '5'
    } else if d == 5 {
        '6'
    } else if d == 6 {
        '7'
    } else if d == 7 {
        '8'
    } else if d == 8 {
        '9'
    } else if d == 9 {
        'A'
    } else if d == 10 {
        'B'
    } else if d == 11 {
        'C'
    } else if d == 12 {
        'D'
    } else if d == 13 {
        'E'
    } else if d == 14 {
        'F'
    } else if d == 15 {
        'G'
    } else if d == 16 {
        'H'
    } else if d == 17 {
        'J'
    } else if d == 18 {
        'K'
    } else if d == 19 {
        'L'
    } else if d == 20 {
        'M'
    } else if d == 21 {
        'N'
    } else if d == 22 {
        'P'
    } else if d == 23 {
        'Q'
    } else if d == 24 {
        'R'
    } else if d == 25 {
        'S'
    } else if d == 26 {
        'T'
    } else if d == 27 {
        'U'
    } else if d == 28 {
        'V'
    } else if d == 29 {
        'W'
    } else if d == 30 {
        'X'
    } else if d == 31 {
        'Y'
    } else if d == 32 {
        'Z'
    } else if d == 33 {
        'a'
    } else if d == 34 {
        'b'
    } else if d == 35 {
        'c'
    } else if d == 36 {
        'd'
    } else if d == 37 {
        'e'
    } else if d == 38 {
        'f'
    } else if d == 39 {
        'g'
    } else if d == 40 {
        'h'
    } else if d == 41 {
        'i'
    } else if d == 42 {
        'j'
    } else if d == 43 {
        'k'
    } else if d == 44 {
        'm'
    } else if d == 45 {
        'n'
    } else if d == 46 {
        'o'
    } else if d == 47 {
        'p'
    } else if d == 48 {
        'q'
    } else if d == 49 {
        'r'
    } else if d == 50 {
        's'
    } else if d == 51 {
        't'
    } else if d == 52 {
        'u'
    } else if d == 53 {
        'v'
    } else if d == 54 {
        'w'
    } else if d == 55 {
        'x'
    } else if d == 56 {
        'y'
    } else {
        'z'
    }
}

/// The digit value of an alphabet character; 58 marks a character
/// outside the alphabet.
pub open spec fn b58_digit(c: char) -> u8 {
    if c == '1' {
        0
    } else if c == '2' {
        1
    } else if c == '3' {
        2
    } else if c == '4' {
        3
    } else if c == '5' {
        4
    } else if c == '6' {
        5
    } else if c == '7' {
        6
    } else if c == '8' {
        7
    } else if c == '9' {
        8
    } else if c == 'A' {
        9
    } else if c == 'B' {
        10
    } else if c == 'C' {
        11
    } else if c == 'D' {
        12
    } else if c == 'E' {
        13
    } else if c == 'F' {
        14
    } else if c == 'G' {
        15
    } else if c == 'H' {
        16
    } else if c == 'J' {
        17
    } else if c == 'K' {
        18
    } else if c == 'L' {
        19
    } else if c == 'M' {
        20
    } else if c == 'N' {
        21
    } else if c == 'P' {
        22
    } else if c == 'Q' {
        23
    } else if c == 'R' {
        24
    } else if c == 'S' {
        25
    } else if c == 'T' {
        26
    } else if c == 'U' {
        27
    } else if c == 'V' {
        28
    } else if c == 'W' {
        29
    } else if c == 'X' {
        30
    } else if c == 'Y' {
        31
    } else if c == 'Z' {
        32
    } else if c == 'a' {
        33
    } else if c == 'b' {
        34
    } else if c == 'c' {
        35
    } else if c == 'd' {
        36
    } else if c == 'e' {
        37
    } else if c == 'f' {
        38
    } else if c == 'g' {
        39
    } else if c == 'h' {
        40
    } else if c == 'i' {
        41
    } else if c == 'j' {
        42
    } else if c == 'k' {
        43
    } else if c == 'm' {
        44
    } else if c == 'n' {
        45
    } else if c == 'o' {
        46
    } else if c == 'p' {
        47
    } else if c == 'q' {
        48
    } else if c == 'r' {
        49
    } else if c == 's' {
        50
    } else if c == 't' {
        51
    } else if c == 'u' {
        52
    } else if c == 'v' {
        53
    } else if c == 'w' {
        54
    } else if c == 'x' {
        55
    } else if c == 'y' {
        56
    } else if c == 'z' {
        57
    } else {
        58
    }
}

/// Every character of the string is in the alphabet.
pub open spec fn is_base58_str(t: Seq<char>) -> bool {
    forall|i: int| 0 <= i < t.len() ==> b58_digit(#[trigger] t[i]) < 58
}

/// Big-endian base-58 value of an alphabet string.
pub open spec fn b58_str_val(t: Seq<char>) -> nat
    decreases t.len(),
{
    if t.len() == 0 {
        0
    } else {
        b58_str_val(t.drop_last()) * 58 + b58_digit(t.last()) as nat
    }
}

/// The Base58 encoding of a byte string.
pub open spec fn base58_seq(s: Seq<u8>) -> Seq<char> {
    Seq::new(leading_zeros(s), |i: int| '1') + digits(be_val(s, 256), 58).map_values(
        |d: u8| b58_char(d),
    )
}

/// What a Base58 string decodes to: nothing if a character falls outside
/// the alphabet, else one zero byte per leading `'1'` followed by the
/// bytes of the string's base-58 value.
pub open spec fn base58_decode_seq(t: Seq<char>) -> Option<Seq<u8>> {
    if is_base58_str(t) {
        Some(Seq::new(leading_one_chars(t), |i: int| 0u8) + digits(b58_str_val(t), 256))
    } else {
        None
    }
}

/// The alphabet character of a digit, as an executable value.
pub fn b58_char_of(d: u8) -> (c: char)
    requires
        d < 58,
    ensures
        c == b58_char(d),
{
    match d {
        0 => '1',
        1 => '2',
        2 => '3',
        3 => '4',
        4 => '5',
        5 => '6',
        6 => '7',
        7 => '8',
        8 => '9',
        9 => 'A',
        10 => 'B',
        11 => 'C',
        12 => 'D',
        13 => 'E',
        14 => 'F',
        15 => 'G',
        16 => 'H',
        17 => 'J',
        18 => 'K',
        19 => 'L',
        20 => 'M',
        21 => 'N',
        22 => 'P',
        23 => 'Q',
        24 => 'R',
        25 => 'S',
        26 => 'T',
        27 => 'U',
        28 => 'V',
        29 => 'W',
        30 => 'X',
        31 => 'Y',
        32 => 'Z',
        33 => 'a',
        34 => 'b',
        35 => 'c',
        36 => 'd',
        37 => 'e',
        38 => 'f',
        39 => 'g',
        40 => 'h',
        41 => 'i',
        42 => 'j',
        43 => 'k',
        44 => 'm',
        45 => 'n',
        46 => 'o',
        47 => 'p',
        48 => 'q',
        49 => 'r',
        50 => 's',
        51 => 't',
        52 => 'u',
        53 => 'v',
        54 => 'w',
        55 => 'x',
        56 => 'y',
        _ => 'z',
    }
}

/// The digit value of a character, as an executable value; 58 marks a
/// character outside the alphabet.
pub fn b58_digit_of(c: char) -> (d: u8)
    ensures
        d == b58_digit(c),
{
    match c {
        '1' => 0,
        '2' => 1,
        '3' => 2,
        '4' => 3,
        '5' => 4,
        '6' => 5,
        '7' => 6,
        '8' => 7,
        '9' => 8,
        'A' => 9,
        'B' => 10,
        'C' => 11,
        'D' => 12,
        'E' => 13,
        'F' => 14,
        'G' => 15,
        'H' => 16,
        'J' => 17,
        'K' => 18,
        'L' => 19,
        'M' => 20,
        'N' => 21,
        'P' => 22,
        'Q' => 23,
        'R' => 24,
        'S' => 25,
        'T' => 26,
        'U' => 27,
        'V' => 28,
        'W' => 29,
        'X' => 30,
        'Y' => 31,
        'Z' => 32,
        'a' => 33,
        'b' => 34,
        'c' => 35,
        'd' => 36,
        'e' => 37,
        'f' => 38,
        'g' => 39,
        'h' => 40,
        'i' => 41,
        'j' => 42,
        'k' => 43,
        'm' => 44,
        'n' => 45,
        'o' => 46,
        'p' => 47,
        'q' => 48,
        'r' => 49,
        's' => 50,
        't' => 51,
        'u' => 52,
        'v' => 53,
        'w' => 54,
        'x' => 55,
        'y' => 56,
        'z' => 57,
        _ => 58,
    }
}

// ------------------------------------------------------------------
// Lemmas on digit strings.
// ------------------------------------------------------------------

proof fn lemma_be_val_push(s: Seq<u8>, v: u8, base: nat)
    ensures
        be_val(s.push(v), base) == be_val(s, base) * base + v,
{
    assert(s.push(v).drop_last() =~= s);
}

proof fn lemma_str_val_push(t: Seq<char>, c: char)
    ensures
        b58_str_val(t.push(c)) == b58_str_val(t) * 58 + b58_digit(c),
{
    assert(t.push(c).drop_last() =~= t);
}

/// A digit string of value zero is all zeros.
proof fn lemma_be_val_zero(s: Seq<u8>, base: nat)
    requires
        base >= 1,
        be_val(s, base) == 0,
    ensures
        forall|j: int| 0 <= j < s.len() ==> s[j] == 0,
    decreases s.len(),
{
    if s.len() > 0 {
        let f = s.drop_last();
        assert(be_val(f, base) * base + s.last() as nat == 0);
        assert(be_val(f, base) == 0) by (nonlinear_arith)
            requires
                be_val(f, base) * base + s.last() as nat == 0,
                base >= 1,
        ;
        lemma_be_val_zero(f, base);
        assert forall|j: int| 0 <= j < s.len() implies s[j] == 0 by {
            if j < s.len() - 1 {
                assert(s[j] == f[j]);
            } else {
                assert(s[j] == s.last());
            }
        }
    }
}

/// A leading zero byte does not change the value.
proof fn lemma_be_val_skip1(s: Seq<u8>, base: nat)
    requires
        s.len() > 0,
        s[0] == 0,
    ensures
        be_val(s.skip(1), base) == be_val(s, base),
    decreases s.len(),
{
    if s.len() == 1 {
        assert(s.drop_last() =~= Seq::<u8>::empty());
        assert(s.skip(1) =~= Seq::<u8>::empty());
        assert(s.last() == s[0]);
    } else {
        assert(s.skip(1).drop_last() =~= s.drop_last().skip(1));
        assert(s.skip(1).last() == s.last());
        assert(s.drop_last()[0] == s[0]);
        lemma_be_val_skip1(s.drop_last(), base);
    }
}

/// Leading zero bytes do not change the value.
proof fn lemma_be_val_skip_zeros(s: Seq<u8>, k: int, base: nat)
    requires
        0 <= k <= s.len(),
        forall|j: int| 0 <= j < k ==> s[j] == 0,
    ensures
        be_val(s.skip(k), base) == be_val(s, base),
    decreases k,
{
    if k == 0 {
        assert(s.skip(0) =~= s);
    } else {
        lemma_be_val_skip1(s, base);
        assert(s.skip(1).skip(k - 1) =~= s.skip(k));
        assert forall|j: int| 0 <= j < k - 1 implies s.skip(1)[j] == 0 by {
            assert(s.skip(1)[j] == s[j + 1]);
        }
        lemma_be_val_skip_zeros(s.skip(1), k - 1, base);
    }
}

/// Every digit of an expansion is below the base.
proof fn lemma_digits_in_range(n: nat, base: nat)
    requires
        2 <= base <= 256,
    ensures
        forall|i: int| 0 <= i < digits(n, base).len() ==> digits(n, base)[i] < base,
    decreases n,
{
    if n > 0 {
        lemma_div_decreases(n as int, base as int);
        lemma_digits_in_range(n / base, base);
        assert forall|i: int| 0 <= i < digits(n, base).len() implies digits(n, base)[i]
            < base by {
            if i < digits(n, base).len() - 1 {
                assert(digits(n, base)[i] == digits(n / base, base)[i]);
            } else {
                assert(digits(n, base)[i] == (n % base) as u8);
            }
        }
    }
}

/// The expansion of a positive number starts with a nonzero digit.
proof fn lemma_digits_first_nonzero(n: nat, base: nat)
    requires
        2 <= base <= 256,
        n > 0,
    ensures
        digits(n, base).len() > 0,
        digits(n, base)[0] != 0,
    decreases n,
{
    lemma_div_decreases(n as int, base as int);
    if n / base == 0 {
        lemma_fundamental_div_mod(n as int, base as int);
        assert(n % base == n);
        assert(digits(n / base, base) =~= Seq::<u8>::empty());
        assert(digits(n, base) == digits(n / base, base).push((n % base) as u8));
        assert(digits(n, base)[0] == (n % base) as u8);
    } else {
        lemma_digits_first_nonzero(n / base, base);
        assert(digits(n, base)[0] == digits(n / base, base)[0]);
    }
}

/// A big-endian digit string with no leading zero is the canonical
/// expansion of its own value.
proof fn lemma_be_canonical(s: Seq<u8>, base: nat)
    requires
        2 <= base <= 256,
        forall|i: int| 0 <= i < s.len() ==> s[i] < base,
        s.len() == 0 || s[0] != 0,
    ensures
        digits(be_val(s, base), base) == s,
    decreases s.len(),
{
    if s.len() == 0 {
        assert(digits(0, base) =~= s);
    } else {
        let f = s.drop_last();
        let l = s.last();
        let v = be_val(s, base);
        if v == 0 {
            lemma_be_val_zero(s, base);
            assert(s[0] == 0);
        }
        assert(l < base);
        lemma_fundamental_div_mod_converse(
            v as int,
            base as int,
            be_val(f, base) as int,
            l as int,
        );
        assert forall|i: int| 0 <= i < f.len() implies f[i] < base by {
            assert(f[i] == s[i]);
        }
        if f.len() > 0 {
            assert(f[0] == s[0]);
        }
        lemma_be_canonical(f, base);
        assert(digits(v, base) =~= s);
    }
}

/// Reversing a little-endian digit string gives the big-endian string of
/// the same value.
proof fn lemma_rev_le_val(d: Seq<u8>, base: nat)
    ensures
        be_val(d.reverse(), base) == le_val(d, base),
    decreases d.len(),
{
    if d.len() > 0 {
        let t = d.skip(1);
        lemma_rev_le_val(t, base);
        assert(d.reverse() =~= t.reverse().push(d[0]));
        lemma_be_val_push(t.reverse(), d[0], base);
        assert(le_val(t, base) * base == base * le_val(t, base)) by (nonlinear_arith);
    }
}

/// Dropping a trailing zero digit keeps the value.
proof fn lemma_le_val_drop_last_zero(d: Seq<u8>, base: nat)
    requires
        d.len() > 0,
        d.last() == 0,
    ensures
        le_val(d.drop_last(), base) == le_val(d, base),
    decreases d.len(),
{
    if d.len() == 1 {
        assert(d.drop_last() =~= Seq::<u8>::empty());
        assert(d.skip(1) =~= Seq::<u8>::empty());
    } else {
        assert(d.drop_last().skip(1) =~= d.skip(1).drop_last());
        assert(d.skip(1).last() == d.last());
        lemma_le_val_drop_last_zero(d.skip(1), base);
        assert(d.drop_last()[0] == d[0]);
        assert(le_val(d, base) == d[0] as nat + base * le_val(d.skip(1), base));
        assert(le_val(d.drop_last(), base) == d[0] as nat + base * le_val(
            d.drop_last().skip(1),
            base,
        ));
    }
}

/// The count of leading zero bytes, characterized.
proof fn lemma_leading_zeros_is(s: Seq<u8>, k: int)
    requires
        0 <= k <= s.len(),
        forall|j: int| 0 <= j < k ==> s[j] == 0,
        k == s.len() || s[k] != 0,
    ensures
        leading_zeros(s) == k,
    decreases k,
{
    if k > 0 {
        assert forall|j: int| 0 <= j < k - 1 implies s.skip(1)[j] == 0 by {
            assert(s.skip(1)[j] == s[j + 1]);
        }
        if k < s.len() {
            assert(s.skip(1)[k - 1] == s[k]);
        }
        lemma_leading_zeros_is(s.skip(1), k - 1);
    }
}

/// Facts the count of leading zero bytes carries.
proof fn lemma_leading_zeros_props(s: Seq<u8>)
    ensures
        leading_zeros(s) <= s.len(),
        forall|j: int| 0 <= j < leading_zeros(s) ==> s[j] == 0,
        leading_zeros(s) < s.len() ==> s[leading_zeros(s) as int] != 0,
    decreases s.len(),
{
    if s.len() > 0 && s[0] == 0 {
        lemma_leading_zeros_props(s.skip(1));
        let z = leading_zeros(s.skip(1));
        assert forall|j: int| 0 <= j < leading_zeros(s) implies s[j] == 0 by {
            if j > 0 {
                assert(s[j] == s.skip(1)[j - 1]);
            }
        }
        if z < s.skip(1).len() {
            assert(s[z + 1int] == s.skip(1)[z as int]);
        }
    }
}

/// The count of leading one characters, characterized.
proof fn lemma_leading_ones_is(t: Seq<char>, k: int)
    requires
        0 <= k <= t.len(),
        forall|j: int| 0 <= j < k ==> t[j] == '1',
        k == t.len() || t[k] != '1',
    ensures
        leading_one_chars(t) == k,
    decreases k,
{
    if k > 0 {
        assert forall|j: int| 0 <= j < k - 1 implies t.skip(1)[j] == '1' by {
            assert(t.skip(1)[j] == t[j + 1]);
        }
        if k < t.len() {
            assert(t.skip(1)[k - 1] == t[k]);
        }
        lemma_leading_ones_is(t.skip(1), k - 1);
    }
}

/// Digit and character views of the alphabet agree.
proof fn lemma_b58_alphabet(d: u8)
    requires
        d < 58,
    ensures
        b58_digit(b58_char(d)) == d,
{
}

/// A leading zero-valued character does not change the value.
proof fn lemma_str_val_skip1_zero(t: Seq<char>)
    requires
        t.len() > 0,
        b58_digit(t[0]) == 0,
    ensures
        b58_str_val(t.skip(1)) == b58_str_val(t),
    decreases t.len(),
{
    if t.len() == 1 {
        assert(t.drop_last() =~= Seq::<char>::empty());
        assert(t.skip(1) =~= Seq::<char>::empty());
        assert(t.last() == t[0]);
    } else {
        assert(t.skip(1).drop_last() =~= t.drop_last().skip(1));
        assert(t.skip(1).last() == t.last());
        assert(t.drop_last()[0] == t[0]);
        lemma_str_val_skip1_zero(t.drop_last());
    }
}

/// Leading `'1'` characters do not change the value.
proof fn lemma_str_val_skip_ones(t: Seq<char>, k: int)
    requires
        0 <= k <= t.len(),
        forall|j: int| 0 <= j < k ==> t[j] == '1',
    ensures
        b58_str_val(t.skip(k)) == b58_str_val(t),
    decreases k,
{
    if k == 0 {
        assert(t.skip(0) =~= t);
    } else {
        lemma_str_val_skip1_zero(t);
        assert(t.skip(1).skip(k - 1) =~= t.skip(k));
        assert forall|j: int| 0 <= j < k - 1 implies t.skip(1)[j] == '1' by {
            assert(t.skip(1)[j] == t[j + 1]);
        }
        lemma_str_val_skip_ones(t.skip(1), k - 1);
    }
}

/// Mapping an expansion through the alphabet and reading it back gives
/// the number.
proof fn lemma_str_val_of_digits(n: nat)
    ensures
        b58_str_val(digits(n, 58).map_values(|d: u8| b58_char(d))) == n,
    decreases n,
{
    if n == 0 {
        assert(digits(0, 58).map_values(|d: u8| b58_char(d)) =~= Seq::<char>::empty());
    } else {
        lemma_div_decreases(n as int, 58);
        lemma_str_val_of_digits(n / 58);
        let m = digits(n / 58, 58).map_values(|d: u8| b58_char(d));
        let last = (n % 58) as u8;
        assert(digits(n, 58).map_values(|d: u8| b58_char(d)) =~= m.push(b58_char(last)));
        lemma_str_val_push(m, b58_char(last));
        lemma_b58_alphabet(last);
        lemma_fundamental_div_mod(n as int, 58);
    }
}

// ------------------------------------------------------------------
// Executable conversion.
// ------------------------------------------------------------------

/// Multiply-accumulate on a little-endian digit string: from position
/// `i` on, the value becomes `mul` times what it was, plus `add`.
fn mul_add_digits(acc: &mut Vec<u8>, i: usize, mul: u32, add: u32, base: u32)
    requires
        i <= old(acc).len(),
        2 <= base <= 256,
        mul <= 256,
        add < mul,
        forall|j: int| 0 <= j < old(acc).len() ==> old(acc)[j] < base,
    ensures
        old(acc).len() <= final(acc).len(),
        final(acc)@.take(i as int) == old(acc)@.take(i as int),
        forall|j: int| 0 <= j < final(acc).len() ==> final(acc)[j] < base,
        le_val(final(acc)@.skip(i as int), base as nat) == le_val(
            old(acc)@.skip(i as int),
            base as nat,
        ) * mul + add,
    decreases old(acc).len() - i, add,
{
    if i == acc.len() {
        assert(old(acc)@.skip(i as int) =~= Seq::<u8>::empty());
        if add > 0 {
            let digit = (add % base) as u8;
            acc.push(digit);
            proof {
                lemma_div_decreases(add as int, base as int);
            }
            let ghost mid = acc@;
            let ni = acc.len();
            mul_add_digits(acc, ni, mul, add / base, base);
            proof {
                assert(mid.take(i as int) =~= old(acc)@.take(i as int));
                assert(acc@.take(i as int) =~= acc@.take(i + 1).take(i as int));
                assert(mid.skip(i + 1) =~= Seq::<u8>::empty());
                assert(acc@.take(i + 1) == mid.take(i + 1));
                assert(acc@[i as int] == digit) by {
                    assert(mid.take(i + 1)[i as int] == digit);
                }
                assert(acc@.skip(i as int).len() > 0);
                assert(acc@.skip(i as int)[0] == acc@[i as int]);
                assert(acc@.skip(i as int).skip(1) =~= acc@.skip(i + 1));
                assert(le_val(Seq::<u8>::empty(), base as nat) == 0);
                assert(le_val(mid.skip(ni as int), base as nat) == 0);
                assert(le_val(acc@.skip(ni as int), base as nat) == le_val(
                    mid.skip(ni as int),
                    base as nat,
                ) * mul + add / base);
                assert(le_val(acc@.skip(ni as int), base as nat) == (add / base) as nat)
                    by (nonlinear_arith)
                    requires
                        le_val(acc@.skip(ni as int), base as nat) == le_val(
                            mid.skip(ni as int),
                            base as nat,
                        ) * mul + add / base,
                        le_val(mid.skip(ni as int), base as nat) == 0,
                ;
                assert(ni as int == i + 1);
                assert(le_val(acc@.skip(i + 1), base as nat) == (add / base) as nat);
                assert(le_val(acc@.skip(i as int), base as nat) == digit as nat + (base as nat)
                    * le_val(acc@.skip(i as int).skip(1), base as nat));
                lemma_fundamental_div_mod(add as int, base as int);
                assert(add % base < 256);
                assert(digit as nat == (add % base) as nat);
                assert(le_val(acc@.skip(i as int), base as nat) == add);
            }
        }
        proof {
            let ghost ov = le_val(old(acc)@.skip(i as int), base as nat);
            assert(ov == 0);
            assert(ov * mul + add == add) by (nonlinear_arith)
                requires
                    ov == 0,
            ;
            if add == 0 {
                assert(acc@.skip(i as int) =~= old(acc)@.skip(i as int));
            }
        }
    } else {
        let oi = acc[i];
        let v: u32 = {
            proof {
                assert((oi as int) * (mul as int) + (add as int) < 65536) by (nonlinear_arith)
                    requires
                        oi < base,
                        base <= 256,
                        mul <= 256,
                        add < mul,
                ;
            }
            (oi as u32) * mul + add
        };
        let digit = (v % base) as u8;
        acc.set(i, digit);
        let carry = v / base;
        proof {
            assert((v as int) < (base as int) * (mul as int)) by (nonlinear_arith)
                requires
                    oi < base,
                    add < mul,
                    (v as int) == (oi as int) * (mul as int) + (add as int),
            ;
            lemma_multiply_divide_lt(v as int, base as int, mul as int);
        }
        let ghost mid = acc@;
        mul_add_digits(acc, i + 1, mul, carry, base);
        proof {
            let fin = acc@;
            let oldv = old(acc)@;
            assert(mid.skip(i + 1) =~= oldv.skip(i + 1));
            assert(fin[i as int] == digit) by {
                assert(fin.take(i + 1) == mid.take(i + 1));
                assert(mid.take(i + 1)[i as int] == digit);
            }
            assert(fin.take(i as int) =~= mid.take(i + 1).take(i as int));
            assert(mid.take(i as int) =~= oldv.take(i as int));
            assert(fin.skip(i as int)[0] == fin[i as int]);
            assert(fin.skip(i as int).skip(1) =~= fin.skip(i + 1));
            assert(oldv.skip(i as int)[0] == oldv[i as int]);
            assert(oldv.skip(i as int).skip(1) =~= oldv.skip(i + 1));
            let a = le_val(oldv.skip(i + 1), base as nat) as int;
            let fv = le_val(fin.skip(i + 1), base as nat) as int;
            assert(fv == a * mul + carry);
            lemma_fundamental_div_mod(v as int, base as int);
            assert((digit as int) + (base as int) * fv == ((oi as int) + (base as int) * a) * (
            mul as int) + (add as int)) by (nonlinear_arith)
                requires
                    (v as int) == (base as int) * (carry as int) + (digit as int),
                    (v as int) == (oi as int) * (mul as int) + (add as int),
                    fv == a * (mul as int) + (carry as int),
            ;
            assert(le_val(fin.skip(i as int), base as nat) == digit as nat + (base as nat)
                * le_val(fin.skip(i as int).skip(1), base as nat));
            assert(le_val(oldv.skip(i as int), base as nat) == oi as nat + (base as nat) * le_val(
                oldv.skip(i as int).skip(1),
                base as nat,
            ));
        }
    }
}

/// Encodes a byte string in Base58: one `'1'` per leading zero byte,
/// then the base-58 digit expansion of the big-endian value.
pub fn base58_encode(bytes: &[u8]) -> (r: String)
    ensures
        r@ == base58_seq(bytes@),
{
    let n = bytes.len();
    let mut z: usize = 0;
    while z < n && bytes[z] == 0
        invariant
            z <= n,
            n == bytes@.len(),
            forall|j: int| 0 <= j < z ==> bytes@[j] == 0,
        decreases n - z,
    {
        z += 1;
    }
    proof {
        lemma_leading_zeros_is(bytes@, z as int);
    }
    let ghost full = bytes@;
    let ghost v = be_val(full, 256);

    let mut digits_le: Vec<u8> = Vec::new();
    let mut i: usize = 0;
    while i < n
        invariant
            i <= n,
            n == bytes@.len(),
            forall|j: int| 0 <= j < digits_le@.len() ==> digits_le@[j] < 58,
            le_val(digits_le@, 58) == be_val(bytes@.take(i as int), 256),
        decreases n - i,
    {
        let ghost prev = digits_le@;
        let b = bytes[i];
        mul_add_digits(&mut digits_le, 0, 256, b as u32, 58);
        proof {
            assert(prev.skip(0) =~= prev);
            assert(digits_le@.skip(0) =~= digits_le@);
            assert(bytes@.take(i + 1) =~= bytes@.take(i as int).push(bytes@[i as int]));
            lemma_be_val_push(bytes@.take(i as int), b, 256);
        }
        i += 1;
    }
    proof {
        assert(bytes@.take(n as int) =~= full);
    }

    while digits_le.len() > 0 && digits_le[digits_le.len() - 1] == 0
        invariant
            forall|j: int| 0 <= j < digits_le@.len() ==> digits_le@[j] < 58,
            le_val(digits_le@, 58) == v,
        decreases digits_le.len(),
    {
        let ghost prev = digits_le@;
        digits_le.pop();
        proof {
            assert(digits_le@ =~= prev.drop_last());
            lemma_le_val_drop_last_zero(prev, 58);
        }
    }
    proof {
        lemma_rev_le_val(digits_le@, 58);
        let rev = digits_le@.reverse();
        assert forall|q: int| 0 <= q < rev.len() implies rev[q] < 58 by {
            assert(rev[q] == digits_le@[rev.len() - 1 - q]);
        }
        if rev.len() > 0 {
            assert(rev[0] == digits_le@.last());
        }
        lemma_be_canonical(rev, 58);
        assert(digits(v, 58) == rev);
    }

    let mut out = String::new();
    let mut j: usize = 0;
    while j < z
        invariant
            j <= z,
            out@ == Seq::new(j as nat, |q: int| '1'),
        decreases z - j,
    {
        push_char(&mut out, '1');
        j += 1;
        proof {
            assert(out@ =~= Seq::new(j as nat, |q: int| '1'));
        }
    }
    let ghost ones = Seq::new(z as nat, |q: int| '1');
    let ghost dchars = digits(v, 58).map_values(|d: u8| b58_char(d));
    let m = digits_le.len();
    let mut p: usize = 0;
    while p < m
        invariant
            p <= m,
            m == digits_le@.len(),
            forall|j2: int| 0 <= j2 < digits_le@.len() ==> digits_le@[j2] < 58,
            digits(v, 58) == digits_le@.reverse(),
            dchars == digits(v, 58).map_values(|d: u8| b58_char(d)),
            out@ == ones + dchars.take(p as int),
        decreases m - p,
    {
        let d = digits_le[m - 1 - p];
        let c = b58_char_of(d);
        push_char(&mut out, c);
        proof {
            assert(digits_le@.reverse()[p as int] == digits_le@[m - 1 - p]);
            assert(dchars[p as int] == b58_char(digits_le@[m - 1 - p]));
            assert(out@ =~= ones + dchars.take(p + 1));
        }
        p += 1;
    }
    proof {
        assert(dchars.take(m as int) =~= dchars);
        assert(out@ =~= base58_seq(full));
    }
    out
}

/// Decodes a Base58 string, the exact inverse of `base58_encode`: one
/// zero byte per leading `'1'`, then the bytes of the base-58 value.
/// A character outside the alphabet is rejected.
pub fn base58_decode(text: &str) -> (r: Result<Vec<u8>, KeyError>)
    ensures
        match r {
            Ok(v) => base58_decode_seq(text@) == Some(v@),
            Err(e) => {
                &&& base58_decode_seq(text@) is None
                &&& e == KeyError::InvalidEncodedInput
            },
        },
{
    let n = text.unicode_len();
    let mut k: usize = 0;
    while k < n && text.get_char(k) == '1'
        invariant
            k <= n,
            n == text@.len(),
            forall|j: int| 0 <= j < k ==> text@[j] == '1',
        decreases n - k,
    {
        k += 1;
    }
    proof {
        lemma_leading_ones_is(text@, k as int);
    }

    let mut acc: Vec<u8> = Vec::new();
    let mut i: usize = 0;
    while i < n
        invariant
            i <= n,
            n == text@.len(),
            forall|j: int| 0 <= j < i ==> b58_digit(#[trigger] text@[j]) < 58,
            le_val(acc@, 256) == b58_str_val(text@.take(i as int)),
        decreases n - i,
    {
        let c = text.get_char(i);
        let d = b58_digit_of(c);
        if d >= 58 {
            proof {
                assert(b58_digit(text@[i as int]) >= 58);
                assert(!is_base58_str(text@));
            }
            return Err(KeyError::InvalidEncodedInput);
        }
        let ghost prev = acc@;
        mul_add_digits(&mut acc, 0, 58, d as u32, 256);
        proof {
            assert(prev.skip(0) =~= prev);
            assert(acc@.skip(0) =~= acc@);
            assert(text@.take(i + 1) =~= text@.take(i as int).push(text@[i as int]));
            lemma_str_val_push(text@.take(i as int), text@[i as int]);
        }
        i += 1;
    }
    let ghost v = b58_str_val(text@);
    proof {
        assert(text@.take(n as int) =~= text@);
        assert(is_base58_str(text@));
    }

    while acc.len() > 0 && acc[acc.len() - 1] == 0
        invariant
            le_val(acc@, 256) == v,
        decreases acc.len(),
    {
        let ghost prev = acc@;
        acc.pop();
        proof {
            assert(acc@ =~= prev.drop_last());
            lemma_le_val_drop_last_zero(prev, 256);
        }
    }
    proof {
        lemma_rev_le_val(acc@, 256);
        let rev = acc@.reverse();
        if rev.len() > 0 {
            assert(rev[0] == acc@.last());
        }
        lemma_be_canonical(rev, 256);
        assert(digits(v, 256) == rev);
    }

    let mut out: Vec<u8> = Vec::new();
    let mut j: usize = 0;
    while j < k
        invariant
            j <= k,
            out@ == Seq::new(j as nat, |q: int| 0u8),
        decreases k - j,
    {
        out.push(0u8);
        j += 1;
        proof {
            assert(out@ =~= Seq::new(j as nat, |q: int| 0u8));
        }
    }
    let ghost zeros = Seq::new(k as nat, |q: int| 0u8);
    let m = acc.len();
    let mut p: usize = 0;
    while p < m
        invariant
            p <= m,
            m == acc@.len(),
            digits(v, 256) == acc@.reverse(),
            out@ == zeros + acc@.reverse().take(p as int),
        decreases m - p,
    {
        out.push(acc[m - 1 - p]);
        proof {
            assert(acc@.reverse()[p as int] == acc@[m - 1 - p]);
            assert(out@ =~= zeros + acc@.reverse().take(p + 1));
        }
        p += 1;
    }
    proof {
        assert(acc@.reverse().take(m as int) =~= acc@.reverse());
        assert(out@ =~= Seq::new(leading_one_chars(text@), |q: int| 0u8) + digits(
            b58_str_val(text@),
            256,
        ));
    }
    Ok(out)
}

// ------------------------------------------------------------------
// The round trip.
// ------------------------------------------------------------------

/// Decoding an encoding gives the bytes back, for every byte sequence,
/// and the encoding starts with exactly one `'1'` per leading zero byte.
pub proof fn lemma_base58_round_trip(s: Seq<u8>)
    ensures
        base58_decode_seq(base58_seq(s)) == Some(s),
        leading_one_chars(base58_seq(s)) == leading_zeros(s),
{
    let z = leading_zeros(s) as int;
    let v = be_val(s, 256);
    let ones = Seq::new(leading_zeros(s), |i: int| '1');
    let dchars = digits(v, 58).map_values(|d: u8| b58_char(d));
    let t = base58_seq(s);
    lemma_leading_zeros_props(s);
    lemma_digits_in_range(v, 58);

    assert forall|i: int| 0 <= i < t.len() implies b58_digit(#[trigger] t[i]) < 58 by {
        if i < z {
            assert(t[i] == '1');
        } else {
            let d = digits(v, 58)[i - z];
            assert(t[i] == b58_char(d));
            lemma_b58_alphabet(d);
        }
    }
    assert(is_base58_str(t));

    if v == 0 {
        lemma_be_val_zero(s, 256);
        assert(z == s.len());
        assert(digits(v, 58) =~= Seq::<u8>::empty());
        assert(dchars =~= Seq::<char>::empty());
        assert forall|j: int| 0 <= j < z implies t[j] == '1' by {}
        lemma_leading_ones_is(t, z);
    } else {
        let d0 = digits(v, 58)[0];
        lemma_digits_first_nonzero(v, 58);
        lemma_b58_alphabet(d0);
        assert(t[z] == b58_char(d0));
        assert(t[z] != '1');
        assert forall|j: int| 0 <= j < z implies t[j] == '1' by {}
        lemma_leading_ones_is(t, z);
    }

    assert forall|j: int| 0 <= j < z implies t[j] == '1' by {}
    lemma_str_val_skip_ones(t, z);
    assert(t.skip(z) =~= dchars);
    lemma_str_val_of_digits(v);
    assert(b58_str_val(t) == v);

    lemma_be_val_skip_zeros(s, z, 256);
    let tail = s.skip(z);
    if tail.len() > 0 {
        assert(tail[0] == s[z]);
    }
    lemma_be_canonical(tail, 256);
    assert(digits(v, 256) == tail);
    assert(Seq::new(leading_one_chars(t), |i: int| 0u8) + digits(b58_str_val(t), 256) =~= s);
}

} // verus!
