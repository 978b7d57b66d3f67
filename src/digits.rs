//! Digit strings: the textual forms of numbers and byte strings that key
//! names are built from.

use vstd::prelude::*;

verus! {

/// The lower-case digit for `d`, for `d < 16`.
pub open spec fn digit_char(d: nat) -> char {
    seq!['0', '1', '2', '3', '4', '5', '6', '7', '8', '9', 'a', 'b', 'c', 'd', 'e', 'f'][d as int]
}

/// `n` written in `base` (2 to 16) with lower-case digits, most significant
/// first, with no leading zeros ("0" for zero).
pub open spec fn digits(n: nat, base: nat) -> Seq<char>
    decreases n,
    via digits_decreases
{
    if base < 2 || n < base {
        seq![digit_char(n)]
    } else {
        digits(n / base, base).push(digit_char(n % base))
    }
}

#[via_fn]
proof fn digits_decreases(n: nat, base: nat) {
    if !(base < 2 || n < base) {
        assert(n / base < n) by (nonlinear_arith)
            requires
                base >= 2,
                n >= base,
        ;
    }
}

/// Each byte as two lower-case hexadecimal digits, high nibble first.
pub open spec fn hex_of(b: Seq<u8>) -> Seq<char>
    decreases b.len(),
{
    if b.len() == 0 {
        Seq::empty()
    } else {
        hex_of(b.drop_last()) + seq![digit_char(b.last() as nat / 16), digit_char(b.last() as nat % 16)]
    }
}

proof fn lemma_digit_char_injective(d: nat, e: nat)
    requires
        d < 16,
        e < 16,
        digit_char(d) == digit_char(e),
    ensures
        d == e,
{
}

proof fn lemma_digits_len(n: nat, base: nat)
    requires
        2 <= base <= 16,
    ensures
        digits(n, base).len() >= 1,
        digits(n, base).len() == 1 <==> n < base,
    decreases n,
{
    if n >= base {
        assert(n / base < n) by (nonlinear_arith)
            requires
                base >= 2,
                n >= base,
        ;
        lemma_digits_len(n / base, base);
    }
}

/// Two numbers with the same digits in one base are equal.
pub proof fn lemma_digits_injective(n: nat, m: nat, base: nat)
    requires
        2 <= base <= 16,
        digits(n, base) == digits(m, base),
    ensures
        n == m,
    decreases n,
{
    lemma_digits_len(n, base);
    lemma_digits_len(m, base);
    if n < base {
        assert(digits(n, base) == seq![digit_char(n)]);
        assert(digits(m, base) == seq![digit_char(m)]);
        assert(seq![digit_char(n)][0] == digit_char(n));
        assert(seq![digit_char(m)][0] == digit_char(m));
        lemma_digit_char_injective(n, m);
    } else {
        let dn = digits(n, base);
        let dm = digits(m, base);
        assert(dn.last() == dm.last());
        assert(dn.drop_last() =~= digits(n / base, base));
        assert(dm.drop_last() =~= digits(m / base, base));
        lemma_digit_char_injective(n % base, m % base);
        assert(n / base < n) by (nonlinear_arith)
            requires
                base >= 2,
                n >= base,
        ;
        lemma_digits_injective(n / base, m / base, base);
        assert(n == base * (n / base) + n % base) by (nonlinear_arith)
            requires base > 0;
        assert(m == base * (m / base) + m % base) by (nonlinear_arith)
            requires base > 0;
    }
}

/// The hexadecimal form of `b` has two characters per byte.
pub proof fn lemma_hex_len(b: Seq<u8>)
    ensures
        hex_of(b).len() == 2 * b.len(),
    decreases b.len(),
{
    if b.len() > 0 {
        lemma_hex_len(b.drop_last());
    }
}

/// Byte strings of one length with the same hexadecimal form are equal.
pub proof fn lemma_hex_injective(b: Seq<u8>, c: Seq<u8>)
    requires
        b.len() == c.len(),
        hex_of(b) == hex_of(c),
    ensures
        b == c,
    decreases b.len(),
{
    if b.len() > 0 {
        let hb = hex_of(b);
        let hc = hex_of(c);
        lemma_hex_len(b.drop_last());
        lemma_hex_len(c.drop_last());
        let k = 2 * (b.len() - 1);
        assert(hb[k] == hc[k]);
        assert(hb[k + 1] == hc[k + 1]);
        let x = b.last() as nat;
        let y = c.last() as nat;
        lemma_digit_char_injective(x / 16, y / 16);
        lemma_digit_char_injective(x % 16, y % 16);
        assert(hb.subrange(0, k) =~= hex_of(b.drop_last()));
        assert(hc.subrange(0, k) =~= hex_of(c.drop_last()));
        lemma_hex_injective(b.drop_last(), c.drop_last());
        assert(b =~= b.drop_last().push(b.last()));
        assert(c =~= c.drop_last().push(c.last()));
    }
}

} // verus!
