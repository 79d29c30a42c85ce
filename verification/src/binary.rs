//! Fixed-width binary numerals: the text form of a machine word.

use vstd::prelude::*;
use vstd::arithmetic::power2::*;

verus! {

/// The largest address that an address-instruction can hold.
pub const MAX_ADDRESS: u16 = 32767;

/// The binary digit that stands for the parity of `n`.
pub open spec fn digit(n: nat) -> char {
    if n % 2 == 1 {
        '1'
    } else {
        '0'
    }
}

/// The `width` lowest binary digits of `n`, most significant first.
pub open spec fn binary(n: nat, width: nat) -> Seq<char>
    decreases width,
{
    if width == 0 {
        Seq::empty()
    } else {
        binary(n / 2, (width - 1) as nat).push(digit(n))
    }
}

/// The number that a sequence of binary digits denotes, most significant
/// digit first. Any character but `'1'` counts as zero.
pub open spec fn binary_value(digits: Seq<char>) -> nat
    decreases digits.len(),
{
    if digits.len() == 0 {
        0
    } else {
        2 * binary_value(digits.drop_last()) + if digits.last() == '1' {
            1nat
        } else {
            0nat
        }
    }
}

/// Whether `s` is a group of `width` binary digits.
pub open spec fn is_bits(s: Seq<char>, width: nat) -> bool {
    &&& s.len() == width
    &&& forall|i: int| 0 <= i < s.len() ==> s[i] == '0' || s[i] == '1'
}

/// The 16 binary digits of a machine word.
pub open spec fn word(n: nat) -> Seq<char> {
    binary(n, 16)
}

/// A binary numeral has as many digits as asked for, each `'0'` or `'1'`.
pub proof fn lemma_binary_shape(n: nat, width: nat)
    ensures
        is_bits(binary(n, width), width),
    decreases width,
{
    if width > 0 {
        lemma_binary_shape(n / 2, (width - 1) as nat);
    }
}

/// A binary numeral wide enough for `n` denotes `n`.
pub proof fn lemma_binary_value(n: nat, width: nat)
    requires
        n < pow2(width),
    ensures
        binary_value(binary(n, width)) == n,
    decreases width,
{
    if width == 0 {
        lemma2_to64();
    } else {
        let rest = binary(n / 2, (width - 1) as nat);
        lemma_pow2_unfold(width);
        lemma_binary_value(n / 2, (width - 1) as nat);
        assert(binary(n, width).drop_last() =~= rest);
    }
}

/// A binary numeral with room for a digit more than `n` takes begins with
/// `'0'`.
pub proof fn lemma_binary_leading_zero(n: nat, width: nat)
    requires
        width > 0,
        n < pow2((width - 1) as nat),
    ensures
        binary(n, width).len() == width,
        binary(n, width)[0] == '0',
    decreases width,
{
    lemma_binary_shape(n, width);
    if width == 1 {
        lemma2_to64();
        assert(binary(n / 2, 0).len() == 0);
    } else {
        lemma_pow2_unfold((width - 1) as nat);
        lemma_binary_shape(n / 2, (width - 1) as nat);
        lemma_binary_leading_zero(n / 2, (width - 1) as nat);
    }
}

/// The word of an address: 16 binary digits, the first of them `'0'`, which
/// denote the address.
pub proof fn lemma_address_word_shape(n: nat)
    requires
        n <= MAX_ADDRESS,
    ensures
        is_bits(word(n), 16),
        word(n)[0] == '0',
        binary_value(word(n)) == n,
{
    lemma2_to64();
    lemma_binary_shape(n, 16);
    lemma_binary_leading_zero(n, 16);
    lemma_binary_value(n, 16);
}

/// Writes `n` as a word of 16 binary digits.
pub fn binary_word(n: u16) -> (s: String)
    ensures
        s@ == word(n as nat),
{
    let mut s = String::new();
    let mut i: u32 = 0;
    assert(n >> 16u16 == 0u16) by (bit_vector);
    while i < 16
        invariant
            i <= 16,
            s@ == binary((n >> ((16 - i) as u16)) as nat, i as nat),
        decreases 16 - i,
    {
        let k: u16 = (15 - i) as u16;
        let q: u16 = n >> k;
        assert((n >> k) / 2 == n >> ((k + 1) as u16)) by (bit_vector)
            requires
                k < 16,
        ;
        s.push(if q % 2 == 1 { '1' } else { '0' });
        i += 1;
    }
    assert(n >> 0u16 == n) by (bit_vector);
    s
}

} // verus!
