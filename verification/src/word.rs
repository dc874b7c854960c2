//! 256-bit storage words, with the arithmetic of the EVM word type.

use vstd::prelude::*;

use alloy_primitives::U256;

verus! {

/// The number of distinct 256-bit words.
pub open spec fn word_modulus() -> nat {
    0x1_0000_0000_0000_0000_0000_0000_0000_0000_0000_0000_0000_0000_0000_0000_0000_0000_0000_0000_0000_0000_0000_0000_0000_0000_0000_0000_0000_0000_0000_0000nat
}

/// A 256-bit unsigned word, as four 64-bit limbs, least significant first.
#[derive(Clone, Copy, Debug, PartialEq, Eq, Hash, Structural)]
pub struct Word {
    /// Bits 0 to 63.
    pub limb0: u64,
    /// Bits 64 to 127.
    pub limb1: u64,
    /// Bits 128 to 191.
    pub limb2: u64,
    /// Bits 192 to 255.
    pub limb3: u64,
}

/// The number a word denotes.
pub open spec fn word_value(word: Word) -> nat {
    word.limb0 as nat + word.limb1 as nat * 0x1_0000_0000_0000_0000nat + word.limb2 as nat
        * 0x1_0000_0000_0000_0000_0000_0000_0000_0000nat + word.limb3 as nat
        * 0x1_0000_0000_0000_0000_0000_0000_0000_0000_0000_0000_0000_0000nat
}

/// The sum of two words, wrapping around at the word size.
pub open spec fn wrapping_add(a: nat, b: nat) -> nat {
    (a + b) % word_modulus()
}

/// The product of two words, wrapping around at the word size.
pub open spec fn wrapping_mul(a: nat, b: nat) -> nat {
    (a * b) % word_modulus()
}

/// The character of a decimal digit.
pub open spec fn decimal_digit(digit: nat) -> char {
    (48 + digit) as char
}

/// The decimal representation of `n`, without leading zeros.
pub open spec fn decimal(n: nat) -> Seq<char>
    decreases n,
{
    if n < 10 {
        seq![decimal_digit(n)]
    } else {
        decimal(n / 10).push(decimal_digit(n % 10))
    }
}

/// Every word denotes a number below the word modulus.
pub proof fn lemma_word_value_bounds(word: Word)
    ensures
        word_value(word) < word_modulus(),
{
}

impl Word {
    /// The word zero.
    pub fn zero() -> (word: Self)
        ensures
            word_value(word) == 0,
    {
        Word { limb0: 0, limb1: 0, limb2: 0, limb3: 0 }
    }

    /// The word of a 64-bit number.
    pub fn from_u64(value: u64) -> (word: Self)
        ensures
            word_value(word) == value,
    {
        Word { limb0: value, limb1: 0, limb2: 0, limb3: 0 }
    }

    /// Returns whether the word is zero.
    pub fn is_zero(self) -> (zero: bool)
        ensures
            zero == (word_value(self) == 0),
    {
        self.limb0 == 0 && self.limb1 == 0 && self.limb2 == 0 && self.limb3 == 0
    }

    /// Returns whether the word fits in 64 bits.
    pub fn fits_u64(self) -> (fits: bool)
        ensures
            fits == (word_value(self) < 0x1_0000_0000_0000_0000),
    {
        self.limb1 == 0 && self.limb2 == 0 && self.limb3 == 0
    }

    /// The number of a word that fits in 64 bits.
    pub fn to_u64(self) -> (value: u64)
        requires
            word_value(self) < 0x1_0000_0000_0000_0000,
        ensures
            value == word_value(self),
    {
        self.limb0
    }

    /// Returns whether `self` denotes a smaller number than `other`.
    pub fn less_than(self, other: Self) -> (less: bool)
        ensures
            less == (word_value(self) < word_value(other)),
    {
        if self.limb3 != other.limb3 {
            self.limb3 < other.limb3
        } else if self.limb2 != other.limb2 {
            self.limb2 < other.limb2
        } else if self.limb1 != other.limb1 {
            self.limb1 < other.limb1
        } else {
            self.limb0 < other.limb0
        }
    }

    /// The larger of two words.
    pub fn max(self, other: Self) -> (larger: Self)
        ensures
            word_value(larger) == if word_value(self) >= word_value(other) {
                word_value(self)
            } else {
                word_value(other)
            },
    {
        if self.less_than(other) {
            other
        } else {
            self
        }
    }
}

/// Appends `c` to `text` (`String::push`).
#[verifier::external_body]
pub(crate) fn push_char(text: &mut String, c: char)
    ensures
        final(text)@ == old(text)@.push(c),
{
    text.push(c);
}

/// The character of a decimal digit.
pub(crate) fn digit_char(digit: usize) -> (c: char)
    requires
        digit < 10,
    ensures
        c == decimal_digit(digit as nat),
{
    match digit {
        0 => '0',
        1 => '1',
        2 => '2',
        3 => '3',
        4 => '4',
        5 => '5',
        6 => '6',
        7 => '7',
        8 => '8',
        _ => '9',
    }
}

/// Appends the decimal representation of `n` to `text`.
pub(crate) fn append_decimal(text: &mut String, n: usize)
    ensures
        final(text)@ == old(text)@ + decimal(n as nat),
    decreases n,
{
    if n >= 10 {
        append_decimal(text, n / 10);
    }
    let ghost before = text@;
    push_char(text, digit_char(n % 10));
    proof {
        if n >= 10 {
            assert(decimal(n as nat) == decimal((n / 10) as nat).push(decimal_digit((n % 10) as nat)));
        } else {
            assert(decimal(n as nat) == seq![decimal_digit(n as nat)]);
        }
        assert(text@ =~= old(text)@ + decimal(n as nat));
    }
}

/// `a + b` on EVM words, wrapping around at the word size (`U256`'s `+`).
#[verifier::external_body]
pub(crate) fn word_add(a: Word, b: Word) -> (sum: Word)
    ensures
        word_value(sum) == wrapping_add(word_value(a), word_value(b)),
{
    let lhs = U256::from_limbs([a.limb0, a.limb1, a.limb2, a.limb3]);
    let rhs = U256::from_limbs([b.limb0, b.limb1, b.limb2, b.limb3]);
    let [limb0, limb1, limb2, limb3] = (lhs + rhs).into_limbs();
    Word { limb0, limb1, limb2, limb3 }
}

/// `a * b` on EVM words, wrapping around at the word size (`U256`'s `*`).
#[verifier::external_body]
pub(crate) fn word_mul(a: Word, b: Word) -> (product: Word)
    ensures
        word_value(product) == wrapping_mul(word_value(a), word_value(b)),
{
    let lhs = U256::from_limbs([a.limb0, a.limb1, a.limb2, a.limb3]);
    let rhs = U256::from_limbs([b.limb0, b.limb1, b.limb2, b.limb3]);
    let [limb0, limb1, limb2, limb3] = (lhs * rhs).into_limbs();
    Word { limb0, limb1, limb2, limb3 }
}

/// `a / b` on EVM words, rounding down (`U256`'s `/`, which panics on a zero divisor).
#[verifier::external_body]
pub(crate) fn word_div(a: Word, b: Word) -> (quotient: Word)
    requires
        word_value(b) > 0,
    ensures
        word_value(quotient) == word_value(a) / word_value(b),
{
    let lhs = U256::from_limbs([a.limb0, a.limb1, a.limb2, a.limb3]);
    let rhs = U256::from_limbs([b.limb0, b.limb1, b.limb2, b.limb3]);
    let [limb0, limb1, limb2, limb3] = (lhs / rhs).into_limbs();
    Word { limb0, limb1, limb2, limb3 }
}

/// `a % b` on EVM words (`U256`'s `%`, which panics on a zero divisor).
#[verifier::external_body]
pub(crate) fn word_rem(a: Word, b: Word) -> (remainder: Word)
    requires
        word_value(b) > 0,
    ensures
        word_value(remainder) == word_value(a) % word_value(b),
{
    let lhs = U256::from_limbs([a.limb0, a.limb1, a.limb2, a.limb3]);
    let rhs = U256::from_limbs([b.limb0, b.limb1, b.limb2, b.limb3]);
    let [limb0, limb1, limb2, limb3] = (lhs % rhs).into_limbs();
    Word { limb0, limb1, limb2, limb3 }
}

/// The decimal text of a word (`U256`'s `Display`).
#[verifier::external_body]
pub(crate) fn word_to_decimal(word: Word) -> (text: String)
    ensures
        text@ == decimal(word_value(word)),
{
    U256::from_limbs([word.limb0, word.limb1, word.limb2, word.limb3]).to_string()
}

} // verus!
