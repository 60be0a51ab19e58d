//! 32-bit words: their bits, their little-endian bytes, and their reading as
//! signed integers.

use vstd::arithmetic::div_mod::lemma_fundamental_div_mod_converse;
use vstd::prelude::*;

verus! {

/// Bit `j` of `w`, counted from the least significant bit.
pub open spec fn word_bit(w: u32, j: int) -> bool {
    (w >> (j as u32)) & 1 == 1
}

/// `w` with bit `j` set to `value` and every other bit kept.
pub open spec fn with_bit(w: u32, j: int, value: bool) -> u32 {
    if value {
        w | (1u32 << (j as u32))
    } else {
        w & !(1u32 << (j as u32))
    }
}

/// The flags that a sequence of words holds: flag `k` is bit `k % 32` of
/// word `k / 32`.
pub open spec fn unpack(words: Seq<u32>) -> Seq<bool> {
    Seq::new(32 * words.len(), |k: int| word_bit(words[k / 32], k % 32))
}

/// Changing one bit of a word changes that bit and no other.
pub proof fn lemma_with_bit(w: u32, i: int, value: bool, j: int)
    requires
        0 <= i < 32,
        0 <= j < 32,
    ensures
        word_bit(with_bit(w, i, value), j) == (if i == j { value } else { word_bit(w, j) }),
{
    let iu: u32 = i as u32;
    let ju: u32 = j as u32;
    assert(((w | (1u32 << iu)) >> ju) & 1 == (if iu == ju { 1u32 } else { (w >> ju) & 1 }))
        by (bit_vector)
        requires
            iu < 32,
            ju < 32,
    ;
    assert(((w & !(1u32 << iu)) >> ju) & 1 == (if iu == ju { 0u32 } else { (w >> ju) & 1 }))
        by (bit_vector)
        requires
            iu < 32,
            ju < 32,
    ;
}

/// The bits of `w` below bit `n`, the others cleared.
spec fn low_bits(w: u32, n: u32) -> u64 {
    (w as u64) & (((1u64 << n) - 1) as u64)
}

/// Words with the same bits below bit `n` have the same low bits.
proof fn lemma_low_bits(a: u32, b: u32, n: u32)
    requires
        n <= 32,
        forall|j: int| 0 <= j < n ==> word_bit(a, j) == word_bit(b, j),
    ensures
        low_bits(a, n) == low_bits(b, n),
    decreases n,
{
    if n == 0 {
        assert(low_bits(a, 0) == low_bits(b, 0)) by (bit_vector);
    } else {
        let m: u32 = (n - 1) as u32;
        lemma_low_bits(a, b, m);
        assert(word_bit(a, m as int) == word_bit(b, m as int));
        assert(low_bits(a, n) == low_bits(b, n)) by (bit_vector)
            requires
                m < 32,
                n == m + 1,
                low_bits(a, m) == low_bits(b, m),
                ((a >> m) & 1 == 1) == ((b >> m) & 1 == 1),
        ;
    }
}

/// Two words with the same 32 bits are the same word.
pub proof fn lemma_word_by_bits(a: u32, b: u32)
    requires
        forall|j: int| 0 <= j < 32 ==> word_bit(a, j) == word_bit(b, j),
    ensures
        a == b,
{
    lemma_low_bits(a, b, 32);
    assert(a == b) by (bit_vector)
        requires
            low_bits(a, 32) == low_bits(b, 32),
    ;
}

/// Word sequences that hold the same flags are equal.
pub proof fn lemma_unpack_injective(a: Seq<u32>, b: Seq<u32>)
    requires
        unpack(a) == unpack(b),
    ensures
        a == b,
{
    assert(unpack(a).len() == 32 * a.len());
    assert(unpack(b).len() == 32 * b.len());
    assert(a.len() == b.len());
    assert forall|i: int| 0 <= i < a.len() implies a[i] == b[i] by {
        assert forall|j: int| 0 <= j < 32 implies word_bit(a[i], j) == word_bit(b[i], j) by {
            let k = 32 * i + j;
            assert(k / 32 == i && k % 32 == j);
            assert(unpack(a)[k] == word_bit(a[k / 32], k % 32));
            assert(unpack(b)[k] == word_bit(b[k / 32], k % 32));
        }
        lemma_word_by_bits(a[i], b[i]);
    }
}

/// Setting flag `k` is changing bit `k % 32` of word `k / 32`.
pub proof fn lemma_unpack_update(words: Seq<u32>, k: int, value: bool)
    requires
        0 <= k < 32 * words.len(),
    ensures
        unpack(words.update(k / 32, with_bit(words[k / 32], k % 32, value))) == unpack(
            words,
        ).update(k, value),
{
    let changed = words.update(k / 32, with_bit(words[k / 32], k % 32, value));
    assert forall|m: int| 0 <= m < 32 * words.len() implies unpack(changed)[m] == unpack(
        words,
    ).update(k, value)[m] by {
        if m / 32 == k / 32 {
            lemma_with_bit(words[k / 32], k % 32, value, m % 32);
        }
    }
}

/// The signed integer that a word stands for, in two's complement.
pub open spec fn word_to_int(w: u32) -> i32 {
    if w < 0x8000_0000 {
        w as i32
    } else {
        (w - 0x1_0000_0000) as i32
    }
}

/// The word that stands for a signed integer, in two's complement.
pub open spec fn int_to_word(x: i32) -> u32 {
    if x >= 0 {
        x as u32
    } else {
        (x + 0x1_0000_0000) as u32
    }
}

/// The signed integer that a word stands for.
pub fn int_of_word(w: u32) -> (x: i32)
    ensures
        x == word_to_int(w),
        int_to_word(x) == w,
{
    if w < 0x8000_0000 {
        w as i32
    } else {
        ((w - 0x8000_0000) as i32) + i32::MIN
    }
}

/// The word that stands for a signed integer.
pub fn word_of_int(x: i32) -> (w: u32)
    ensures
        w == int_to_word(x),
        word_to_int(w) == x,
{
    if x >= 0 {
        x as u32
    } else {
        ((x - i32::MIN) as u32) + 0x8000_0000
    }
}

/// The two readings are inverse to each other.
pub proof fn lemma_int_word(w: u32, x: i32)
    ensures
        int_to_word(word_to_int(w)) == w,
        word_to_int(int_to_word(x)) == x,
{
}

/// The signed integers that a sequence of words stands for.
pub open spec fn words_to_ints(words: Seq<u32>) -> Seq<i32> {
    Seq::new(words.len(), |i: int| word_to_int(words[i]))
}

/// The words that stand for a sequence of signed integers.
pub open spec fn ints_to_words(ints: Seq<i32>) -> Seq<u32> {
    Seq::new(ints.len(), |i: int| int_to_word(ints[i]))
}

/// The two readings of a sequence are inverse to each other.
pub proof fn lemma_ints_words(words: Seq<u32>, ints: Seq<i32>)
    ensures
        ints_to_words(words_to_ints(words)) == words,
        words_to_ints(ints_to_words(ints)) == ints,
{
}

/// The truth value that a word stands for: 0 is false, 1 is true, and no
/// other word is a truth value.
pub open spec fn word_to_bool(w: u32) -> Option<bool> {
    if w == 0 {
        Some(false)
    } else if w == 1 {
        Some(true)
    } else {
        None
    }
}

/// The word that stands for a truth value.
pub open spec fn bool_to_word(b: bool) -> u32 {
    if b {
        1
    } else {
        0
    }
}

/// Byte `k` of a word, the lowest byte being byte 0.
pub open spec fn le_byte(w: u32, k: int) -> u8 {
    if k == 0 {
        (w % 256) as u8
    } else if k == 1 {
        (w / 0x100 % 256) as u8
    } else if k == 2 {
        (w / 0x1_0000 % 256) as u8
    } else {
        (w / 0x100_0000 % 256) as u8
    }
}

/// The word of four bytes, lowest byte first.
pub open spec fn le_word(b0: u8, b1: u8, b2: u8, b3: u8) -> u32 {
    (b0 + b1 * 0x100 + b2 * 0x1_0000 + b3 * 0x100_0000) as u32
}

/// The bytes of a sequence of words, each word lowest byte first.
pub open spec fn words_to_bytes(words: Seq<u32>) -> Seq<u8> {
    Seq::new(4 * words.len(), |i: int| le_byte(words[i / 4], i % 4))
}

/// The words that the bytes spell, four bytes to a word, lowest byte first.
/// Up to three bytes at the end that do not fill a word are left out.
pub open spec fn bytes_to_words(bytes: Seq<u8>) -> Seq<u32> {
    Seq::new(
        bytes.len() / 4,
        |i: int| le_word(bytes[4 * i], bytes[4 * i + 1], bytes[4 * i + 2], bytes[4 * i + 3]),
    )
}

/// A word is the word of its four bytes.
pub proof fn lemma_le_word_of_bytes(w: u32)
    ensures
        le_word(le_byte(w, 0), le_byte(w, 1), le_byte(w, 2), le_byte(w, 3)) == w,
{
    let x = w as int;
    let high = x / 0x100;
    let higher = high / 0x100;
    assert(x == 0x100 * high + x % 0x100);
    assert(high == 0x100 * higher + high % 0x100);
    assert(higher == 0x100 * (higher / 0x100) + higher % 0x100);
    assert(x / 0x1_0000 == higher);
    assert(x / 0x100_0000 == higher / 0x100);
    assert(higher / 0x100 < 0x100);
}

/// The bytes of the word of four bytes are those four bytes.
pub proof fn lemma_le_bytes_of_word(b0: u8, b1: u8, b2: u8, b3: u8)
    ensures
        le_byte(le_word(b0, b1, b2, b3), 0) == b0,
        le_byte(le_word(b0, b1, b2, b3), 1) == b1,
        le_byte(le_word(b0, b1, b2, b3), 2) == b2,
        le_byte(le_word(b0, b1, b2, b3), 3) == b3,
{
    let x = b0 + b1 * 0x100 + b2 * 0x1_0000 + b3 * 0x100_0000;
    let high = b1 + b2 * 0x100 + b3 * 0x1_0000;
    let higher = b2 + b3 * 0x100;
    lemma_fundamental_div_mod_converse(x, 0x100, high, b0 as int);
    lemma_fundamental_div_mod_converse(high, 0x100, higher, b1 as int);
    lemma_fundamental_div_mod_converse(higher, 0x100, b3 as int, b2 as int);
    lemma_fundamental_div_mod_converse(x, 0x1_0000, higher, b0 + b1 * 0x100);
    lemma_fundamental_div_mod_converse(x, 0x100_0000, b3 as int, b0 + b1 * 0x100 + b2 * 0x1_0000);
    lemma_fundamental_div_mod_converse(b3 as int, 0x100, 0, b3 as int);
}

/// The words that the bytes of `words` spell are `words`.
pub proof fn lemma_words_of_bytes(words: Seq<u32>)
    ensures
        bytes_to_words(words_to_bytes(words)) == words,
{
    let bytes = words_to_bytes(words);
    assert(bytes.len() / 4 == words.len());
    assert forall|i: int| 0 <= i < words.len() implies bytes_to_words(bytes)[i] == words[i] by {
        assert((4 * i) / 4 == i && (4 * i) % 4 == 0);
        assert((4 * i + 1) / 4 == i && (4 * i + 1) % 4 == 1);
        assert((4 * i + 2) / 4 == i && (4 * i + 2) % 4 == 2);
        assert((4 * i + 3) / 4 == i && (4 * i + 3) % 4 == 3);
        lemma_le_word_of_bytes(words[i]);
    }
}

/// Bytes that fill whole words are the bytes of the words they spell.
pub proof fn lemma_bytes_of_words(bytes: Seq<u8>)
    requires
        bytes.len() % 4 == 0,
    ensures
        words_to_bytes(bytes_to_words(bytes)) == bytes,
{
    let words = bytes_to_words(bytes);
    assert(4 * words.len() == bytes.len());
    assert forall|k: int| 0 <= k < bytes.len() implies words_to_bytes(words)[k] == bytes[k] by {
        let i = k / 4;
        lemma_le_bytes_of_word(bytes[4 * i], bytes[4 * i + 1], bytes[4 * i + 2], bytes[4 * i + 3]);
    }
}

/// The words that the bytes spell; bytes at the end that do not fill a word
/// are left out.
pub fn words_of_bytes(bytes: &[u8]) -> (words: Vec<u32>)
    ensures
        words@ == bytes_to_words(bytes@),
{
    let count = bytes.len() / 4;
    let mut words: Vec<u32> = Vec::new();
    let mut i: usize = 0;
    while i < count
        invariant
            count == bytes@.len() / 4,
            4 * count <= bytes@.len() <= usize::MAX,
            i <= count,
            words@ == bytes_to_words(bytes@).subrange(0, i as int),
        decreases count - i,
    {
        let b0 = bytes[4 * i];
        let b1 = bytes[4 * i + 1];
        let b2 = bytes[4 * i + 2];
        let b3 = bytes[4 * i + 3];
        let w: u32 = (b0 as u32) + (b1 as u32) * 0x100 + (b2 as u32) * 0x1_0000 + (b3 as u32)
            * 0x100_0000;
        words.push(w);
        i += 1;
        assert(words@ =~= bytes_to_words(bytes@).subrange(0, i as int));
    }
    words
}

/// The bytes of the words, each word lowest byte first.
pub fn bytes_of_words(words: &Vec<u32>) -> (bytes: Vec<u8>)
    ensures
        bytes@ == words_to_bytes(words@),
{
    let mut bytes: Vec<u8> = Vec::new();
    let mut i: usize = 0;
    while i < words.len()
        invariant
            i <= words@.len(),
            bytes@.len() == 4 * i,
            forall|k: int| 0 <= k < 4 * i ==> bytes@[k] == le_byte(words@[k / 4], k % 4),
        decreases words@.len() - i,
    {
        let w = words[i];
        bytes.push((w % 256) as u8);
        bytes.push((w / 0x100 % 256) as u8);
        bytes.push((w / 0x1_0000 % 256) as u8);
        bytes.push((w / 0x100_0000 % 256) as u8);
        i += 1;
    }
    bytes
}

} // verus!
