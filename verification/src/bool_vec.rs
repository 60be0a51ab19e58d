//! The bit-packed store of boolean plot flags.
//!
//! A store is a fixed number of 32-bit words. Flag `k` is bit `k % 32` of
//! word `k / 32`, least significant bit first, which is the order in which
//! the game writes its flags. The number of words is set when the store is
//! made and never changes: a write to a flag that the store does not hold
//! fails, a read of one finds nothing.

use crate::word::{lemma_unpack_injective, lemma_unpack_update, unpack, with_bit, word_bit};
use bitvec::order::Lsb0;
use bitvec::vec::BitVec;
use vstd::prelude::*;

verus! {

/// A `bitvec::vec::BitVec` over 32-bit words, least significant bit first.
#[verifier::external_body]
pub struct FlagBits {
    inner: BitVec<u32, Lsb0>,
}

/// The bits that a bit vector holds, first to last.
pub uninterp spec fn bit_seq(bits: FlagBits) -> Seq<bool>;

/// Whether a bit vector's first bit is the lowest bit of its first storage
/// word.
pub uninterp spec fn word_aligned(bits: FlagBits) -> bool;

/// `bitvec::vec::BitVec::from_vec`: the vector spans every bit of the given
/// words, starting at the lowest bit of the first; bit `k` is bit `k % 32` of
/// word `k / 32`. The call panics on more bits than `usize::MAX >> 3`.
#[verifier::external_body]
fn bits_from_words(words: Vec<u32>) -> (bits: FlagBits)
    requires
        32 * words@.len() <= usize::MAX / 8,
    ensures
        bit_seq(bits) == unpack(words@),
        word_aligned(bits),
{
    FlagBits { inner: BitVec::from_vec(words) }
}

/// `bitvec::vec::BitVec::into_vec`: the storage words of the vector. Of a
/// vector that starts at the lowest bit of its first word and ends with the
/// highest bit of its last, every bit of those words is a bit of the vector.
#[verifier::external_body]
fn bits_into_words(bits: FlagBits) -> (words: Vec<u32>)
    requires
        word_aligned(bits),
        bit_seq(bits).len() % 32 == 0,
    ensures
        unpack(words@) == bit_seq(bits),
{
    bits.inner.into_vec()
}

/// `bitvec::vec::BitVec::len`: the number of bits.
#[verifier::external_body]
fn bits_len(bits: &FlagBits) -> (n: usize)
    ensures
        n == bit_seq(*bits).len(),
{
    bits.inner.len()
}

/// `bitvec::slice::BitSlice::get` with one index: the bit there, or nothing
/// where the index is not below the length.
#[verifier::external_body]
fn bits_get(bits: &FlagBits, index: usize) -> (bit: Option<bool>)
    ensures
        bit == (if index < bit_seq(*bits).len() {
            Some(bit_seq(*bits)[index as int])
        } else {
            None
        }),
{
    bits.inner.get(index).map(|bit| *bit)
}

/// `bitvec::slice::BitSlice::set`: writes one bit and leaves the others, and
/// where the vector starts, as they were. The call panics on an index that is
/// not below the length.
#[verifier::external_body]
fn bits_set(bits: &mut FlagBits, index: usize, value: bool)
    requires
        index < bit_seq(*old(bits)).len(),
    ensures
        bit_seq(*final(bits)) == bit_seq(*old(bits)).update(index as int, value),
        word_aligned(*final(bits)) == word_aligned(*old(bits)),
    no_unwind
{
    bits.inner.set(index, value)
}

/// `Clone` of `bitvec::vec::BitVec`: a vector with the same bits in the same
/// layout.
#[verifier::external_body]
fn bits_clone(bits: &FlagBits) -> (copy: FlagBits)
    ensures
        bit_seq(copy) == bit_seq(*bits),
        word_aligned(copy) == word_aligned(*bits),
{
    FlagBits { inner: bits.inner.clone() }
}

/// A write to a flag that the store does not hold.
#[derive(Clone, Copy, Debug, PartialEq, Eq, Structural)]
pub struct OutOfRange {
    /// The index that was asked for.
    pub index: usize,
    /// The number of flags (or of values) that the store holds.
    pub capacity: usize,
}

/// What a write of `value` at `index` does to a sequence of fixed length:
/// where the sequence has the position, the value stands there afterwards and
/// nothing else has changed; where it has not, the sequence is as it was and
/// the write fails.
pub open spec fn written<T>(
    before: Seq<T>,
    after: Seq<T>,
    done: Result<(), OutOfRange>,
    index: usize,
    value: T,
) -> bool {
    if index < before.len() {
        done == Ok::<(), OutOfRange>(()) && after == before.update(index as int, value)
    } else {
        done == Err::<(), OutOfRange>(OutOfRange { index, capacity: before.len() as usize })
            && after == before
    }
}

/// Whether the flags fill whole words.
pub open spec fn is_packed(flags: Seq<bool>) -> bool {
    exists|words: Seq<u32>| #[trigger] unpack(words) == flags
}

/// The words that the flags fill. Flags that fill whole words fill exactly
/// these.
pub open spec fn pack(flags: Seq<bool>) -> Seq<u32> {
    choose|words: Seq<u32>| #[trigger] unpack(words) == flags
}

/// The words that the flags of `words` fill are `words`.
pub proof fn lemma_pack_unpack(words: Seq<u32>)
    ensures
        is_packed(unpack(words)),
        pack(unpack(words)) == words,
{
    let flags = unpack(words);
    assert(unpack(words) == flags);
    lemma_unpack_injective(pack(flags), words);
}

/// An ordered sequence of boolean flags, packed into 32-bit words.
pub struct BoolVec {
    bits: FlagBits,
}

impl View for BoolVec {
    type V = Seq<bool>;

    /// The flags, flag `k` being bit `k % 32` of word `k / 32`.
    closed spec fn view(&self) -> Seq<bool> {
        bit_seq(self.bits)
    }
}

impl BoolVec {
    /// The bit vector starts at the lowest bit of its first word and fills
    /// whole words, no more of them than a store can hold.
    #[verifier::type_invariant]
    spec fn well_formed(&self) -> bool {
        &&& word_aligned(self.bits)
        &&& is_packed(bit_seq(self.bits))
        &&& bit_seq(self.bits).len() <= 32 * Self::max_words()
    }

    /// The words that the store packs its flags into.
    pub open spec fn words(&self) -> Seq<u32> {
        pack(self@)
    }

    /// The largest number of words that a store can hold on this machine.
    pub open spec fn max_words() -> nat {
        (usize::MAX / 256) as nat
    }

    /// The largest number of words that a store can hold on this machine.
    pub fn word_limit() -> (n: usize)
        ensures
            n == Self::max_words(),
    {
        usize::MAX / 256
    }

    /// Makes a store of the given words, in their order.
    pub fn decode(words: Vec<u32>) -> (store: BoolVec)
        requires
            words@.len() <= Self::max_words(),
        ensures
            store@ == unpack(words@),
            store.words() == words@,
    {
        proof {
            lemma_pack_unpack(words@);
        }
        BoolVec { bits: bits_from_words(words) }
    }

    /// The words of the store, every bit of them as it was read or last
    /// written.
    pub fn encode(&self) -> (words: Vec<u32>)
        ensures
            words@ == self.words(),
            unpack(words@) == self@,
    {
        proof {
            use_type_invariant(self);
            let witness = pack(bit_seq(self.bits));
            assert(unpack(witness).len() == 32 * witness.len());
        }
        let words = bits_into_words(bits_clone(&self.bits));
        proof {
            lemma_pack_unpack(words@);
        }
        words
    }

    /// The number of flags: 32 for each word.
    pub fn capacity(&self) -> (n: usize)
        ensures
            n == self@.len(),
            n == 32 * self.words().len(),
            self.words().len() <= Self::max_words(),
            is_packed(self@),
            unpack(self.words()) == self@,
    {
        proof {
            use_type_invariant(self);
            let witness = pack(bit_seq(self.bits));
            assert(unpack(witness).len() == 32 * witness.len());
        }
        bits_len(&self.bits)
    }

    /// Whether the store holds no flag at all.
    pub fn is_empty(&self) -> (empty: bool)
        ensures
            empty == (self@.len() == 0),
    {
        bits_len(&self.bits) == 0
    }

    /// The flag at `index`, or nothing where the store holds no such flag.
    pub fn get(&self, index: usize) -> (flag: Option<bool>)
        ensures
            flag == (if index < self@.len() {
                Some(self@[index as int])
            } else {
                None
            }),
    {
        bits_get(&self.bits, index)
    }

    /// Writes the flag at `index`. Where the store holds no such flag, it
    /// stays as it was and the write fails.
    pub fn set(&mut self, index: usize, value: bool) -> (done: Result<(), OutOfRange>)
        ensures
            written(old(self)@, final(self)@, done, index, value),
    {
        let capacity = bits_len(&self.bits);
        if index >= capacity {
            return Err(OutOfRange { index, capacity });
        }
        proof {
            use_type_invariant(&*self);
            let k = index as int;
            let witness = pack(bit_seq(self.bits));
            lemma_unpack_update(witness, k, value);
            let changed = witness.update(k / 32, with_bit(witness[k / 32], k % 32, value));
            assert(unpack(changed) == bit_seq(self.bits).update(k, value));
        }
        bits_set(&mut self.bits, index, value);
        Ok(())
    }
}

/// A store holds 32 flags for each of its words, and the flag at `k` is bit
/// `k % 32` of word `k / 32`, counted from the least significant bit.
pub proof fn lemma_flag_is_bit(words: Seq<u32>, k: int)
    requires
        0 <= k < 32 * words.len(),
    ensures
        unpack(words).len() == 32 * words.len(),
        unpack(words)[k] == word_bit(words[k / 32], k % 32),
{
}

/// Writing a flag of a store changes one bit of one of its words.
pub proof fn lemma_set_changes_a_bit(flags: Seq<bool>, k: int, value: bool)
    requires
        is_packed(flags),
        0 <= k < flags.len(),
    ensures
        is_packed(flags.update(k, value)),
        pack(flags.update(k, value)) == pack(flags).update(
            k / 32,
            with_bit(pack(flags)[k / 32], k % 32, value),
        ),
{
    let words = pack(flags);
    assert(unpack(words).len() == 32 * words.len());
    lemma_unpack_update(words, k, value);
    let changed = words.update(k / 32, with_bit(words[k / 32], k % 32, value));
    lemma_pack_unpack(changed);
}

impl Clone for BoolVec {
    fn clone(&self) -> (copy: Self)
        ensures
            copy@ == self@,
    {
        proof {
            use_type_invariant(self);
        }
        BoolVec { bits: bits_clone(&self.bits) }
    }
}

} // verus!
