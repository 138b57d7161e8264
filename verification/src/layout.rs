//! Register layout of the controller.
//!
//! All address arithmetic of the crate is here. Offsets are in bytes from the
//! base address of the controller; every register is one 32-bit word.
//!
//! | offset                        | register                                   |
//! |-------------------------------|--------------------------------------------|
//! | `0x000000 + 4 * source`       | priority of a source (word 0 is reserved)  |
//! | `0x001000 + 4 * word`         | pending bits, 128 words                    |
//! | `0x002000 + 0x80 * context`   | enable bits of a context, 32 words         |
//! | `0x200000 + 0x1000 * context` | priority threshold of a context            |
//! | `0x200004 + 0x1000 * context` | claim/complete register of a context       |

use crate::nr::{is_source, Nr};
use vstd::prelude::*;

verus! {

/// Number of priority registers: one for each source, and the reserved word 0.
pub const SOURCES: usize = 1024;

/// Number of contexts that the layout has room for.
pub const CONTEXTS: usize = 15872;

/// Number of words in the pending array.
pub const PENDING_WORDS: usize = 128;

/// Number of words in the enable array of one context.
pub const ENABLE_WORDS: usize = 32;

/// Number of sources that one word of a bitmap covers.
pub const WORD_BITS: usize = 32;

/// Size of a register, in bytes.
pub const WORD_BYTES: usize = 4;

/// Offset of the priority registers.
pub const PRIORITY_BASE: usize = 0x00_0000;

/// Offset of the pending array.
pub const PENDING_BASE: usize = 0x00_1000;

/// Offset of the enable array of context 0. The array of the next context
/// follows after 0x80 bytes.
pub const ENABLE_BASE: usize = 0x00_2000;

/// Offset of the threshold register of context 0. The registers of the next
/// context follow after 0x1000 bytes.
pub const CONTEXT_BASE: usize = 0x20_0000;

/// Offset of the claim/complete register from the threshold register of the
/// same context.
pub const CLAIM_OFFSET: usize = 4;

/// Size of the address space that the controller occupies.
pub const SIZE: usize = 0x400_0000;

/// One register of the controller.
#[derive(Clone, Copy, PartialEq, Eq, Debug, Hash, Structural)]
pub enum Register {
    /// Priority of the source with this number.
    Priority { source: usize },
    /// This word of the pending array; it covers the sources from
    /// `32 * word` to `32 * word + 31`.
    Pending { word: usize },
    /// This word of the enable array of a context.
    Enable { context: usize, word: usize },
    /// Priority threshold of a context.
    Threshold { context: usize },
    /// Claim/complete register of a context.
    Claim { context: usize },
}

impl Register {
    /// Whether the layout declares this register.
    pub open spec fn in_layout(self) -> bool {
        match self {
            Register::Priority { source } => source < SOURCES,
            Register::Pending { word } => word < PENDING_WORDS,
            Register::Enable { context, word } => context < CONTEXTS && word < ENABLE_WORDS,
            Register::Threshold { context } => context < CONTEXTS,
            Register::Claim { context } => context < CONTEXTS,
        }
    }

    /// The offset of the register from the base address, in bytes.
    pub open spec fn offset_of(self) -> int {
        match self {
            Register::Priority { source } => PRIORITY_BASE + 4 * source,
            Register::Pending { word } => PENDING_BASE + 4 * word,
            Register::Enable { context, word } => ENABLE_BASE + 0x80 * context + 4 * word,
            Register::Threshold { context } => CONTEXT_BASE + 0x1000 * context,
            Register::Claim { context } => CONTEXT_BASE + 0x1000 * context + CLAIM_OFFSET,
        }
    }

    /// Tells whether the layout declares this register.
    pub fn is_in_layout(self) -> (r: bool)
        ensures
            r == self.in_layout(),
    {
        match self {
            Register::Priority { source } => source < SOURCES,
            Register::Pending { word } => word < PENDING_WORDS,
            Register::Enable { context, word } => context < CONTEXTS && word < ENABLE_WORDS,
            Register::Threshold { context } => context < CONTEXTS,
            Register::Claim { context } => context < CONTEXTS,
        }
    }

    /// The offset of the register from the base address, in bytes.
    pub fn offset(self) -> (r: usize)
        requires
            self.in_layout(),
        ensures
            r == self.offset_of(),
            r % WORD_BYTES == 0,
            r + WORD_BYTES <= SIZE,
    {
        match self {
            Register::Priority { source } => PRIORITY_BASE + 4 * source,
            Register::Pending { word } => PENDING_BASE + 4 * word,
            Register::Enable { context, word } => ENABLE_BASE + 0x80 * context + 4 * word,
            Register::Threshold { context } => CONTEXT_BASE + 0x1000 * context,
            Register::Claim { context } => CONTEXT_BASE + 0x1000 * context + CLAIM_OFFSET,
        }
    }

    /// The address of the register in a controller at `base`, or `None` where
    /// the layout does not declare the register or the address space ends
    /// before it.
    pub fn address(self, base: usize) -> (r: Option<usize>)
        ensures
            r is Some <==> self.in_layout() && base + self.offset_of() + WORD_BYTES - 1
                <= usize::MAX,
            r matches Some(a) ==> a == base + self.offset_of(),
    {
        if !self.is_in_layout() {
            return None;
        }
        let offset = self.offset();
        if offset + (WORD_BYTES - 1) <= usize::MAX - base {
            Some(base + offset)
        } else {
            None
        }
    }

    /// The priority register of a source.
    pub fn priority(source: Nr) -> (r: Register)
        ensures
            r == (Register::Priority { source: source@ as usize }),
            r.in_layout(),
            is_source(source@ as int),
    {
        Register::Priority { source: source.index() as usize }
    }

    /// The word of the pending array that holds the bit of a source.
    pub fn pending(source: Nr) -> (r: Register)
        ensures
            r == (Register::Pending { word: word_of(source@ as int) as usize }),
            r.in_layout(),
            is_source(source@ as int),
    {
        Register::Pending { word: word_index(source) }
    }

    /// The word of the enable array of `context` that holds the bit of a
    /// source.
    pub fn enable(context: usize, source: Nr) -> (r: Register)
        ensures
            r == (Register::Enable { context, word: word_of(source@ as int) as usize }),
            context < CONTEXTS ==> r.in_layout(),
            is_source(source@ as int),
    {
        Register::Enable { context, word: word_index(source) }
    }
}

/// No two registers of the layout share an offset.
pub proof fn lemma_offsets_distinct(a: Register, b: Register)
    requires
        a.in_layout(),
        b.in_layout(),
        a != b,
    ensures
        a.offset_of() != b.offset_of(),
{
}

/// The index of the bitmap word that holds the bit of source `source`.
pub open spec fn word_of(source: int) -> int {
    source / 32
}

/// The position of the bit of source `source` in its bitmap word.
pub open spec fn bit_of(source: int) -> int {
    source % 32
}

/// The word with only the bit of source `source` set.
pub open spec fn mask_of(source: int) -> u32 {
    1u32 << (bit_of(source) as u32)
}

/// Whether the bit of source `source` is set in the bitmap word `word`.
pub open spec fn bit_is_set(word: u32, source: int) -> bool {
    word & mask_of(source) != 0
}

/// The index of the bitmap word that holds the bit of a source.
pub fn word_index(source: Nr) -> (r: usize)
    ensures
        r == word_of(source@ as int),
        r < ENABLE_WORDS,
        is_source(source@ as int),
{
    source.index() as usize / WORD_BITS
}

/// The word with only the bit of a source set.
pub fn mask(source: Nr) -> (r: u32)
    ensures
        r == mask_of(source@ as int),
{
    let bit: u32 = (source.index() % 32) as u32;
    1u32 << bit
}

/// Tells whether the bit of a source is set in its bitmap word.
pub fn test_bit(word: u32, source: Nr) -> (r: bool)
    ensures
        r == bit_is_set(word, source@ as int),
{
    word & mask(source) != 0
}

/// The bitmap word with the bit of a source set and all others as before.
pub fn set_bit(word: u32, source: Nr) -> (r: u32)
    ensures
        r == word | mask_of(source@ as int),
{
    word | mask(source)
}

/// The bitmap word with the bit of a source cleared and all others as before.
pub fn clear_bit(word: u32, source: Nr) -> (r: u32)
    ensures
        r == word & !mask_of(source@ as int),
{
    word & !mask(source)
}

/// Setting the bit of source `s` sets that bit and leaves the bit of every
/// other source of the word as it was.
pub proof fn lemma_set_bit(word: u32, s: int, t: int)
    ensures
        bit_is_set(word | mask_of(s), t) == (bit_of(t) == bit_of(s) || bit_is_set(word, t)),
{
    let i = bit_of(s) as u32;
    let j = bit_of(t) as u32;
    assert(((word | (1u32 << i)) & (1u32 << j) != 0) == (j == i || (word & (1u32 << j) != 0)))
        by (bit_vector)
        requires
            i < 32,
            j < 32,
    ;
}

/// Clearing the bit of source `s` clears that bit and leaves the bit of every
/// other source of the word as it was.
pub proof fn lemma_clear_bit(word: u32, s: int, t: int)
    ensures
        bit_is_set(word & !mask_of(s), t) == (bit_of(t) != bit_of(s) && bit_is_set(word, t)),
{
    let i = bit_of(s) as u32;
    let j = bit_of(t) as u32;
    assert(((word & !(1u32 << i)) & (1u32 << j) != 0) == (j != i && (word & (1u32 << j) != 0)))
        by (bit_vector)
        requires
            i < 32,
            j < 32,
    ;
}

/// No bit is set in the word 0.
pub proof fn lemma_no_bit(t: int)
    ensures
        !bit_is_set(0, t),
{
    let j = bit_of(t) as u32;
    assert(0u32 & (1u32 << j) == 0) by (bit_vector);
}

} // verus!
