use vstd::prelude::*;

verus! {

/// What can go wrong while reading or writing a script.
#[allow(inconsistent_fields)]
#[derive(Clone, Copy, Debug, PartialEq, Eq, Structural)]
pub enum YetiError {
    /// A read of `len` bytes at `address` would run past the end of the input.
    ParseBounds { address: usize, len: usize },
    /// The byte at `address` is no known opcode.
    ParseOpcode { opcode: u8, address: usize },
    /// A fixed-size header at `address` could not be taken from the input.
    ParseHeader { address: usize, header_size: usize },
    /// The opcode byte at `address` has more than one meaning and no quirk picks one.
    QuirkRequired { opcode: u8, address: usize },
    /// A tip opcode at `address` holds a skip length below its own three trailing bytes.
    TipUnderflow { address: usize },
    /// A jump of the opcode at `address` goes to `target`, where no opcode starts.
    RelocTargetMissing { address: u32, target: u32 },
    /// Two arms of the switch at `address` share the index `index`.
    DuplicateSwitchIndex { address: u32, index: u16 },
    /// The tip at `address` covers more opcodes than follow it, or a window too long
    /// for its two-byte length.
    TipWindow { address: u32 },
    /// The encoded script would not fit in a 32-bit address space.
    TooLarge,
}

} // verus!
