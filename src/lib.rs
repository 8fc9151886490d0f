//! Decoding and re-encoding of the byte-code scripts found in the scenario archive of
//! the Cross Channel family of visual novels.
//!
//! - `bytes`: little-endian reads and writes.
//! - `sjis`: Shift-JIS strings, with the italic mapping.
//! - `opcodes`: every opcode shape, how it is read and written.
//! - `quirks`: the flags that pick between readings of ambiguous opcode bytes.
//! - `reader`: which shape an opcode byte stands for, and reading one opcode.
//! - `script`: reading a whole script, and writing it back with every jump target moved
//!   to where its opcode now stands and every tip window measured again.
//! - `roundtrip`: writing back a script just read gives the bytes it came from.
//! - `archive`: the directory of scripts and the LZ container round it.
//! - `text`: wrapping of dialogue lines in the editable form.
//! - `tl`: the translator's document, written from a script and read back into it.
//! - `error`: what can go wrong.

pub mod archive;
pub mod bytes;
pub mod error;
pub mod opcodes;
pub mod quirks;
pub mod reader;
pub mod roundtrip;
pub mod script;
pub mod sjis;
pub mod text;
pub mod tl;

use vstd::prelude::*;

verus! {

} // verus!
