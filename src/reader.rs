//! The opcode reader: which shape an opcode byte stands for, and reading it.
use vstd::prelude::*;
use crate::bytes::{bounds_error, in_bounds};
use crate::error::YetiError;
use crate::opcodes::{
    choice_error, choices_fit, has_text_at, BasicOpcode10, BasicOpcode12, BasicOpcode16, BasicOpcode2, BasicOpcode3,
    BasicOpcode4, BasicOpcode6, BasicOpcode8, ChoiceOpcode, Custom77, DirectJumpOpcode,
    JumpOpcode2, JumpOpcode4, LongJumpOpcode, Op44Opcode, Opcode, SingleByteOpcode,
    String47Opcode, String55Opcode, StringOpcode, StringOpcode2, SwitchOpcode,
};
use crate::quirks::Quirks;
use crate::sjis::{italic_entries, ItalicMap};

verus! {

/// The shape of an opcode: how many operand bytes follow its byte, and of what kind.
#[derive(Clone, Copy, Debug, PartialEq, Eq, Structural)]
pub enum OpKind {
    Single,
    Basic2,
    Basic3,
    Basic4,
    Basic6,
    Basic8,
    Basic10,
    Basic12,
    Basic16,
    Voice,
    Switch,
    Text,
    Text2,
    Text47,
    Text55,
    Jump2,
    Jump4,
    DirectJump,
    LongJump,
    Choice,
    Tip,
}

/// The shape that `byte` stands for under the quirks `q`, an empty set standing for CCFC
/// alone; `None` for a byte that is no opcode, or whose meaning needs a quirk that `q` lacks.
#[verifier::opaque]
pub open spec fn kind_of(byte: u8, q: Quirks) -> Option<OpKind> {
    let q = q.in_effect();
    match byte {
        0x00 | 0x05 | 0x1B | 0x1C | 0x2A | 0x2B | 0x2E | 0x33 | 0x37 | 0x59 | 0x5A | 0x5F | 0x70 | 0x87 | 0x8D | 0xFF => Some(OpKind::Single),
        0x01 | 0x03 => Some(OpKind::DirectJump),
        0x02 | 0x04 => Some(OpKind::LongJump),
        0x06 | 0x07 | 0x08 | 0x09 | 0x0A | 0x0B => Some(OpKind::Jump4),
        0x0C | 0x0D => Some(OpKind::Jump2),
        0x0E => Some(OpKind::Switch),
        0x2C | 0x2F | 0x3B | 0x3C | 0x48 | 0x4A | 0x53 | 0x66 | 0x69 | 0x6B | 0x82 | 0x84 | 0x8A => Some(OpKind::Basic2),
        0x36 => Some(OpKind::Basic3),
        0x10 | 0x11 | 0x12 | 0x13 | 0x14 | 0x15 | 0x16 | 0x17 | 0x18 | 0x1A | 0x22 | 0x25 | 0x2D | 0x39 | 0x3A | 0x49 | 0x4B | 0x4F | 0x6A | 0x6E | 0x72 | 0x75 | 0x80 | 0x83 | 0x8B => Some(OpKind::Basic4),
        0x1D | 0x20 | 0x21 | 0x24 | 0x4C | 0x51 | 0x6F | 0x71 | 0x74 | 0x81 | 0x8F => Some(OpKind::Basic6),
        0x19 | 0x42 => Some(OpKind::Basic8),
        0x1E | 0x30 | 0x34 | 0x68 | 0x8E => Some(OpKind::Basic10),
        0x1F => Some(OpKind::Basic12),
        0x6C => Some(OpKind::Basic16),
        0x44 => Some(OpKind::Voice),
        0x45 | 0x85 | 0x86 => Some(OpKind::Text),
        0x90 => Some(OpKind::Text2),
        0x55 => Some(OpKind::Text55),
        0x31 | 0x32 => Some(OpKind::Choice),
        0x77 => Some(OpKind::Tip),
        0x0F => if q.sg {
            Some(OpKind::Single)
        } else if q.xbox {
            Some(OpKind::Basic8)
        } else {
            None
        },
        0x23 => if q.ccfc || q.phantom {
            Some(OpKind::Basic8)
        } else {
            Some(OpKind::Basic6)
        },
        0x43 => if q.spec_newer() {
            Some(OpKind::Basic4)
        } else {
            Some(OpKind::Basic2)
        },
        0x47 => if q.spec_newer() {
            Some(OpKind::Text47)
        } else {
            Some(OpKind::Text2)
        },
        0x56 => if q.phantom {
            Some(OpKind::Basic2)
        } else {
            Some(OpKind::Basic4)
        },
        0x7A => if q.sg2 {
            Some(OpKind::Basic6)
        } else if q.xbox_root {
            Some(OpKind::Basic10)
        } else {
            None
        },
        0x7B => if q.xbox_root {
            Some(OpKind::Text)
        } else {
            Some(OpKind::Basic4)
        },
        0x8C => if q.phantom {
            Some(OpKind::Basic4)
        } else {
            Some(OpKind::Basic12)
        },
        _ => None,
    }
}

/// Whether `byte` has more than one meaning and `q` picks none.
pub open spec fn needs_quirk(byte: u8, q: Quirks) -> bool {
    let q = q.in_effect();
    (byte == 0x0F && !q.sg && !q.xbox) || (byte == 0x7A && !q.sg2 && !q.xbox_root)
}

/// The shape that `byte` stands for under the quirks `q`.
pub fn opcode_kind(byte: u8, q: Quirks) -> (r: Option<OpKind>)
    ensures
        r == kind_of(byte, q),
{
    reveal(kind_of);
    let q = if q.is_empty() {
        Quirks::ccfc_only()
    } else {
        q
    };
    match byte {
        0x00 | 0x05 | 0x1B | 0x1C | 0x2A | 0x2B | 0x2E | 0x33 | 0x37 | 0x59 | 0x5A | 0x5F | 0x70 | 0x87 | 0x8D | 0xFF => Some(OpKind::Single),
        0x01 | 0x03 => Some(OpKind::DirectJump),
        0x02 | 0x04 => Some(OpKind::LongJump),
        0x06 | 0x07 | 0x08 | 0x09 | 0x0A | 0x0B => Some(OpKind::Jump4),
        0x0C | 0x0D => Some(OpKind::Jump2),
        0x0E => Some(OpKind::Switch),
        0x2C | 0x2F | 0x3B | 0x3C | 0x48 | 0x4A | 0x53 | 0x66 | 0x69 | 0x6B | 0x82 | 0x84 | 0x8A => Some(OpKind::Basic2),
        0x36 => Some(OpKind::Basic3),
        0x10 | 0x11 | 0x12 | 0x13 | 0x14 | 0x15 | 0x16 | 0x17 | 0x18 | 0x1A | 0x22 | 0x25 | 0x2D | 0x39 | 0x3A | 0x49 | 0x4B | 0x4F | 0x6A | 0x6E | 0x72 | 0x75 | 0x80 | 0x83 | 0x8B => Some(OpKind::Basic4),
        0x1D | 0x20 | 0x21 | 0x24 | 0x4C | 0x51 | 0x6F | 0x71 | 0x74 | 0x81 | 0x8F => Some(OpKind::Basic6),
        0x19 | 0x42 => Some(OpKind::Basic8),
        0x1E | 0x30 | 0x34 | 0x68 | 0x8E => Some(OpKind::Basic10),
        0x1F => Some(OpKind::Basic12),
        0x6C => Some(OpKind::Basic16),
        0x44 => Some(OpKind::Voice),
        0x45 | 0x85 | 0x86 => Some(OpKind::Text),
        0x90 => Some(OpKind::Text2),
        0x55 => Some(OpKind::Text55),
        0x31 | 0x32 => Some(OpKind::Choice),
        0x77 => Some(OpKind::Tip),
        0x0F => if q.sg {
            Some(OpKind::Single)
        } else if q.xbox {
            Some(OpKind::Basic8)
        } else {
            None
        },
        0x23 => if q.ccfc || q.phantom {
            Some(OpKind::Basic8)
        } else {
            Some(OpKind::Basic6)
        },
        0x43 => if (q.ccfc || q.xbox || q.xbox_root || q.sg2) {
            Some(OpKind::Basic4)
        } else {
            Some(OpKind::Basic2)
        },
        0x47 => if (q.ccfc || q.xbox || q.xbox_root || q.sg2) {
            Some(OpKind::Text47)
        } else {
            Some(OpKind::Text2)
        },
        0x56 => if q.phantom {
            Some(OpKind::Basic2)
        } else {
            Some(OpKind::Basic4)
        },
        0x7A => if q.sg2 {
            Some(OpKind::Basic6)
        } else if q.xbox_root {
            Some(OpKind::Basic10)
        } else {
            None
        },
        0x7B => if q.xbox_root {
            Some(OpKind::Text)
        } else {
            Some(OpKind::Basic4)
        },
        0x8C => if q.phantom {
            Some(OpKind::Basic4)
        } else {
            Some(OpKind::Basic12)
        },
        _ => None,
    }
}

/// Whether `op` is the opcode of shape `k` that the bytes at `a` hold; the lengths of
/// choice texts are measured under the italic mapping `t`.
#[verifier::opaque]
pub open spec fn decodes(op: Opcode, k: OpKind, a: int, input: Seq<u8>, t: Map<char, u16>) -> bool {
    match k {
        OpKind::Single => op is Single && op->Single_0.read_from(a, input),
        OpKind::Basic2 => op is Basic2 && op->Basic2_0.read_from(a, input),
        OpKind::Basic3 => op is Basic3 && op->Basic3_0.read_from(a, input),
        OpKind::Basic4 => op is Basic4 && op->Basic4_0.read_from(a, input),
        OpKind::Basic6 => op is Basic6 && op->Basic6_0.read_from(a, input),
        OpKind::Basic8 => op is Basic8 && op->Basic8_0.read_from(a, input),
        OpKind::Basic10 => op is Basic10 && op->Basic10_0.read_from(a, input),
        OpKind::Basic12 => op is Basic12 && op->Basic12_0.read_from(a, input),
        OpKind::Basic16 => op is Basic16 && op->Basic16_0.read_from(a, input),
        OpKind::Voice => op is Voice && op->Voice_0.read_from(a, input),
        OpKind::Switch => op is Switch && op->Switch_0.read_from(a, input),
        OpKind::Text => op is Text && op->Text_0.read_from(a, input),
        OpKind::Text2 => op is Text2 && op->Text2_0.read_from(a, input),
        OpKind::Text47 => op is Text47 && op->Text47_0.read_from(a, input),
        OpKind::Text55 => op is Text55 && op->Text55_0.read_from(a, input),
        OpKind::Jump2 => op is Jump2 && op->Jump2_0.read_from(a, input),
        OpKind::Jump4 => op is Jump4 && op->Jump4_0.read_from(a, input),
        OpKind::DirectJump => op is DirectJump && op->DirectJump_0.read_from(a, input),
        OpKind::LongJump => op is LongJump && op->LongJump_0.read_from(a, input),
        OpKind::Choice => op is Choice && op->Choice_0.read_from(a, input, t),
        OpKind::Tip => op is Tip && op->Tip_0.read_from(a, input),
    }
}

/// Whether the bytes at `a` hold all that an opcode of shape `k` reads; where each choice
/// of a menu starts depends on the encoded length, under the italic mapping `t`, of the
/// texts before it.
pub open spec fn fits(k: OpKind, a: int, input: Seq<u8>, t: Map<char, u16>) -> bool {
    let n = input.len() as int;
    match k {
        OpKind::Single => in_bounds(a, 1, n),
        OpKind::Basic2 => in_bounds(a, 3, n),
        OpKind::Basic3 => in_bounds(a, 4, n),
        OpKind::Basic4 => in_bounds(a, 5, n),
        OpKind::Basic6 => in_bounds(a, 7, n),
        OpKind::Basic8 => in_bounds(a, 9, n),
        OpKind::Basic10 => in_bounds(a, 11, n),
        OpKind::Basic12 => in_bounds(a, 13, n),
        OpKind::Basic16 => in_bounds(a, 17, n),
        OpKind::Jump2 => in_bounds(a, 7, n),
        OpKind::Jump4 => in_bounds(a, 9, n),
        OpKind::DirectJump => in_bounds(a, 5, n),
        OpKind::LongJump => in_bounds(a, 5, n),
        OpKind::Tip => in_bounds(a, 4, n),
        OpKind::Voice => in_bounds(a, 5, n) && in_bounds(a, Op44Opcode::size_at(a, input), n),
        OpKind::Switch => in_bounds(a, 5, n) && in_bounds(a, SwitchOpcode::size_at(a, input), n),
        OpKind::Text => in_bounds(a, 5, n) && has_text_at(input, a + 5),
        OpKind::Text2 => in_bounds(a, 3, n) && has_text_at(input, a + 3),
        OpKind::Text55 => in_bounds(a, 10, n) && has_text_at(input, a + 10),
        OpKind::Text47 => in_bounds(a, 3, n) && in_bounds(a, String47Opcode::text_offset(a, input) - a, n)
            && has_text_at(input, String47Opcode::text_offset(a, input)),
        OpKind::Choice => in_bounds(a, 7, n) && choices_fit(input, a + 7, input[a + 3] as int, t),
    }
}

/// The error that reading an opcode of shape `k` at `a` stops with where its bytes are not
/// all there: the bounds of the first read that runs past the end.
pub open spec fn shape_error(k: OpKind, a: int, input: Seq<u8>, t: Map<char, u16>) -> YetiError {
    let n = input.len() as int;
    match k {
        OpKind::Single => bounds_error(a as usize, 1),
        OpKind::Basic2 => bounds_error(a as usize, 3),
        OpKind::Basic3 => bounds_error(a as usize, 4),
        OpKind::Basic4 => bounds_error(a as usize, 5),
        OpKind::Basic6 => bounds_error(a as usize, 7),
        OpKind::Basic8 => bounds_error(a as usize, 9),
        OpKind::Basic10 => bounds_error(a as usize, 11),
        OpKind::Basic12 => bounds_error(a as usize, 13),
        OpKind::Basic16 => bounds_error(a as usize, 17),
        OpKind::Jump2 => bounds_error(a as usize, 7),
        OpKind::Jump4 => bounds_error(a as usize, 9),
        OpKind::DirectJump => bounds_error(a as usize, 5),
        OpKind::LongJump => bounds_error(a as usize, 5),
        OpKind::Tip => bounds_error(a as usize, 4),
        OpKind::Voice => if !in_bounds(a, 5, n) {
            bounds_error(a as usize, 5)
        } else {
            bounds_error(a as usize, 6)
        },
        OpKind::Switch => if !in_bounds(a, 5, n) {
            bounds_error(a as usize, 5)
        } else {
            bounds_error(a as usize, SwitchOpcode::size_at(a, input) as usize)
        },
        OpKind::Text => if !in_bounds(a, 5, n) {
            bounds_error(a as usize, 5)
        } else {
            bounds_error((a + 5) as usize, n as usize)
        },
        OpKind::Text2 => if !in_bounds(a, 3, n) {
            bounds_error(a as usize, 3)
        } else {
            bounds_error((a + 3) as usize, n as usize)
        },
        OpKind::Text55 => if !in_bounds(a, 10, n) {
            bounds_error(a as usize, 10)
        } else {
            bounds_error((a + 10) as usize, n as usize)
        },
        OpKind::Text47 => if !in_bounds(a, 3, n) {
            bounds_error(a as usize, 3)
        } else if !in_bounds(a, String47Opcode::text_offset(a, input) - a, n) {
            bounds_error(a as usize, 5)
        } else {
            bounds_error(String47Opcode::text_offset(a, input) as usize, n as usize)
        },
        OpKind::Choice => if !in_bounds(a, 7, n) {
            bounds_error(a as usize, 7)
        } else {
            choice_error(input, a + 7, input[a + 3] as int, t)
        },
    }
}

impl Opcode {
    /// Reads the opcode at `address`, its shape picked by its byte and `quirks`.
    pub fn eat(address: usize, input: &[u8], quirks: Quirks, italics: &ItalicMap) -> (r: Result<Opcode, YetiError>)
        ensures
            !in_bounds(address as int, 1, input@.len() as int) ==> r == Err::<Opcode, YetiError>(
                bounds_error(address, 1)),
            in_bounds(address as int, 1, input@.len() as int) ==> {
                let byte = input@[address as int];
                match kind_of(byte, quirks) {
                    None => if needs_quirk(byte, quirks) {
                        r == Err::<Opcode, YetiError>(YetiError::QuirkRequired { opcode: byte, address })
                    } else {
                        r == Err::<Opcode, YetiError>(YetiError::ParseOpcode { opcode: byte, address })
                    },
                    Some(k) => {
                        &&& r is Ok ==> decodes(r->Ok_0, k, address as int, input@, italic_entries(*italics))
                        &&& r is Ok <==> fits(k, address as int, input@, italic_entries(*italics))
                        &&& r is Err ==> r->Err_0 == shape_error(
                            k,
                            address as int,
                            input@,
                            italic_entries(*italics),
                        )
                    },
                }
            },
    {
        proof {
            reveal(decodes);
            reveal(kind_of);
        }
        if address >= input.len() {
            return Err(YetiError::ParseBounds { address, len: 1 });
        }
        let byte = input[address];
        let kind = match opcode_kind(byte, quirks) {
            Some(k) => k,
            None => {
                if (byte == 0x0F && !quirks.sg && !quirks.xbox) || (byte == 0x7A && !quirks.sg2
                    && !quirks.xbox_root) {
                    return Err(YetiError::QuirkRequired { opcode: byte, address });
                }
                return Err(YetiError::ParseOpcode { opcode: byte, address });
            },
        };
        match kind {
            OpKind::Single => match SingleByteOpcode::new(address, input) {
                Ok(o) => Ok(Opcode::Single(o)),
                Err(e) => Err(e),
            },
            OpKind::Basic2 => match BasicOpcode2::new(address, input) {
                Ok(o) => Ok(Opcode::Basic2(o)),
                Err(e) => Err(e),
            },
            OpKind::Basic3 => match BasicOpcode3::new(address, input) {
                Ok(o) => Ok(Opcode::Basic3(o)),
                Err(e) => Err(e),
            },
            OpKind::Basic4 => match BasicOpcode4::new(address, input) {
                Ok(o) => Ok(Opcode::Basic4(o)),
                Err(e) => Err(e),
            },
            OpKind::Basic6 => match BasicOpcode6::new(address, input) {
                Ok(o) => Ok(Opcode::Basic6(o)),
                Err(e) => Err(e),
            },
            OpKind::Basic8 => match BasicOpcode8::new(address, input) {
                Ok(o) => Ok(Opcode::Basic8(o)),
                Err(e) => Err(e),
            },
            OpKind::Basic10 => match BasicOpcode10::new(address, input) {
                Ok(o) => Ok(Opcode::Basic10(o)),
                Err(e) => Err(e),
            },
            OpKind::Basic12 => match BasicOpcode12::new(address, input) {
                Ok(o) => Ok(Opcode::Basic12(o)),
                Err(e) => Err(e),
            },
            OpKind::Basic16 => match BasicOpcode16::new(address, input) {
                Ok(o) => Ok(Opcode::Basic16(o)),
                Err(e) => Err(e),
            },
            OpKind::Voice => match Op44Opcode::new(address, input) {
                Ok(o) => Ok(Opcode::Voice(o)),
                Err(e) => Err(e),
            },
            OpKind::Switch => match SwitchOpcode::new(address, input) {
                Ok(o) => Ok(Opcode::Switch(o)),
                Err(e) => Err(e),
            },
            OpKind::Text => match StringOpcode::new(address, input) {
                Ok(o) => Ok(Opcode::Text(o)),
                Err(e) => Err(e),
            },
            OpKind::Text2 => match StringOpcode2::new(address, input) {
                Ok(o) => Ok(Opcode::Text2(o)),
                Err(e) => Err(e),
            },
            OpKind::Text47 => match String47Opcode::new(address, input) {
                Ok(o) => Ok(Opcode::Text47(o)),
                Err(e) => Err(e),
            },
            OpKind::Text55 => match String55Opcode::new(address, input) {
                Ok(o) => Ok(Opcode::Text55(o)),
                Err(e) => Err(e),
            },
            OpKind::Jump2 => match JumpOpcode2::new(address, input) {
                Ok(o) => Ok(Opcode::Jump2(o)),
                Err(e) => Err(e),
            },
            OpKind::Jump4 => match JumpOpcode4::new(address, input) {
                Ok(o) => Ok(Opcode::Jump4(o)),
                Err(e) => Err(e),
            },
            OpKind::DirectJump => match DirectJumpOpcode::new(address, input) {
                Ok(o) => Ok(Opcode::DirectJump(o)),
                Err(e) => Err(e),
            },
            OpKind::LongJump => match LongJumpOpcode::new(address, input) {
                Ok(o) => Ok(Opcode::LongJump(o)),
                Err(e) => Err(e),
            },
            OpKind::Choice => match ChoiceOpcode::new(address, input, italics) {
                Ok(o) => Ok(Opcode::Choice(o)),
                Err(e) => Err(e),
            },
            OpKind::Tip => match Custom77::new(address, input) {
                Ok(o) => Ok(Opcode::Tip(o)),
                Err(e) => Err(e),
            },
        }
    }
}

} // verus!
