//! The opcode catalogue: every opcode shape, how it is read from bytes and
//! how it is written back.
use vstd::prelude::*;
use crate::bytes::{
    bounds_error, in_bounds, le16, le32, push_u16, push_u32, read_u16, read_u32, u16_at, u32_at,
};
use crate::error::YetiError;
use crate::sjis::{
    cstr_at, encode_sjis, get_sjis_bytes, italic_entries, sjis_encoding, sjis_text_of, ItalicMap,
};

verus! {

/// Whether `i` is the first position of `x` in `olds`.
pub open spec fn is_first(olds: Seq<u32>, x: u32, i: int) -> bool {
    0 <= i < olds.len() && olds[i] == x && forall|j: int| 0 <= j < i ==> olds[j] != x
}

/// Where a jump to `x` goes once the opcodes that started at `olds` start at `news`:
/// the new place of the first opcode that started at `x`, or `x` itself where none did.
pub open spec fn retarget(olds: Seq<u32>, news: Seq<u32>, x: u32) -> u32 {
    if exists|i: int| #[trigger] is_first(olds, x, i) {
        news[choose|i: int| #[trigger] is_first(olds, x, i)]
    } else {
        x
    }
}

/// The mapping that leaves every jump target as it is.
pub open spec fn unmoved() -> spec_fn(u32) -> u32 {
    |x: u32| x
}

/// A table from old opcode addresses to new ones, used to rewrite jump targets.
pub struct Relocation {
    pub olds: Vec<u32>,
    pub news: Vec<u32>,
}

impl Relocation {
    pub open spec fn wf(&self) -> bool {
        self.olds@.len() == self.news@.len()
    }

    /// The rewriting of jump targets that this table stands for.
    pub open spec fn map_fn(&self) -> spec_fn(u32) -> u32 {
        |x: u32| retarget(self.olds@, self.news@, x)
    }

    /// The table that moves nothing.
    pub fn identity() -> (r: Relocation)
        ensures
            r.wf(),
            r.map_fn() == unmoved(),
    {
        let r = Relocation { olds: Vec::new(), news: Vec::new() };
        assert(r.map_fn() =~= unmoved()) by {
            assert forall|x: u32| (#[trigger] (r.map_fn())(x)) == (unmoved())(x) by {
                assert(!exists|i: int| #[trigger] is_first(r.olds@, x, i));
            }
        }
        r
    }

    /// The first position of `x` among the old addresses.
    pub fn position(&self, x: u32) -> (r: Option<usize>)
        ensures
            r is Some ==> is_first(self.olds@, x, r->Some_0 as int),
            r is None ==> forall|i: int| !is_first(self.olds@, x, i),
            r is None ==> !self.olds@.contains(x),
    {
        let mut i: usize = 0;
        while i < self.olds.len()
            invariant
                i <= self.olds@.len(),
                forall|j: int| 0 <= j < i ==> self.olds@[j] != x,
            decreases self.olds@.len() - i,
        {
            if self.olds[i] == x {
                return Some(i);
            }
            i += 1;
        }
        None
    }

    /// The new target of a jump to `x`.
    pub fn target(&self, x: u32) -> (r: u32)
        requires
            self.wf(),
        ensures
            r == (self.map_fn())(x),
    {
        match self.position(x) {
            Some(i) => {
                assert(is_first(self.olds@, x, i as int));
                let ghost c = choose|k: int| #[trigger] is_first(self.olds@, x, k);
                assert(c == i as int) by {
                    assert(is_first(self.olds@, x, c));
                    if c < i as int {
                        assert(self.olds@[c] != x);
                    } else if c > i as int {
                        assert(self.olds@[i as int] != x);
                    }
                }
                self.news[i]
            },
            None => x,
        }
    }
}

/// The text that a string opcode writes: its translation where it has one.
pub open spec fn payload(unicode: String, translation: Option<String>) -> Seq<char> {
    match translation {
        Some(tl) => tl@,
        None => unicode@,
    }
}

/// The bytes of a string operand: the Shift-JIS encoding of its payload, then a NUL.
pub open spec fn text_bytes(unicode: String, translation: Option<String>, t: Map<char, u16>) -> Seq<
    u8,
> {
    sjis_encoding(payload(unicode, translation), t).push(0)
}

/// Whether the bytes at `a` hold a NUL-terminated string whose text is `s`.
pub open spec fn text_at(input: Seq<u8>, a: int, s: Seq<char>) -> bool {
    exists|n: int| #[trigger] cstr_at(input, a, n) && s == sjis_text_of(input.subrange(a, a + n))
}

/// Whether the bytes at `a` hold a NUL-terminated string.
pub open spec fn has_text_at(input: Seq<u8>, a: int) -> bool {
    exists|n: int| #[trigger] cstr_at(input, a, n)
}

/// Appends the bytes of a string operand.
pub fn push_text(
    out: &mut Vec<u8>,
    unicode: &String,
    translation: &Option<String>,
    italics: &ItalicMap,
)
    ensures
        final(out)@ == old(out)@ + text_bytes(*unicode, *translation, italic_entries(*italics)),
{
    let mut enc = match translation {
        Some(tl) => encode_sjis(tl.as_str(), italics),
        None => encode_sjis(unicode.as_str(), italics),
    };
    enc.push(0);
    out.append(&mut enc);
}

/// Reads the string at `address` for an opcode: its text, or the bounds error.
fn read_text(address: usize, input: &[u8]) -> (r: Result<String, YetiError>)
    ensures
        r is Ok <==> has_text_at(input@, address as int),
        r is Ok ==> text_at(input@, address as int, r->Ok_0@),
        r is Err ==> r == Err::<String, YetiError>(bounds_error(address, input@.len() as usize)),
{
    match get_sjis_bytes(address, input) {
        Ok((raw, text)) => {
            let ghost n = raw@.len() - 1;
            assert(cstr_at(input@, address as int, n));
            Ok(text)
        },
        Err(e) => Err(e),
    }
}

/// An opcode byte followed by 2 operand bytes.
#[derive(Clone, Copy, Debug, PartialEq, Eq)]
pub struct BasicOpcode2 {
    pub address: u32,
    pub actual_address: u32,
    pub opcode: u8,
    pub arg1: u16,
}

impl BasicOpcode2 {
    /// The bytes of the opcode.
    pub open spec fn spec_bytes(&self) -> Seq<u8> {
        seq![self.opcode] + le16(self.arg1)
    }

    /// Whether this is the opcode that the bytes at `a` hold.
    pub open spec fn read_from(&self, a: int, input: Seq<u8>) -> bool {
        self.address == a as u32
            && self.actual_address == a as u32
            && self.opcode == input[a]
            && self.arg1 == u16_at(input, a + 1)
    }

    /// Reads the opcode at `address`: 3 bytes.
    pub fn new(address: usize, input: &[u8]) -> (r: Result<Self, YetiError>)
        ensures
            in_bounds(address as int, 3, input@.len() as int) ==> r is Ok && r->Ok_0.read_from(address as int, input@),
            !in_bounds(address as int, 3, input@.len() as int) ==> r == Err::<Self, YetiError>(bounds_error(address, 3)),
    {
        if address > input.len() || 3 > input.len() - address {
            return Err(YetiError::ParseBounds { address, len: 3 });
        }
        Ok(BasicOpcode2 { address: address as u32, actual_address: address as u32, opcode: input[address], arg1: read_u16(input, address + 1) })
    }

    /// Appends the bytes of the opcode.
    pub fn write(&self, out: &mut Vec<u8>)
        ensures
            final(out)@ == old(out)@ + self.spec_bytes(),
    {
        out.push(self.opcode);
        push_u16(out, self.arg1);
        assert(out@ =~= old(out)@ + (seq![self.opcode] + le16(self.arg1)));
    }
}

/// An opcode byte followed by 3 operand bytes.
#[derive(Clone, Copy, Debug, PartialEq, Eq)]
pub struct BasicOpcode3 {
    pub address: u32,
    pub actual_address: u32,
    pub opcode: u8,
    pub arg1: u16,
    pub padding: u8,
}

impl BasicOpcode3 {
    /// The bytes of the opcode.
    pub open spec fn spec_bytes(&self) -> Seq<u8> {
        seq![self.opcode] + le16(self.arg1) + seq![self.padding]
    }

    /// Whether this is the opcode that the bytes at `a` hold.
    pub open spec fn read_from(&self, a: int, input: Seq<u8>) -> bool {
        self.address == a as u32
            && self.actual_address == a as u32
            && self.opcode == input[a]
            && self.arg1 == u16_at(input, a + 1)
            && self.padding == input[a + 3]
    }

    /// Reads the opcode at `address`: 4 bytes.
    pub fn new(address: usize, input: &[u8]) -> (r: Result<Self, YetiError>)
        ensures
            in_bounds(address as int, 4, input@.len() as int) ==> r is Ok && r->Ok_0.read_from(address as int, input@),
            !in_bounds(address as int, 4, input@.len() as int) ==> r == Err::<Self, YetiError>(bounds_error(address, 4)),
    {
        if address > input.len() || 4 > input.len() - address {
            return Err(YetiError::ParseBounds { address, len: 4 });
        }
        Ok(BasicOpcode3 { address: address as u32, actual_address: address as u32, opcode: input[address], arg1: read_u16(input, address + 1), padding: input[address + 3] })
    }

    /// Appends the bytes of the opcode.
    pub fn write(&self, out: &mut Vec<u8>)
        ensures
            final(out)@ == old(out)@ + self.spec_bytes(),
    {
        out.push(self.opcode);
        push_u16(out, self.arg1);
        out.push(self.padding);
        assert(out@ =~= old(out)@ + (seq![self.opcode] + le16(self.arg1) + seq![self.padding]));
    }
}

/// An opcode byte followed by 4 operand bytes.
#[derive(Clone, Copy, Debug, PartialEq, Eq)]
pub struct BasicOpcode4 {
    pub address: u32,
    pub actual_address: u32,
    pub opcode: u8,
    pub arg1: u16,
    pub arg2: u16,
}

impl BasicOpcode4 {
    /// The bytes of the opcode.
    pub open spec fn spec_bytes(&self) -> Seq<u8> {
        seq![self.opcode] + le16(self.arg1) + le16(self.arg2)
    }

    /// Whether this is the opcode that the bytes at `a` hold.
    pub open spec fn read_from(&self, a: int, input: Seq<u8>) -> bool {
        self.address == a as u32
            && self.actual_address == a as u32
            && self.opcode == input[a]
            && self.arg1 == u16_at(input, a + 1)
            && self.arg2 == u16_at(input, a + 3)
    }

    /// Reads the opcode at `address`: 5 bytes.
    pub fn new(address: usize, input: &[u8]) -> (r: Result<Self, YetiError>)
        ensures
            in_bounds(address as int, 5, input@.len() as int) ==> r is Ok && r->Ok_0.read_from(address as int, input@),
            !in_bounds(address as int, 5, input@.len() as int) ==> r == Err::<Self, YetiError>(bounds_error(address, 5)),
    {
        if address > input.len() || 5 > input.len() - address {
            return Err(YetiError::ParseBounds { address, len: 5 });
        }
        Ok(BasicOpcode4 { address: address as u32, actual_address: address as u32, opcode: input[address], arg1: read_u16(input, address + 1), arg2: read_u16(input, address + 3) })
    }

    /// Appends the bytes of the opcode.
    pub fn write(&self, out: &mut Vec<u8>)
        ensures
            final(out)@ == old(out)@ + self.spec_bytes(),
    {
        out.push(self.opcode);
        push_u16(out, self.arg1);
        push_u16(out, self.arg2);
        assert(out@ =~= old(out)@ + (seq![self.opcode] + le16(self.arg1) + le16(self.arg2)));
    }
}

/// An opcode byte followed by 6 operand bytes.
#[derive(Clone, Copy, Debug, PartialEq, Eq)]
pub struct BasicOpcode6 {
    pub address: u32,
    pub actual_address: u32,
    pub opcode: u8,
    pub arg1: u16,
    pub arg2: u16,
    pub arg3: u16,
}

impl BasicOpcode6 {
    /// The bytes of the opcode.
    pub open spec fn spec_bytes(&self) -> Seq<u8> {
        seq![self.opcode] + le16(self.arg1) + le16(self.arg2) + le16(self.arg3)
    }

    /// Whether this is the opcode that the bytes at `a` hold.
    pub open spec fn read_from(&self, a: int, input: Seq<u8>) -> bool {
        self.address == a as u32
            && self.actual_address == a as u32
            && self.opcode == input[a]
            && self.arg1 == u16_at(input, a + 1)
            && self.arg2 == u16_at(input, a + 3)
            && self.arg3 == u16_at(input, a + 5)
    }

    /// Reads the opcode at `address`: 7 bytes.
    pub fn new(address: usize, input: &[u8]) -> (r: Result<Self, YetiError>)
        ensures
            in_bounds(address as int, 7, input@.len() as int) ==> r is Ok && r->Ok_0.read_from(address as int, input@),
            !in_bounds(address as int, 7, input@.len() as int) ==> r == Err::<Self, YetiError>(bounds_error(address, 7)),
    {
        if address > input.len() || 7 > input.len() - address {
            return Err(YetiError::ParseBounds { address, len: 7 });
        }
        Ok(BasicOpcode6 { address: address as u32, actual_address: address as u32, opcode: input[address], arg1: read_u16(input, address + 1), arg2: read_u16(input, address + 3), arg3: read_u16(input, address + 5) })
    }

    /// Appends the bytes of the opcode.
    pub fn write(&self, out: &mut Vec<u8>)
        ensures
            final(out)@ == old(out)@ + self.spec_bytes(),
    {
        out.push(self.opcode);
        push_u16(out, self.arg1);
        push_u16(out, self.arg2);
        push_u16(out, self.arg3);
        assert(out@ =~= old(out)@ + (seq![self.opcode] + le16(self.arg1) + le16(self.arg2) + le16(self.arg3)));
    }
}

/// An opcode byte followed by 8 operand bytes.
#[derive(Clone, Copy, Debug, PartialEq, Eq)]
pub struct BasicOpcode8 {
    pub address: u32,
    pub actual_address: u32,
    pub opcode: u8,
    pub arg1: u16,
    pub arg2: u16,
    pub arg3: u16,
    pub arg4: u16,
}

impl BasicOpcode8 {
    /// The bytes of the opcode.
    pub open spec fn spec_bytes(&self) -> Seq<u8> {
        seq![self.opcode] + le16(self.arg1) + le16(self.arg2) + le16(self.arg3) + le16(self.arg4)
    }

    /// Whether this is the opcode that the bytes at `a` hold.
    pub open spec fn read_from(&self, a: int, input: Seq<u8>) -> bool {
        self.address == a as u32
            && self.actual_address == a as u32
            && self.opcode == input[a]
            && self.arg1 == u16_at(input, a + 1)
            && self.arg2 == u16_at(input, a + 3)
            && self.arg3 == u16_at(input, a + 5)
            && self.arg4 == u16_at(input, a + 7)
    }

    /// Reads the opcode at `address`: 9 bytes.
    pub fn new(address: usize, input: &[u8]) -> (r: Result<Self, YetiError>)
        ensures
            in_bounds(address as int, 9, input@.len() as int) ==> r is Ok && r->Ok_0.read_from(address as int, input@),
            !in_bounds(address as int, 9, input@.len() as int) ==> r == Err::<Self, YetiError>(bounds_error(address, 9)),
    {
        if address > input.len() || 9 > input.len() - address {
            return Err(YetiError::ParseBounds { address, len: 9 });
        }
        Ok(BasicOpcode8 { address: address as u32, actual_address: address as u32, opcode: input[address], arg1: read_u16(input, address + 1), arg2: read_u16(input, address + 3), arg3: read_u16(input, address + 5), arg4: read_u16(input, address + 7) })
    }

    /// Appends the bytes of the opcode.
    pub fn write(&self, out: &mut Vec<u8>)
        ensures
            final(out)@ == old(out)@ + self.spec_bytes(),
    {
        out.push(self.opcode);
        push_u16(out, self.arg1);
        push_u16(out, self.arg2);
        push_u16(out, self.arg3);
        push_u16(out, self.arg4);
        assert(out@ =~= old(out)@ + (seq![self.opcode] + le16(self.arg1) + le16(self.arg2) + le16(self.arg3) + le16(self.arg4)));
    }
}

/// An opcode byte followed by 10 operand bytes.
#[derive(Clone, Copy, Debug, PartialEq, Eq)]
pub struct BasicOpcode10 {
    pub address: u32,
    pub actual_address: u32,
    pub opcode: u8,
    pub arg1: u16,
    pub arg2: u16,
    pub arg3: u16,
    pub arg4: u16,
    pub arg5: u16,
}

impl BasicOpcode10 {
    /// The bytes of the opcode.
    pub open spec fn spec_bytes(&self) -> Seq<u8> {
        seq![self.opcode] + le16(self.arg1) + le16(self.arg2) + le16(self.arg3) + le16(self.arg4) + le16(self.arg5)
    }

    /// Whether this is the opcode that the bytes at `a` hold.
    pub open spec fn read_from(&self, a: int, input: Seq<u8>) -> bool {
        self.address == a as u32
            && self.actual_address == a as u32
            && self.opcode == input[a]
            && self.arg1 == u16_at(input, a + 1)
            && self.arg2 == u16_at(input, a + 3)
            && self.arg3 == u16_at(input, a + 5)
            && self.arg4 == u16_at(input, a + 7)
            && self.arg5 == u16_at(input, a + 9)
    }

    /// Reads the opcode at `address`: 11 bytes.
    pub fn new(address: usize, input: &[u8]) -> (r: Result<Self, YetiError>)
        ensures
            in_bounds(address as int, 11, input@.len() as int) ==> r is Ok && r->Ok_0.read_from(address as int, input@),
            !in_bounds(address as int, 11, input@.len() as int) ==> r == Err::<Self, YetiError>(bounds_error(address, 11)),
    {
        if address > input.len() || 11 > input.len() - address {
            return Err(YetiError::ParseBounds { address, len: 11 });
        }
        Ok(BasicOpcode10 { address: address as u32, actual_address: address as u32, opcode: input[address], arg1: read_u16(input, address + 1), arg2: read_u16(input, address + 3), arg3: read_u16(input, address + 5), arg4: read_u16(input, address + 7), arg5: read_u16(input, address + 9) })
    }

    /// Appends the bytes of the opcode.
    pub fn write(&self, out: &mut Vec<u8>)
        ensures
            final(out)@ == old(out)@ + self.spec_bytes(),
    {
        out.push(self.opcode);
        push_u16(out, self.arg1);
        push_u16(out, self.arg2);
        push_u16(out, self.arg3);
        push_u16(out, self.arg4);
        push_u16(out, self.arg5);
        assert(out@ =~= old(out)@ + (seq![self.opcode] + le16(self.arg1) + le16(self.arg2) + le16(self.arg3) + le16(self.arg4) + le16(self.arg5)));
    }
}

/// An opcode byte followed by 12 operand bytes.
#[derive(Clone, Copy, Debug, PartialEq, Eq)]
pub struct BasicOpcode12 {
    pub address: u32,
    pub actual_address: u32,
    pub opcode: u8,
    pub arg1: u16,
    pub arg2: u16,
    pub arg3: u16,
    pub arg4: u16,
    pub arg5: u16,
    pub arg6: u16,
}

impl BasicOpcode12 {
    /// The bytes of the opcode.
    pub open spec fn spec_bytes(&self) -> Seq<u8> {
        seq![self.opcode] + le16(self.arg1) + le16(self.arg2) + le16(self.arg3) + le16(self.arg4) + le16(self.arg5) + le16(self.arg6)
    }

    /// Whether this is the opcode that the bytes at `a` hold.
    pub open spec fn read_from(&self, a: int, input: Seq<u8>) -> bool {
        self.address == a as u32
            && self.actual_address == a as u32
            && self.opcode == input[a]
            && self.arg1 == u16_at(input, a + 1)
            && self.arg2 == u16_at(input, a + 3)
            && self.arg3 == u16_at(input, a + 5)
            && self.arg4 == u16_at(input, a + 7)
            && self.arg5 == u16_at(input, a + 9)
            && self.arg6 == u16_at(input, a + 11)
    }

    /// Reads the opcode at `address`: 13 bytes.
    pub fn new(address: usize, input: &[u8]) -> (r: Result<Self, YetiError>)
        ensures
            in_bounds(address as int, 13, input@.len() as int) ==> r is Ok && r->Ok_0.read_from(address as int, input@),
            !in_bounds(address as int, 13, input@.len() as int) ==> r == Err::<Self, YetiError>(bounds_error(address, 13)),
    {
        if address > input.len() || 13 > input.len() - address {
            return Err(YetiError::ParseBounds { address, len: 13 });
        }
        Ok(BasicOpcode12 { address: address as u32, actual_address: address as u32, opcode: input[address], arg1: read_u16(input, address + 1), arg2: read_u16(input, address + 3), arg3: read_u16(input, address + 5), arg4: read_u16(input, address + 7), arg5: read_u16(input, address + 9), arg6: read_u16(input, address + 11) })
    }

    /// Appends the bytes of the opcode.
    pub fn write(&self, out: &mut Vec<u8>)
        ensures
            final(out)@ == old(out)@ + self.spec_bytes(),
    {
        out.push(self.opcode);
        push_u16(out, self.arg1);
        push_u16(out, self.arg2);
        push_u16(out, self.arg3);
        push_u16(out, self.arg4);
        push_u16(out, self.arg5);
        push_u16(out, self.arg6);
        assert(out@ =~= old(out)@ + (seq![self.opcode] + le16(self.arg1) + le16(self.arg2) + le16(self.arg3) + le16(self.arg4) + le16(self.arg5) + le16(self.arg6)));
    }
}

/// An opcode byte followed by 16 operand bytes.
#[derive(Clone, Copy, Debug, PartialEq, Eq)]
pub struct BasicOpcode16 {
    pub address: u32,
    pub actual_address: u32,
    pub opcode: u8,
    pub arg1: u16,
    pub arg2: u16,
    pub arg3: u16,
    pub arg4: u16,
    pub arg5: u16,
    pub arg6: u16,
    pub arg7: u16,
    pub arg8: u16,
}

impl BasicOpcode16 {
    /// The bytes of the opcode.
    pub open spec fn spec_bytes(&self) -> Seq<u8> {
        seq![self.opcode] + le16(self.arg1) + le16(self.arg2) + le16(self.arg3) + le16(self.arg4) + le16(self.arg5) + le16(self.arg6) + le16(self.arg7) + le16(self.arg8)
    }

    /// Whether this is the opcode that the bytes at `a` hold.
    pub open spec fn read_from(&self, a: int, input: Seq<u8>) -> bool {
        self.address == a as u32
            && self.actual_address == a as u32
            && self.opcode == input[a]
            && self.arg1 == u16_at(input, a + 1)
            && self.arg2 == u16_at(input, a + 3)
            && self.arg3 == u16_at(input, a + 5)
            && self.arg4 == u16_at(input, a + 7)
            && self.arg5 == u16_at(input, a + 9)
            && self.arg6 == u16_at(input, a + 11)
            && self.arg7 == u16_at(input, a + 13)
            && self.arg8 == u16_at(input, a + 15)
    }

    /// Reads the opcode at `address`: 17 bytes.
    pub fn new(address: usize, input: &[u8]) -> (r: Result<Self, YetiError>)
        ensures
            in_bounds(address as int, 17, input@.len() as int) ==> r is Ok && r->Ok_0.read_from(address as int, input@),
            !in_bounds(address as int, 17, input@.len() as int) ==> r == Err::<Self, YetiError>(bounds_error(address, 17)),
    {
        if address > input.len() || 17 > input.len() - address {
            return Err(YetiError::ParseBounds { address, len: 17 });
        }
        Ok(BasicOpcode16 { address: address as u32, actual_address: address as u32, opcode: input[address], arg1: read_u16(input, address + 1), arg2: read_u16(input, address + 3), arg3: read_u16(input, address + 5), arg4: read_u16(input, address + 7), arg5: read_u16(input, address + 9), arg6: read_u16(input, address + 11), arg7: read_u16(input, address + 13), arg8: read_u16(input, address + 15) })
    }

    /// Appends the bytes of the opcode.
    pub fn write(&self, out: &mut Vec<u8>)
        ensures
            final(out)@ == old(out)@ + self.spec_bytes(),
    {
        out.push(self.opcode);
        push_u16(out, self.arg1);
        push_u16(out, self.arg2);
        push_u16(out, self.arg3);
        push_u16(out, self.arg4);
        push_u16(out, self.arg5);
        push_u16(out, self.arg6);
        push_u16(out, self.arg7);
        push_u16(out, self.arg8);
        assert(out@ =~= old(out)@ + (seq![self.opcode] + le16(self.arg1) + le16(self.arg2) + le16(self.arg3) + le16(self.arg4) + le16(self.arg5) + le16(self.arg6) + le16(self.arg7) + le16(self.arg8)));
    }
}

/// An opcode of its byte alone.
#[derive(Clone, Copy, Debug, PartialEq, Eq)]
pub struct SingleByteOpcode {
    pub address: u32,
    pub actual_address: u32,
    pub opcode: u8,
}

impl SingleByteOpcode {
    /// The bytes of the opcode.
    pub open spec fn spec_bytes(&self) -> Seq<u8> {
        seq![self.opcode]
    }

    /// Whether this is the opcode that the bytes at `a` hold.
    pub open spec fn read_from(&self, a: int, input: Seq<u8>) -> bool {
        self.address == a as u32
            && self.actual_address == a as u32
            && self.opcode == input[a]
    }

    /// Reads the opcode at `address`: 1 bytes.
    pub fn new(address: usize, input: &[u8]) -> (r: Result<Self, YetiError>)
        ensures
            in_bounds(address as int, 1, input@.len() as int) ==> r is Ok && r->Ok_0.read_from(address as int, input@),
            !in_bounds(address as int, 1, input@.len() as int) ==> r == Err::<Self, YetiError>(bounds_error(address, 1)),
    {
        if address > input.len() || 1 > input.len() - address {
            return Err(YetiError::ParseBounds { address, len: 1 });
        }
        Ok(SingleByteOpcode { address: address as u32, actual_address: address as u32, opcode: input[address] })
    }

    /// Appends the bytes of the opcode.
    pub fn write(&self, out: &mut Vec<u8>)
        ensures
            final(out)@ == old(out)@ + self.spec_bytes(),
    {
        out.push(self.opcode);
        assert(out@ =~= old(out)@ + (seq![self.opcode]));
    }
}

/// A conditional jump: the opcode byte, one `u16` operand and an absolute `u32` target.
#[derive(Clone, Copy, Debug, PartialEq, Eq)]
pub struct JumpOpcode2 {
    pub address: u32,
    pub actual_address: u32,
    pub opcode: u8,
    pub arg1: u16,
    pub jump_address: u32,
}

impl JumpOpcode2 {
    /// The bytes of the opcode, with `target` written as its jump target.
    pub open spec fn spec_bytes_to(&self, target: u32) -> Seq<u8> {
        seq![self.opcode] + le16(self.arg1) + le32(target)
    }

    /// The bytes of the opcode.
    pub open spec fn spec_bytes(&self) -> Seq<u8> {
        self.spec_bytes_to(self.jump_address)
    }

    /// Whether this is the opcode that the bytes at `a` hold.
    pub open spec fn read_from(&self, a: int, input: Seq<u8>) -> bool {
        self.address == a as u32
            && self.actual_address == a as u32
            && self.opcode == input[a]
            && self.arg1 == u16_at(input, a + 1)
            && self.jump_address == u32_at(input, a + 3)
    }

    /// Reads the opcode at `address`: 7 bytes.
    pub fn new(address: usize, input: &[u8]) -> (r: Result<Self, YetiError>)
        ensures
            in_bounds(address as int, 7, input@.len() as int) ==> r is Ok && r->Ok_0.read_from(address as int, input@),
            !in_bounds(address as int, 7, input@.len() as int) ==> r == Err::<Self, YetiError>(bounds_error(address, 7)),
    {
        if address > input.len() || 7 > input.len() - address {
            return Err(YetiError::ParseBounds { address, len: 7 });
        }
        Ok(JumpOpcode2 { address: address as u32, actual_address: address as u32, opcode: input[address], arg1: read_u16(input, address + 1), jump_address: read_u32(input, address + 3) })
    }

    /// Appends the bytes of the opcode, with `target` as its jump target.
    pub fn write_to(&self, out: &mut Vec<u8>, target: u32)
        ensures
            final(out)@ == old(out)@ + self.spec_bytes_to(target),
    {
        out.push(self.opcode);
        push_u16(out, self.arg1);
        push_u32(out, target);
        assert(out@ =~= old(out)@ + (seq![self.opcode] + le16(self.arg1) + le32(target)));
    }
}

/// A conditional jump: the opcode byte, two `u16` operands and an absolute `u32` target.
#[derive(Clone, Copy, Debug, PartialEq, Eq)]
pub struct JumpOpcode4 {
    pub address: u32,
    pub actual_address: u32,
    pub opcode: u8,
    pub arg1: u16,
    pub arg2: u16,
    pub jump_address: u32,
}

impl JumpOpcode4 {
    /// The bytes of the opcode, with `target` written as its jump target.
    pub open spec fn spec_bytes_to(&self, target: u32) -> Seq<u8> {
        seq![self.opcode] + le16(self.arg1) + le16(self.arg2) + le32(target)
    }

    /// The bytes of the opcode.
    pub open spec fn spec_bytes(&self) -> Seq<u8> {
        self.spec_bytes_to(self.jump_address)
    }

    /// Whether this is the opcode that the bytes at `a` hold.
    pub open spec fn read_from(&self, a: int, input: Seq<u8>) -> bool {
        self.address == a as u32
            && self.actual_address == a as u32
            && self.opcode == input[a]
            && self.arg1 == u16_at(input, a + 1)
            && self.arg2 == u16_at(input, a + 3)
            && self.jump_address == u32_at(input, a + 5)
    }

    /// Reads the opcode at `address`: 9 bytes.
    pub fn new(address: usize, input: &[u8]) -> (r: Result<Self, YetiError>)
        ensures
            in_bounds(address as int, 9, input@.len() as int) ==> r is Ok && r->Ok_0.read_from(address as int, input@),
            !in_bounds(address as int, 9, input@.len() as int) ==> r == Err::<Self, YetiError>(bounds_error(address, 9)),
    {
        if address > input.len() || 9 > input.len() - address {
            return Err(YetiError::ParseBounds { address, len: 9 });
        }
        Ok(JumpOpcode4 { address: address as u32, actual_address: address as u32, opcode: input[address], arg1: read_u16(input, address + 1), arg2: read_u16(input, address + 3), jump_address: read_u32(input, address + 5) })
    }

    /// Appends the bytes of the opcode, with `target` as its jump target.
    pub fn write_to(&self, out: &mut Vec<u8>, target: u32)
        ensures
            final(out)@ == old(out)@ + self.spec_bytes_to(target),
    {
        out.push(self.opcode);
        push_u16(out, self.arg1);
        push_u16(out, self.arg2);
        push_u32(out, target);
        assert(out@ =~= old(out)@ + (seq![self.opcode] + le16(self.arg1) + le16(self.arg2) + le32(target)));
    }
}

/// An unconditional jump: the opcode byte and an absolute `u32` target.
#[derive(Clone, Copy, Debug, PartialEq, Eq)]
pub struct DirectJumpOpcode {
    pub address: u32,
    pub actual_address: u32,
    pub opcode: u8,
    pub jump_address: u32,
}

impl DirectJumpOpcode {
    /// The bytes of the opcode, with `target` written as its jump target.
    pub open spec fn spec_bytes_to(&self, target: u32) -> Seq<u8> {
        seq![self.opcode] + le32(target)
    }

    /// The bytes of the opcode.
    pub open spec fn spec_bytes(&self) -> Seq<u8> {
        self.spec_bytes_to(self.jump_address)
    }

    /// Whether this is the opcode that the bytes at `a` hold.
    pub open spec fn read_from(&self, a: int, input: Seq<u8>) -> bool {
        self.address == a as u32
            && self.actual_address == a as u32
            && self.opcode == input[a]
            && self.jump_address == u32_at(input, a + 1)
    }

    /// Reads the opcode at `address`: 5 bytes.
    pub fn new(address: usize, input: &[u8]) -> (r: Result<Self, YetiError>)
        ensures
            in_bounds(address as int, 5, input@.len() as int) ==> r is Ok && r->Ok_0.read_from(address as int, input@),
            !in_bounds(address as int, 5, input@.len() as int) ==> r == Err::<Self, YetiError>(bounds_error(address, 5)),
    {
        if address > input.len() || 5 > input.len() - address {
            return Err(YetiError::ParseBounds { address, len: 5 });
        }
        Ok(DirectJumpOpcode { address: address as u32, actual_address: address as u32, opcode: input[address], jump_address: read_u32(input, address + 1) })
    }

    /// Appends the bytes of the opcode, with `target` as its jump target.
    pub fn write_to(&self, out: &mut Vec<u8>, target: u32)
        ensures
            final(out)@ == old(out)@ + self.spec_bytes_to(target),
    {
        out.push(self.opcode);
        push_u32(out, target);
        assert(out@ =~= old(out)@ + (seq![self.opcode] + le32(target)));
    }
}

/// A jump into another script: the opcode byte, the script index and a `u16` target in it.
#[derive(Clone, Copy, Debug, PartialEq, Eq)]
pub struct LongJumpOpcode {
    pub address: u32,
    pub actual_address: u32,
    pub opcode: u8,
    pub target_script: u16,
    pub jump_address: u16,
}

impl LongJumpOpcode {
    /// The bytes of the opcode.
    pub open spec fn spec_bytes(&self) -> Seq<u8> {
        seq![self.opcode] + le16(self.target_script) + le16(self.jump_address)
    }

    /// Whether this is the opcode that the bytes at `a` hold.
    pub open spec fn read_from(&self, a: int, input: Seq<u8>) -> bool {
        self.address == a as u32
            && self.actual_address == a as u32
            && self.opcode == input[a]
            && self.target_script == u16_at(input, a + 1)
            && self.jump_address == u16_at(input, a + 3)
    }

    /// Reads the opcode at `address`: 5 bytes.
    pub fn new(address: usize, input: &[u8]) -> (r: Result<Self, YetiError>)
        ensures
            in_bounds(address as int, 5, input@.len() as int) ==> r is Ok && r->Ok_0.read_from(address as int, input@),
            !in_bounds(address as int, 5, input@.len() as int) ==> r == Err::<Self, YetiError>(bounds_error(address, 5)),
    {
        if address > input.len() || 5 > input.len() - address {
            return Err(YetiError::ParseBounds { address, len: 5 });
        }
        Ok(LongJumpOpcode { address: address as u32, actual_address: address as u32, opcode: input[address], target_script: read_u16(input, address + 1), jump_address: read_u16(input, address + 3) })
    }

    /// Appends the bytes of the opcode.
    pub fn write(&self, out: &mut Vec<u8>)
        ensures
            final(out)@ == old(out)@ + self.spec_bytes(),
    {
        out.push(self.opcode);
        push_u16(out, self.target_script);
        push_u16(out, self.jump_address);
        assert(out@ =~= old(out)@ + (seq![self.opcode] + le16(self.target_script) + le16(self.jump_address)));
    }
}

/// A voice opcode: two `u16` operands, and one more byte where the second is `0xFFFF`.
#[derive(Clone, Copy, Debug, PartialEq, Eq)]
pub struct Op44Opcode {
    pub address: u32,
    pub actual_address: u32,
    pub opcode: u8,
    /// The voice type.
    pub arg1: u16,
    /// The voice id.
    pub arg2: u16,
    pub padding_end: Option<u8>,
}

impl Op44Opcode {
    /// The bytes of the opcode.
    pub open spec fn spec_bytes(&self) -> Seq<u8> {
        seq![self.opcode] + le16(self.arg1) + le16(self.arg2) + match self.padding_end {
            Some(p) => seq![p],
            None => seq![],
        }
    }

    /// The number of bytes the opcode at `a` takes: 6 where its second operand is `0xFFFF`.
    pub open spec fn size_at(a: int, input: Seq<u8>) -> int {
        if u16_at(input, a + 3) == 0xFFFF {
            6
        } else {
            5
        }
    }

    /// Whether this is the opcode that the bytes at `a` hold.
    pub open spec fn read_from(&self, a: int, input: Seq<u8>) -> bool {
        self.address == a as u32 && self.actual_address == a as u32 && self.opcode == input[a]
            && self.arg1 == u16_at(input, a + 1) && self.arg2 == u16_at(input, a + 3)
            && self.padding_end == (if self.arg2 == 0xFFFF {
            Some(input[a + 5])
        } else {
            None
        })
    }

    /// Reads the opcode at `address`.
    pub fn new(address: usize, input: &[u8]) -> (r: Result<Self, YetiError>)
        ensures
            !in_bounds(address as int, 5, input@.len() as int) ==> r == Err::<Self, YetiError>(
                bounds_error(address, 5)),
            in_bounds(address as int, 5, input@.len() as int) ==> {
                let n = Self::size_at(address as int, input@);
                &&& in_bounds(address as int, n, input@.len() as int) ==> r is Ok && r->Ok_0.read_from(
                    address as int,
                    input@,
                )
                &&& !in_bounds(address as int, n, input@.len() as int) ==> r == Err::<
                    Self,
                    YetiError,
                >(bounds_error(address, 6))
            },
    {
        if address > input.len() || 5 > input.len() - address {
            return Err(YetiError::ParseBounds { address, len: 5 });
        }
        let arg2 = read_u16(input, address + 3);
        let padding_end = if arg2 == 0xFFFF {
            if 6 > input.len() - address {
                return Err(YetiError::ParseBounds { address, len: 6 });
            }
            Some(input[address + 5])
        } else {
            None
        };
        Ok(Op44Opcode {
            address: address as u32,
            actual_address: address as u32,
            opcode: input[address],
            arg1: read_u16(input, address + 1),
            arg2,
            padding_end,
        })
    }

    /// Appends the bytes of the opcode.
    pub fn write(&self, out: &mut Vec<u8>)
        ensures
            final(out)@ == old(out)@ + self.spec_bytes(),
    {
        out.push(self.opcode);
        push_u16(out, self.arg1);
        push_u16(out, self.arg2);
        if let Some(p) = self.padding_end {
            out.push(p);
        }
        assert(out@ =~= old(out)@ + self.spec_bytes());
    }
}

/// One arm of a switch: the value it matches and where it jumps.
#[derive(Clone, Copy, Debug, PartialEq, Eq)]
pub struct SwitchArm {
    pub index: u16,
    pub jump_address: u32,
}

impl SwitchArm {
    /// Reads an arm from its six bytes.
    pub fn new(input: [u8; 6]) -> (r: SwitchArm)
        ensures
            r.index == u16_at(input@, 0),
            r.jump_address == u32_at(input@, 2),
    {
        SwitchArm {
            index: input[0] as u16 + input[1] as u16 * 256,
            jump_address: input[2] as u32 + input[3] as u32 * 256 + input[4] as u32 * 65536
                + input[5] as u32 * 16777216,
        }
    }

    /// The size of an arm in bytes.
    pub fn size(&self) -> (r: usize)
        ensures
            r == 6,
    {
        6
    }
}

/// The bytes of a list of switch arms, with each target passed through `f`.
pub open spec fn arms_bytes(arms: Seq<SwitchArm>, f: spec_fn(u32) -> u32) -> Seq<u8>
    decreases arms.len(),
{
    if arms.len() == 0 {
        seq![]
    } else {
        arms_bytes(arms.drop_last(), f) + le16(arms.last().index) + le32(f(arms.last().jump_address))
    }
}

/// A switch: a comparison value, then `count` arms of an index and a target each.
#[derive(Clone, Debug, PartialEq, Eq)]
pub struct SwitchOpcode {
    pub address: u32,
    pub actual_address: u32,
    pub opcode: u8,
    pub comparison_value: u16,
    pub count: u16,
    pub arms: Vec<SwitchArm>,
}

impl SwitchOpcode {
    /// The bytes of the opcode, with each target passed through `f`.
    pub open spec fn spec_bytes_mapped(&self, f: spec_fn(u32) -> u32) -> Seq<u8> {
        seq![self.opcode] + le16(self.comparison_value) + le16(self.count) + arms_bytes(self.arms@, f)
    }

    /// The number of bytes the switch at `a` takes.
    pub open spec fn size_at(a: int, input: Seq<u8>) -> int {
        5 + 6 * u16_at(input, a + 3)
    }

    /// Whether this is the switch that the bytes at `a` hold.
    pub open spec fn read_from(&self, a: int, input: Seq<u8>) -> bool {
        &&& self.address == a as u32
        &&& self.actual_address == a as u32
        &&& self.opcode == input[a]
        &&& self.comparison_value == u16_at(input, a + 1)
        &&& self.count == u16_at(input, a + 3)
        &&& self.arms@.len() == self.count
        &&& forall|k: int|
            0 <= k < self.count ==> (#[trigger] self.arms@[k]).index == u16_at(input, a + 5 + 6 * k)
                && self.arms@[k].jump_address == u32_at(input, a + 7 + 6 * k)
    }

    /// Reads the switch at `address`.
    pub fn new(address: usize, input: &[u8]) -> (r: Result<Self, YetiError>)
        ensures
            !in_bounds(address as int, 5, input@.len() as int) ==> r == Err::<Self, YetiError>(
                bounds_error(address, 5)),
            in_bounds(address as int, 5, input@.len() as int) ==> {
                let n = Self::size_at(address as int, input@);
                &&& in_bounds(address as int, n, input@.len() as int) ==> r is Ok && r->Ok_0.read_from(
                    address as int,
                    input@,
                )
                &&& !in_bounds(address as int, n, input@.len() as int) ==> r == Err::<
                    Self,
                    YetiError,
                >(bounds_error(address, n as usize))
            },
    {
        if address > input.len() || 5 > input.len() - address {
            return Err(YetiError::ParseBounds { address, len: 5 });
        }
        let count = read_u16(input, address + 3);
        let total: usize = 5 + 6 * count as usize;
        if total > input.len() - address {
            return Err(YetiError::ParseBounds { address, len: total });
        }
        let mut arms: Vec<SwitchArm> = Vec::new();
        let mut k: usize = 0;
        while k < count as usize
            invariant
                k <= count,
                input@.len() <= usize::MAX,
                address + 5 + 6 * count <= input@.len(),
                arms@.len() == k,
                forall|j: int|
                    0 <= j < k ==> (#[trigger] arms@[j]).index == u16_at(input@, address + 5 + 6 * j)
                        && arms@[j].jump_address == u32_at(input@, address + 7 + 6 * j),
            decreases count - k,
        {
            let at = address + 5 + 6 * k;
            arms.push(SwitchArm { index: read_u16(input, at), jump_address: read_u32(input, at + 2) });
            k += 1;
        }
        Ok(SwitchOpcode {
            address: address as u32,
            actual_address: address as u32,
            opcode: input[address],
            comparison_value: read_u16(input, address + 1),
            count,
            arms,
        })
    }

    /// Appends the bytes of the switch, each target rewritten by `rel`.
    pub fn write_mapped(&self, out: &mut Vec<u8>, rel: &Relocation)
        requires
            rel.wf(),
        ensures
            final(out)@ == old(out)@ + self.spec_bytes_mapped(rel.map_fn()),
    {
        out.push(self.opcode);
        push_u16(out, self.comparison_value);
        push_u16(out, self.count);
        let ghost start = out@;
        let mut k: usize = 0;
        while k < self.arms.len()
            invariant
                rel.wf(),
                k <= self.arms@.len(),
                out@ == start + arms_bytes(self.arms@.subrange(0, k as int), rel.map_fn()),
            decreases self.arms@.len() - k,
        {
            let arm = self.arms[k];
            push_u16(out, arm.index);
            push_u32(out, rel.target(arm.jump_address));
            proof {
                let s = self.arms@.subrange(0, k + 1);
                assert(s.drop_last() =~= self.arms@.subrange(0, k as int));
            }
            k += 1;
        }
        assert(self.arms@.subrange(0, self.arms@.len() as int) =~= self.arms@);
        assert(out@ =~= old(out)@ + self.spec_bytes_mapped(rel.map_fn()));
    }
}

/// A text opcode: a four-byte header, then a NUL-terminated Shift-JIS string.
#[derive(Clone, Debug, PartialEq, Eq)]
pub struct StringOpcode {
    pub address: u32,
    pub actual_address: u32,
    pub opcode: u8,
    pub header: [u8; 4],
    pub unicode: String,
    pub notes: Option<String>,
    pub translation: Option<String>,
}

impl StringOpcode {
    /// The bytes of the opcode, its text encoded under the italic mapping `t`.
    pub open spec fn spec_bytes(&self, t: Map<char, u16>) -> Seq<u8> {
        seq![self.opcode] + self.header@ + text_bytes(self.unicode, self.translation, t)
    }

    /// Whether this is the opcode that the bytes at `a` hold.
    pub open spec fn read_from(&self, a: int, input: Seq<u8>) -> bool {
        &&& self.address == a as u32
        &&& self.actual_address == a as u32
        &&& self.opcode == input[a]
        &&& self.header@ == input.subrange(a + 1, a + 5)
        &&& text_at(input, a + 5, self.unicode@)
        &&& self.notes is None
        &&& self.translation is None
    }

    /// Reads the opcode at `address`.
    pub fn new(address: usize, input: &[u8]) -> (r: Result<Self, YetiError>)
        ensures
            !in_bounds(address as int, 5, input@.len() as int) ==> r == Err::<Self, YetiError>(bounds_error(address, 5)),
            in_bounds(address as int, 5, input@.len() as int) && has_text_at(input@, address + 5) ==> r is Ok && r->Ok_0.read_from(address as int, input@),
            in_bounds(address as int, 5, input@.len() as int) && !has_text_at(input@, address + 5) ==> r == Err::<Self, YetiError>(bounds_error((address + 5) as usize, input@.len() as usize)),
    {
        if address > input.len() || 5 > input.len() - address {
            return Err(YetiError::ParseBounds { address, len: 5 });
        }
        let header: [u8; 4] = [input[address + 1], input[address + 2], input[address + 3], input[address + 4]];
        assert(header@ =~= input@.subrange(address + 1, address + 5));
        let unicode = read_text(address + 5, input)?;
        Ok(StringOpcode { address: address as u32, actual_address: address as u32, opcode: input[address], header, unicode, notes: None, translation: None })
    }

    /// Appends the bytes of the opcode.
    pub fn write(&self, out: &mut Vec<u8>, italics: &ItalicMap)
        ensures
            final(out)@ == old(out)@ + self.spec_bytes(italic_entries(*italics)),
    {
        out.push(self.opcode);
        out.push(self.header[0]);
        out.push(self.header[1]);
        out.push(self.header[2]);
        out.push(self.header[3]);
        let ghost mid = out@;
        push_text(out, &self.unicode, &self.translation, italics);
        assert(mid =~= old(out)@ + (seq![self.opcode] + self.header@));
        assert(out@ =~= old(out)@ + self.spec_bytes(italic_entries(*italics)));
    }
}

/// A text opcode: a two-byte header, then a NUL-terminated Shift-JIS string.
#[derive(Clone, Debug, PartialEq, Eq)]
pub struct StringOpcode2 {
    pub address: u32,
    pub actual_address: u32,
    pub opcode: u8,
    pub header: [u8; 2],
    pub unicode: String,
    pub notes: Option<String>,
    pub translation: Option<String>,
}

impl StringOpcode2 {
    /// The bytes of the opcode, its text encoded under the italic mapping `t`.
    pub open spec fn spec_bytes(&self, t: Map<char, u16>) -> Seq<u8> {
        seq![self.opcode] + self.header@ + text_bytes(self.unicode, self.translation, t)
    }

    /// Whether this is the opcode that the bytes at `a` hold.
    pub open spec fn read_from(&self, a: int, input: Seq<u8>) -> bool {
        &&& self.address == a as u32
        &&& self.actual_address == a as u32
        &&& self.opcode == input[a]
        &&& self.header@ == input.subrange(a + 1, a + 3)
        &&& text_at(input, a + 3, self.unicode@)
        &&& self.notes is None
        &&& self.translation is None
    }

    /// Reads the opcode at `address`.
    pub fn new(address: usize, input: &[u8]) -> (r: Result<Self, YetiError>)
        ensures
            !in_bounds(address as int, 3, input@.len() as int) ==> r == Err::<Self, YetiError>(bounds_error(address, 3)),
            in_bounds(address as int, 3, input@.len() as int) && has_text_at(input@, address + 3) ==> r is Ok && r->Ok_0.read_from(address as int, input@),
            in_bounds(address as int, 3, input@.len() as int) && !has_text_at(input@, address + 3) ==> r == Err::<Self, YetiError>(bounds_error((address + 3) as usize, input@.len() as usize)),
    {
        if address > input.len() || 3 > input.len() - address {
            return Err(YetiError::ParseBounds { address, len: 3 });
        }
        let header: [u8; 2] = [input[address + 1], input[address + 2]];
        assert(header@ =~= input@.subrange(address + 1, address + 3));
        let unicode = read_text(address + 3, input)?;
        Ok(StringOpcode2 { address: address as u32, actual_address: address as u32, opcode: input[address], header, unicode, notes: None, translation: None })
    }

    /// Appends the bytes of the opcode.
    pub fn write(&self, out: &mut Vec<u8>, italics: &ItalicMap)
        ensures
            final(out)@ == old(out)@ + self.spec_bytes(italic_entries(*italics)),
    {
        out.push(self.opcode);
        out.push(self.header[0]);
        out.push(self.header[1]);
        let ghost mid = out@;
        push_text(out, &self.unicode, &self.translation, italics);
        assert(mid =~= old(out)@ + (seq![self.opcode] + self.header@));
        assert(out@ =~= old(out)@ + self.spec_bytes(italic_entries(*italics)));
    }
}

/// A text opcode with two `u16` operands between padding, then a NUL-terminated Shift-JIS string.
#[derive(Clone, Debug, PartialEq, Eq)]
pub struct String55Opcode {
    pub address: u32,
    pub actual_address: u32,
    pub opcode: u8,
    pub arg1: u16,
    pub padding_1: [u8; 3],
    pub arg2: u16,
    pub padding_2: [u8; 2],
    pub unicode: String,
    pub notes: Option<String>,
    pub translation: Option<String>,
}

impl String55Opcode {
    /// The bytes of the opcode, its text encoded under the italic mapping `t`.
    pub open spec fn spec_bytes(&self, t: Map<char, u16>) -> Seq<u8> {
        seq![self.opcode] + le16(self.arg1) + self.padding_1@ + le16(self.arg2) + self.padding_2@ + text_bytes(self.unicode, self.translation, t)
    }

    /// Whether this is the opcode that the bytes at `a` hold.
    pub open spec fn read_from(&self, a: int, input: Seq<u8>) -> bool {
        &&& self.address == a as u32
        &&& self.actual_address == a as u32
        &&& self.opcode == input[a]
        &&& self.arg1 == u16_at(input, a + 1)
        &&& self.padding_1@ == input.subrange(a + 3, a + 6)
        &&& self.arg2 == u16_at(input, a + 6)
        &&& self.padding_2@ == input.subrange(a + 8, a + 10)
        &&& text_at(input, a + 10, self.unicode@)
        &&& self.notes is None
        &&& self.translation is None
    }

    /// Reads the opcode at `address`.
    pub fn new(address: usize, input: &[u8]) -> (r: Result<Self, YetiError>)
        ensures
            !in_bounds(address as int, 10, input@.len() as int) ==> r == Err::<Self, YetiError>(bounds_error(address, 10)),
            in_bounds(address as int, 10, input@.len() as int) && has_text_at(input@, address + 10) ==> r is Ok && r->Ok_0.read_from(address as int, input@),
            in_bounds(address as int, 10, input@.len() as int) && !has_text_at(input@, address + 10) ==> r == Err::<Self, YetiError>(bounds_error((address + 10) as usize, input@.len() as usize)),
    {
        if address > input.len() || 10 > input.len() - address {
            return Err(YetiError::ParseBounds { address, len: 10 });
        }
        let padding_1: [u8; 3] = [input[address + 3], input[address + 4], input[address + 5]];
        let padding_2: [u8; 2] = [input[address + 8], input[address + 9]];
        assert(padding_1@ =~= input@.subrange(address + 3, address + 6));
        assert(padding_2@ =~= input@.subrange(address + 8, address + 10));
        let unicode = read_text(address + 10, input)?;
        Ok(String55Opcode { address: address as u32, actual_address: address as u32, opcode: input[address], arg1: read_u16(input, address + 1), padding_1, arg2: read_u16(input, address + 6), padding_2, unicode, notes: None, translation: None })
    }

    /// Appends the bytes of the opcode.
    pub fn write(&self, out: &mut Vec<u8>, italics: &ItalicMap)
        ensures
            final(out)@ == old(out)@ + self.spec_bytes(italic_entries(*italics)),
    {
        out.push(self.opcode);
        push_u16(out, self.arg1);
        out.push(self.padding_1[0]);
        out.push(self.padding_1[1]);
        out.push(self.padding_1[2]);
        push_u16(out, self.arg2);
        out.push(self.padding_2[0]);
        out.push(self.padding_2[1]);
        let ghost mid = out@;
        push_text(out, &self.unicode, &self.translation, italics);
        assert(mid =~= old(out)@ + (seq![self.opcode] + le16(self.arg1) + self.padding_1@ + le16(self.arg2) + self.padding_2@));
        assert(out@ =~= old(out)@ + self.spec_bytes(italic_entries(*italics)));
    }
}

/// A speaker-name or free-text opcode: a `u16` operand, a second one unless the first
/// is `0x000D`, then a NUL-terminated Shift-JIS string.
#[derive(Clone, Debug, PartialEq, Eq)]
pub struct String47Opcode {
    pub address: u32,
    pub actual_address: u32,
    pub opcode: u8,
    pub arg1: u16,
    pub opt_arg2: Option<u16>,
    pub unicode: String,
    pub notes: Option<String>,
    pub translation: Option<String>,
}

impl String47Opcode {
    /// The bytes of the opcode, its text encoded under the italic mapping `t`.
    pub open spec fn spec_bytes(&self, t: Map<char, u16>) -> Seq<u8> {
        seq![self.opcode] + le16(self.arg1) + match self.opt_arg2 {
            Some(v) => le16(v),
            None => seq![],
        } + text_bytes(self.unicode, self.translation, t)
    }

    /// Where the string of the opcode at `a` starts.
    pub open spec fn text_offset(a: int, input: Seq<u8>) -> int {
        if u16_at(input, a + 1) == 0x000D {
            a + 3
        } else {
            a + 5
        }
    }

    /// Whether this is the opcode that the bytes at `a` hold.
    pub open spec fn read_from(&self, a: int, input: Seq<u8>) -> bool {
        &&& self.address == a as u32
        &&& self.actual_address == a as u32
        &&& self.opcode == input[a]
        &&& self.arg1 == u16_at(input, a + 1)
        &&& self.opt_arg2 == (if self.arg1 == 0x000D {
            None
        } else {
            Some(u16_at(input, a + 3))
        })
        &&& text_at(input, Self::text_offset(a, input), self.unicode@)
        &&& self.notes is None
        &&& self.translation is None
    }

    /// Reads the opcode at `address`.
    pub fn new(address: usize, input: &[u8]) -> (r: Result<Self, YetiError>)
        ensures
            !in_bounds(address as int, 3, input@.len() as int) ==> r == Err::<Self, YetiError>(
                bounds_error(address, 3)),
            in_bounds(address as int, 3, input@.len() as int) ==> {
                let p = Self::text_offset(address as int, input@);
                &&& !in_bounds(address as int, p - address, input@.len() as int) ==> r == Err::<
                    Self,
                    YetiError,
                >(bounds_error(address, 5))
                &&& in_bounds(address as int, p - address, input@.len() as int) && has_text_at(
                    input@,
                    p,
                ) ==> r is Ok && r->Ok_0.read_from(address as int, input@)
                &&& in_bounds(address as int, p - address, input@.len() as int) && !has_text_at(
                    input@,
                    p,
                ) ==> r == Err::<Self, YetiError>(
                    bounds_error(p as usize, input@.len() as usize),
                )
            },
    {
        if address > input.len() || 3 > input.len() - address {
            return Err(YetiError::ParseBounds { address, len: 3 });
        }
        let arg1 = read_u16(input, address + 1);
        let (opt_arg2, p) = if arg1 == 0x000D {
            (None, address + 3)
        } else {
            if 5 > input.len() - address {
                return Err(YetiError::ParseBounds { address, len: 5 });
            }
            (Some(read_u16(input, address + 3)), address + 5)
        };
        let unicode = read_text(p, input)?;
        Ok(String47Opcode {
            address: address as u32,
            actual_address: address as u32,
            opcode: input[address],
            arg1,
            opt_arg2,
            unicode,
            notes: None,
            translation: None,
        })
    }

    /// Appends the bytes of the opcode.
    pub fn write(&self, out: &mut Vec<u8>, italics: &ItalicMap)
        ensures
            final(out)@ == old(out)@ + self.spec_bytes(italic_entries(*italics)),
    {
        out.push(self.opcode);
        push_u16(out, self.arg1);
        if let Some(v) = self.opt_arg2 {
            push_u16(out, v);
        }
        push_text(out, &self.unicode, &self.translation, italics);
        assert(out@ =~= old(out)@ + self.spec_bytes(italic_entries(*italics)));
    }
}

/// One entry of a choice menu: a six-byte header, a target, and its text.
#[derive(Clone, Debug, PartialEq, Eq)]
pub struct Choice {
    pub address: u32,
    pub header: [u8; 6],
    pub jump_address: u32,
    pub unicode: String,
    pub notes: Option<String>,
    pub translation: Option<String>,
}

/// Where a choice jumps once targets pass through `f`: a target of 0 means no jump
/// and stays 0.
pub open spec fn choice_target(c: Choice, f: spec_fn(u32) -> u32) -> u32 {
    if c.jump_address == 0 {
        0
    } else {
        f(c.jump_address)
    }
}

impl Choice {
    /// The bytes of the choice, with its target passed through `f`.
    pub open spec fn spec_bytes_mapped(&self, t: Map<char, u16>, f: spec_fn(u32) -> u32) -> Seq<u8> {
        self.header@ + le32(choice_target(*self, f)) + text_bytes(self.unicode, self.translation, t)
    }

    /// Whether this is the choice that the bytes at `a` hold.
    pub open spec fn read_from(&self, a: int, input: Seq<u8>) -> bool {
        &&& self.address == a as u32
        &&& self.header@ == input.subrange(a, a + 6)
        &&& self.jump_address == u32_at(input, a + 6)
        &&& text_at(input, a + 10, self.unicode@)
        &&& self.notes is None
        &&& self.translation is None
    }

    /// Reads the choice at `address`.
    pub fn new(address: usize, input: &[u8]) -> (r: Result<Self, YetiError>)
        ensures
            !in_bounds(address as int, 10, input@.len() as int) ==> r == Err::<Self, YetiError>(
                bounds_error(address, 10)),
            in_bounds(address as int, 10, input@.len() as int) && has_text_at(input@, address + 10)
                ==> r is Ok && r->Ok_0.read_from(address as int, input@),
            in_bounds(address as int, 10, input@.len() as int) && !has_text_at(input@, address + 10)
                ==> r == Err::<Self, YetiError>(
                bounds_error((address + 10) as usize, input@.len() as usize),
            ),
    {
        if address > input.len() || 10 > input.len() - address {
            return Err(YetiError::ParseBounds { address, len: 10 });
        }
        let header: [u8; 6] = [
            input[address],
            input[address + 1],
            input[address + 2],
            input[address + 3],
            input[address + 4],
            input[address + 5],
        ];
        assert(header@ =~= input@.subrange(address as int, address + 6));
        let unicode = read_text(address + 10, input)?;
        Ok(Choice {
            address: address as u32,
            header,
            jump_address: read_u32(input, address + 6),
            unicode,
            notes: None,
            translation: None,
        })
    }

    /// Appends the bytes of the choice, its target rewritten by `rel`.
    pub fn write_mapped(&self, out: &mut Vec<u8>, italics: &ItalicMap, rel: &Relocation)
        requires
            rel.wf(),
        ensures
            final(out)@ == old(out)@ + self.spec_bytes_mapped(italic_entries(*italics), rel.map_fn()),
    {
        let mut i: usize = 0;
        while i < 6
            invariant
                i <= 6,
                out@ == old(out)@ + self.header@.subrange(0, i as int),
            decreases 6 - i,
        {
            out.push(self.header[i]);
            i += 1;
            assert(out@ =~= old(out)@ + self.header@.subrange(0, i as int));
        }
        assert(self.header@.subrange(0, 6) =~= self.header@);
        let target = if self.jump_address == 0 {
            0
        } else {
            rel.target(self.jump_address)
        };
        push_u32(out, target);
        push_text(out, &self.unicode, &self.translation, italics);
        assert(out@ =~= old(out)@ + self.spec_bytes_mapped(italic_entries(*italics), rel.map_fn()));
    }
}

/// The bytes of a list of choices, with each non-zero target passed through `f`.
pub open spec fn choices_bytes(cs: Seq<Choice>, t: Map<char, u16>, f: spec_fn(u32) -> u32) -> Seq<u8>
    decreases cs.len(),
{
    if cs.len() == 0 {
        seq![]
    } else {
        choices_bytes(cs.drop_last(), t, f) + cs.last().spec_bytes_mapped(t, f)
    }
}

/// The number of bytes before the NUL of the string at `p`.
pub open spec fn cstr_len(input: Seq<u8>, p: int) -> int {
    choose|n: int| #[trigger] cstr_at(input, p, n)
}

/// A string has one length.
pub proof fn lemma_cstr_unique(input: Seq<u8>, p: int, n1: int, n2: int)
    requires
        cstr_at(input, p, n1),
        cstr_at(input, p, n2),
    ensures
        n1 == n2,
{
    if n1 < n2 {
        assert(input[p + n1] != 0);
    } else if n2 < n1 {
        assert(input[p + n2] != 0);
    }
}

/// Whether `m` choices can be read from `at` on: each a ten-byte head and a NUL-terminated
/// string, the next one starting 11 bytes plus the encoded length of the text after it,
/// within the input.
pub open spec fn choices_fit(input: Seq<u8>, at: int, m: int, t: Map<char, u16>) -> bool
    decreases m,
{
    if m <= 0 {
        true
    } else {
        &&& in_bounds(at, 10, input.len() as int)
        &&& has_text_at(input, at + 10)
        &&& (m == 1 || {
            let next = at + 11 + sjis_encoding(
                sjis_text_of(input.subrange(at + 10, at + 10 + cstr_len(input, at + 10))),
                t,
            ).len();
            next <= input.len() && choices_fit(input, next, m - 1, t)
        })
    }
}

/// The error that reading `m` choices from `at` on stops with, where they do not fit: the
/// bounds of the first choice's head or string that runs out, or the encoded length of a
/// text whose next choice would start past the end.
pub open spec fn choice_error(input: Seq<u8>, at: int, m: int, t: Map<char, u16>) -> YetiError
    decreases m,
{
    if !in_bounds(at, 10, input.len() as int) {
        bounds_error(at as usize, 10)
    } else if !has_text_at(input, at + 10) {
        bounds_error((at + 10) as usize, input.len() as usize)
    } else {
        let len = sjis_encoding(
            sjis_text_of(input.subrange(at + 10, at + 10 + cstr_len(input, at + 10))),
            t,
        ).len();
        if m <= 1 || at + 11 + len > input.len() {
            bounds_error(at as usize, len as usize)
        } else {
            choice_error(input, at + 11 + len, m - 1, t)
        }
    }
}

/// The address of the `k`-th choice of the menu whose first choice is at `first`: each
/// choice takes 11 bytes and the encoding of its text.
pub open spec fn choice_address(cs: Seq<Choice>, first: int, k: int, t: Map<char, u16>) -> int
    decreases k,
{
    if k <= 0 {
        first
    } else {
        choice_address(cs, first, k - 1, t) + 11 + sjis_encoding(cs[k - 1].unicode@, t).len()
    }
}

/// A choice menu: a two-byte pre-header, the number of choices, a three-byte header,
/// then the choices.
#[derive(Clone, Debug, PartialEq, Eq)]
pub struct ChoiceOpcode {
    pub address: u32,
    pub actual_address: u32,
    pub opcode: u8,
    pub pre_header: [u8; 2],
    pub n_choices: u8,
    pub header: [u8; 3],
    pub choices: Vec<Choice>,
}

impl ChoiceOpcode {
    /// The bytes of the menu, with each non-zero target passed through `f`.
    pub open spec fn spec_bytes_mapped(&self, t: Map<char, u16>, f: spec_fn(u32) -> u32) -> Seq<u8> {
        seq![self.opcode] + self.pre_header@ + seq![self.n_choices] + self.header@ + choices_bytes(
            self.choices@,
            t,
            f,
        )
    }

    /// Whether this is the menu that the bytes at `a` hold, with choice lengths measured
    /// under the italic mapping `t`.
    pub open spec fn read_from(&self, a: int, input: Seq<u8>, t: Map<char, u16>) -> bool {
        &&& self.address == a as u32
        &&& self.actual_address == a as u32
        &&& self.opcode == input[a]
        &&& self.pre_header@ == input.subrange(a + 1, a + 3)
        &&& self.n_choices == input[a + 3]
        &&& self.header@ == input.subrange(a + 4, a + 7)
        &&& self.choices@.len() == self.n_choices
        &&& forall|k: int|
            0 <= k < self.n_choices ==> (#[trigger] self.choices@[k]).read_from(
                choice_address(self.choices@, a + 7, k, t),
                input,
            )
    }

    #[verifier::rlimit(40)]
    /// Reads the menu at `address`; the place of each choice after the first depends on
    /// the encoded length of the text before it.
    pub fn new(address: usize, input: &[u8], italics: &ItalicMap) -> (r: Result<Self, YetiError>)
        ensures
            !in_bounds(address as int, 7, input@.len() as int) ==> r == Err::<Self, YetiError>(
                bounds_error(address, 7)),
            in_bounds(address as int, 7, input@.len() as int) ==> (r is Ok <==> choices_fit(
                input@,
                address + 7,
                input@[address + 3] as int,
                italic_entries(*italics),
            )),
            r is Ok ==> r->Ok_0.read_from(address as int, input@, italic_entries(*italics)),
            in_bounds(address as int, 7, input@.len() as int) && r is Err ==> r->Err_0 == choice_error(
                input@,
                address + 7,
                input@[address + 3] as int,
                italic_entries(*italics),
            ),
    {
        if address > input.len() || 7 > input.len() - address {
            return Err(YetiError::ParseBounds { address, len: 7 });
        }
        let ghost t = italic_entries(*italics);
        let pre_header: [u8; 2] = [input[address + 1], input[address + 2]];
        let n_choices = input[address + 3];
        let header: [u8; 3] = [input[address + 4], input[address + 5], input[address + 6]];
        assert(pre_header@ =~= input@.subrange(address + 1, address + 3));
        assert(header@ =~= input@.subrange(address + 4, address + 7));
        let mut choices: Vec<Choice> = Vec::new();
        let mut at: usize = address + 7;
        let mut k: u8 = 0;
        while k < n_choices
            invariant
                t == italic_entries(*italics),
                address + 7 <= input@.len(),
                k <= n_choices,
                choices@.len() == k,
                k < n_choices ==> at == choice_address(choices@, address + 7, k as int, t),
                n_choices == input@[address + 3],
                k < n_choices ==> (choices_fit(input@, address + 7, n_choices as int, t)
                    == choices_fit(input@, at as int, n_choices - k, t)),
                k == n_choices ==> choices_fit(input@, address + 7, n_choices as int, t),
                k < n_choices && !choices_fit(input@, address + 7, n_choices as int, t) ==> choice_error(
                    input@,
                    address + 7,
                    n_choices as int,
                    t,
                ) == choice_error(input@, at as int, n_choices - k, t),
                forall|j: int|
                    0 <= j < k ==> (#[trigger] choices@[j]).read_from(
                        choice_address(choices@, address + 7, j, t),
                        input@,
                    ),
            decreases n_choices - k,
        {
            let choice = match Choice::new(at, input) {
                Ok(c) => c,
                Err(e) => {
                    return Err(e);
                },
            };
            let ghost before = choices@;
            proof {
                lemma_choice_push(before, choice, address + 7, t, input@);
                let n = choose|n: int|
                    #[trigger] cstr_at(input@, at + 10, n) && choice.unicode@ == sjis_text_of(
                        input@.subrange(at + 10, at + 10 + n),
                    );
                lemma_cstr_unique(input@, at + 10, n, cstr_len(input@, at + 10));
            }
            if k + 1 < n_choices {
                let len = encode_sjis(choice.unicode.as_str(), italics).len();
                if len > input.len() || at > input.len() - len || 11 > input.len() - len - at {
                    return Err(YetiError::ParseBounds { address: at, len });
                }
                at = at + 11 + len;
            }
            choices.push(choice);
            k += 1;
        }
        Ok(ChoiceOpcode {
            address: address as u32,
            actual_address: address as u32,
            opcode: input[address],
            pre_header,
            n_choices,
            header,
            choices,
        })
    }

    /// Appends the bytes of the menu, each non-zero target rewritten by `rel`.
    pub fn write_mapped(&self, out: &mut Vec<u8>, italics: &ItalicMap, rel: &Relocation)
        requires
            rel.wf(),
        ensures
            final(out)@ == old(out)@ + self.spec_bytes_mapped(italic_entries(*italics), rel.map_fn()),
    {
        let ghost t = italic_entries(*italics);
        out.push(self.opcode);
        out.push(self.pre_header[0]);
        out.push(self.pre_header[1]);
        out.push(self.n_choices);
        out.push(self.header[0]);
        out.push(self.header[1]);
        out.push(self.header[2]);
        let ghost start = out@;
        assert(start =~= old(out)@ + (seq![self.opcode] + self.pre_header@ + seq![self.n_choices]
            + self.header@));
        let mut k: usize = 0;
        while k < self.choices.len()
            invariant
                rel.wf(),
                t == italic_entries(*italics),
                k <= self.choices@.len(),
                out@ == start + choices_bytes(self.choices@.subrange(0, k as int), t, rel.map_fn()),
            decreases self.choices@.len() - k,
        {
            self.choices[k].write_mapped(out, italics, rel);
            proof {
                let s = self.choices@.subrange(0, k + 1);
                assert(s.drop_last() =~= self.choices@.subrange(0, k as int));
            }
            k += 1;
        }
        assert(self.choices@.subrange(0, self.choices@.len() as int) =~= self.choices@);
        assert(out@ =~= old(out)@ + self.spec_bytes_mapped(t, rel.map_fn()));
    }
}

/// Adding a choice read at the place that follows the others keeps every choice at its place.
proof fn lemma_choice_push(before: Seq<Choice>, c: Choice, first: int, t: Map<char, u16>, input: Seq<u8>)
    requires
        forall|j: int|
            0 <= j < before.len() ==> (#[trigger] before[j]).read_from(
                choice_address(before, first, j, t),
                input,
            ),
        c.read_from(choice_address(before, first, before.len() as int, t), input),
    ensures
        forall|j: int|
            0 <= j < before.len() + 1 ==> (#[trigger] before.push(c)[j]).read_from(
                choice_address(before.push(c), first, j, t),
                input,
            ),
        choice_address(before.push(c), first, before.len() + 1int, t) == choice_address(
            before,
            first,
            before.len() as int,
            t,
        ) + 11 + sjis_encoding(c.unicode@, t).len(),
{
    let after = before.push(c);
    assert forall|j: int| 0 <= j < before.len() + 1 implies (#[trigger] after[j]).read_from(
        choice_address(after, first, j, t),
        input,
    ) by {
        lemma_choice_address_prefix(after, before, first, j, t);
    }
    lemma_choice_address_prefix(after, before, first, before.len() as int, t);
}

/// The place of a choice depends only on the choices before it.
proof fn lemma_choice_address_prefix(
    longer: Seq<Choice>,
    shorter: Seq<Choice>,
    first: int,
    k: int,
    t: Map<char, u16>,
)
    requires
        0 <= k <= shorter.len() <= longer.len(),
        forall|j: int| 0 <= j < shorter.len() ==> longer[j] == shorter[j],
    ensures
        choice_address(longer, first, k, t) == choice_address(shorter, first, k, t),
    decreases k,
{
    if k > 0 {
        lemma_choice_address_prefix(longer, shorter, first, k - 1, t);
    }
}

/// The tip opcode: a hard-coded condition, and the number of bytes to skip when tips
/// are off. `skip` counts the opcodes that the window covers.
///
/// The tip level `condition` is 0 for a tip always shown, 1 for tips on obscure details
/// and 2 for all tips; a value above 2 turns the tip off.
#[derive(Clone, Copy, Debug, PartialEq, Eq)]
pub struct Custom77 {
    pub address: u32,
    pub actual_address: u32,
    pub opcode: u8,
    pub condition: u8,
    pub skip: u16,
    pub skip_bytes: u16,
}

impl Custom77 {
    /// The bytes of the tip as it is written on its own: the skip length is left 0.
    pub open spec fn spec_bytes(&self) -> Seq<u8> {
        seq![self.opcode, self.condition, 0u8, 0u8]
    }

    /// The bytes of the tip with its skip length set to `offset`.
    pub open spec fn patched_bytes(&self, offset: u16) -> Seq<u8> {
        seq![self.opcode, self.condition] + le16(offset)
    }

    /// Whether this is the tip that the bytes at `a` hold.
    pub open spec fn read_from(&self, a: int, input: Seq<u8>) -> bool {
        &&& self.address == a as u32
        &&& self.actual_address == a as u32
        &&& self.opcode == input[a]
        &&& self.condition == input[a + 1]
        &&& self.skip == 0
        &&& self.skip_bytes == u16_at(input, a + 2)
    }

    /// Reads the tip at `address`: 4 bytes.
    pub fn new(address: usize, input: &[u8]) -> (r: Result<Self, YetiError>)
        ensures
            in_bounds(address as int, 4, input@.len() as int) ==> r is Ok && r->Ok_0.read_from(
                address as int,
                input@,
            ),
            !in_bounds(address as int, 4, input@.len() as int) ==> r == Err::<Self, YetiError>(
                bounds_error(address, 4)),
    {
        if address > input.len() || 4 > input.len() - address {
            return Err(YetiError::ParseBounds { address, len: 4 });
        }
        Ok(Custom77 {
            address: address as u32,
            actual_address: address as u32,
            opcode: input[address],
            condition: input[address + 1],
            skip: 0,
            skip_bytes: read_u16(input, address + 2),
        })
    }

    /// The bytes of the tip as it is written on its own.
    pub fn binary_serialize(&self) -> (r: Vec<u8>)
        ensures
            r@ == self.spec_bytes(),
    {
        vec![self.opcode, self.condition, 0, 0]
    }

    /// The bytes of the tip with its skip length set to `offset`.
    pub fn patched(&self, offset: u16) -> (r: Vec<u8>)
        ensures
            r@ == self.patched_bytes(offset),
    {
        let mut r = vec![self.opcode, self.condition];
        push_u16(&mut r, offset);
        r
    }

    /// The size of a tip in bytes.
    pub fn size(&self) -> (r: usize)
        ensures
            r == 4,
    {
        4
    }
}

/// Opcodes added to a script by hand; they are written one after the other, and a tip
/// among them gets its skip length from the sizes of the opcodes its window covers.
#[derive(Debug, PartialEq, Eq)]
pub struct InsertOpcode {
    pub contents: Vec<Opcode>,
}

/// An opcode of a script, by its shape; each shape keeps its opcode byte.
#[derive(Debug, PartialEq, Eq)]
pub enum Opcode {
    Single(SingleByteOpcode),
    Basic2(BasicOpcode2),
    Basic3(BasicOpcode3),
    Basic4(BasicOpcode4),
    Basic6(BasicOpcode6),
    Basic8(BasicOpcode8),
    Basic10(BasicOpcode10),
    Basic12(BasicOpcode12),
    Basic16(BasicOpcode16),
    Voice(Op44Opcode),
    Switch(SwitchOpcode),
    Text(StringOpcode),
    Text2(StringOpcode2),
    Text47(String47Opcode),
    Text55(String55Opcode),
    Jump2(JumpOpcode2),
    Jump4(JumpOpcode4),
    DirectJump(DirectJumpOpcode),
    LongJump(LongJumpOpcode),
    Choice(ChoiceOpcode),
    Tip(Custom77),
    Insert(InsertOpcode),
}

/// The bytes of an opcode other than an insert, with each jump target passed through
/// `f`. An insert has none here: its bytes are those of its contents.
pub open spec fn leaf_bytes(op: Opcode, t: Map<char, u16>, f: spec_fn(u32) -> u32) -> Seq<u8> {
    match op {
        Opcode::Single(o) => o.spec_bytes(),
        Opcode::Basic2(o) => o.spec_bytes(),
        Opcode::Basic3(o) => o.spec_bytes(),
        Opcode::Basic4(o) => o.spec_bytes(),
        Opcode::Basic6(o) => o.spec_bytes(),
        Opcode::Basic8(o) => o.spec_bytes(),
        Opcode::Basic10(o) => o.spec_bytes(),
        Opcode::Basic12(o) => o.spec_bytes(),
        Opcode::Basic16(o) => o.spec_bytes(),
        Opcode::Voice(o) => o.spec_bytes(),
        Opcode::Switch(o) => o.spec_bytes_mapped(f),
        Opcode::Text(o) => o.spec_bytes(t),
        Opcode::Text2(o) => o.spec_bytes(t),
        Opcode::Text47(o) => o.spec_bytes(t),
        Opcode::Text55(o) => o.spec_bytes(t),
        Opcode::Jump2(o) => o.spec_bytes_to(f(o.jump_address)),
        Opcode::Jump4(o) => o.spec_bytes_to(f(o.jump_address)),
        Opcode::DirectJump(o) => o.spec_bytes_to(f(o.jump_address)),
        Opcode::LongJump(o) => o.spec_bytes(),
        Opcode::Choice(o) => o.spec_bytes_mapped(t, f),
        Opcode::Tip(o) => o.spec_bytes(),
        Opcode::Insert(_) => seq![],
    }
}

/// The total size of the opcodes at positions `lo .. hi` of a list of inserted opcodes.
pub open spec fn inner_window(ops: Seq<Opcode>, lo: int, hi: int, t: Map<char, u16>, f: spec_fn(u32) -> u32) -> int
    decreases ops, 0int, hi - lo,
{
    if hi <= lo || hi > ops.len() || lo < 0 {
        0
    } else {
        inner_window(ops, lo, hi - 1, t, f) + emit_mapped(ops[hi - 1], t, f).len()
    }
}

/// Where the window of a tip at `i` covering `k` opcodes ends in a list of `n`.
pub open spec fn window_end(i: int, k: int, n: int) -> int {
    if i + 1 + k <= n {
        i + 1 + k
    } else {
        n
    }
}

/// The bytes of the `i`-th of a list of inserted opcodes: a tip that skips opcodes gets
/// as its skip length 4 plus the size of the opcodes its window covers; an insert among
/// them writes its own contents.
pub open spec fn inner_item(ops: Seq<Opcode>, i: int, t: Map<char, u16>, f: spec_fn(u32) -> u32) -> Seq<u8>
    decreases ops, 1int, 0int,
{
    if 0 <= i < ops.len() {
        match ops[i] {
            Opcode::Tip(c) => if c.skip > 0 {
                c.patched_bytes(
                    ((4 + inner_window(ops, i + 1, window_end(i, c.skip as int, ops.len() as int), t, f))
                        % 65536) as u16,
                )
            } else {
                c.spec_bytes()
            },
            _ => emit_mapped(ops[i], t, f),
        }
    } else {
        seq![]
    }
}

/// The bytes of the first `n` of a list of inserted opcodes.
pub open spec fn inner_bytes(ops: Seq<Opcode>, n: int, t: Map<char, u16>, f: spec_fn(u32) -> u32) -> Seq<u8>
    decreases ops, 2int, n,
{
    if n <= 0 {
        seq![]
    } else {
        inner_bytes(ops, n - 1, t, f) + inner_item(ops, n - 1, t, f)
    }
}

/// The bytes of an opcode, with each jump target passed through `f`; an insert writes its
/// contents one after the other, inner inserts included.
pub open spec fn emit_mapped(op: Opcode, t: Map<char, u16>, f: spec_fn(u32) -> u32) -> Seq<u8>
    decreases op, 0int, 0int,
{
    match op {
        Opcode::Insert(ins) => inner_bytes(ins.contents@, ins.contents@.len() as int, t, f),
        _ => leaf_bytes(op, t, f),
    }
}

/// The bytes of an opcode as it stands.
pub open spec fn emit(op: Opcode, t: Map<char, u16>) -> Seq<u8> {
    emit_mapped(op, t, unmoved())
}

/// The size of an opcode: the number of bytes it writes.
#[verifier::opaque]
pub open spec fn spec_size(op: Opcode, t: Map<char, u16>) -> int {
    emit(op, t).len() as int
}

/// The address of an opcode other than an insert.
pub open spec fn leaf_address(op: Opcode) -> u32 {
    match op {
        Opcode::Single(o) => o.address,
        Opcode::Basic2(o) => o.address,
        Opcode::Basic3(o) => o.address,
        Opcode::Basic4(o) => o.address,
        Opcode::Basic6(o) => o.address,
        Opcode::Basic8(o) => o.address,
        Opcode::Basic10(o) => o.address,
        Opcode::Basic12(o) => o.address,
        Opcode::Basic16(o) => o.address,
        Opcode::Voice(o) => o.address,
        Opcode::Switch(o) => o.address,
        Opcode::Text(o) => o.address,
        Opcode::Text2(o) => o.address,
        Opcode::Text47(o) => o.address,
        Opcode::Text55(o) => o.address,
        Opcode::Jump2(o) => o.address,
        Opcode::Jump4(o) => o.address,
        Opcode::DirectJump(o) => o.address,
        Opcode::LongJump(o) => o.address,
        Opcode::Choice(o) => o.address,
        Opcode::Tip(o) => o.address,
        Opcode::Insert(_) => u32::MAX,
    }
}

/// The address of an opcode in the bytes it was read from; an insert has that of its
/// first opcode, itself perhaps an insert, or `u32::MAX` where it is empty.
pub open spec fn spec_address(op: Opcode) -> u32
    decreases op,
{
    match op {
        Opcode::Insert(ins) => if ins.contents@.len() > 0 {
            spec_address(ins.contents@[0])
        } else {
            u32::MAX
        },
        _ => leaf_address(op),
    }
}

/// The opcode byte; an insert has none and answers 0.
pub open spec fn spec_opcode(op: Opcode) -> u8 {
    match op {
        Opcode::Single(o) => o.opcode,
        Opcode::Basic2(o) => o.opcode,
        Opcode::Basic3(o) => o.opcode,
        Opcode::Basic4(o) => o.opcode,
        Opcode::Basic6(o) => o.opcode,
        Opcode::Basic8(o) => o.opcode,
        Opcode::Basic10(o) => o.opcode,
        Opcode::Basic12(o) => o.opcode,
        Opcode::Basic16(o) => o.opcode,
        Opcode::Voice(o) => o.opcode,
        Opcode::Switch(o) => o.opcode,
        Opcode::Text(o) => o.opcode,
        Opcode::Text2(o) => o.opcode,
        Opcode::Text47(o) => o.opcode,
        Opcode::Text55(o) => o.opcode,
        Opcode::Jump2(o) => o.opcode,
        Opcode::Jump4(o) => o.opcode,
        Opcode::DirectJump(o) => o.opcode,
        Opcode::LongJump(o) => o.opcode,
        Opcode::Choice(o) => o.opcode,
        Opcode::Tip(o) => o.opcode,
        Opcode::Insert(_) => 0,
    }
}

/// The address at which an opcode other than an insert was last written.
pub open spec fn leaf_actual(op: Opcode) -> u32 {
    match op {
        Opcode::Single(o) => o.actual_address,
        Opcode::Basic2(o) => o.actual_address,
        Opcode::Basic3(o) => o.actual_address,
        Opcode::Basic4(o) => o.actual_address,
        Opcode::Basic6(o) => o.actual_address,
        Opcode::Basic8(o) => o.actual_address,
        Opcode::Basic10(o) => o.actual_address,
        Opcode::Basic12(o) => o.actual_address,
        Opcode::Basic16(o) => o.actual_address,
        Opcode::Voice(o) => o.actual_address,
        Opcode::Switch(o) => o.actual_address,
        Opcode::Text(o) => o.actual_address,
        Opcode::Text2(o) => o.actual_address,
        Opcode::Text47(o) => o.actual_address,
        Opcode::Text55(o) => o.actual_address,
        Opcode::Jump2(o) => o.actual_address,
        Opcode::Jump4(o) => o.actual_address,
        Opcode::DirectJump(o) => o.actual_address,
        Opcode::LongJump(o) => o.actual_address,
        Opcode::Choice(o) => o.actual_address,
        Opcode::Tip(o) => o.actual_address,
        Opcode::Insert(_) => 0,
    }
}

/// The address at which an opcode was last written; an insert has that of its first
/// opcode, or 0 where it is empty.
pub open spec fn spec_actual_address(op: Opcode) -> u32
    decreases op,
{
    match op {
        Opcode::Insert(ins) => if ins.contents@.len() > 0 {
            spec_actual_address(ins.contents@[0])
        } else {
            0
        },
        _ => leaf_actual(op),
    }
}

/// `op` with its written address set to `a`; an insert has it set on its first opcode.
pub open spec fn with_actual(op: Opcode, a: u32) -> Opcode {
    match op {
        Opcode::Single(o) => Opcode::Single(SingleByteOpcode { actual_address: a, ..o }),
        Opcode::Basic2(o) => Opcode::Basic2(BasicOpcode2 { actual_address: a, ..o }),
        Opcode::Basic3(o) => Opcode::Basic3(BasicOpcode3 { actual_address: a, ..o }),
        Opcode::Basic4(o) => Opcode::Basic4(BasicOpcode4 { actual_address: a, ..o }),
        Opcode::Basic6(o) => Opcode::Basic6(BasicOpcode6 { actual_address: a, ..o }),
        Opcode::Basic8(o) => Opcode::Basic8(BasicOpcode8 { actual_address: a, ..o }),
        Opcode::Basic10(o) => Opcode::Basic10(BasicOpcode10 { actual_address: a, ..o }),
        Opcode::Basic12(o) => Opcode::Basic12(BasicOpcode12 { actual_address: a, ..o }),
        Opcode::Basic16(o) => Opcode::Basic16(BasicOpcode16 { actual_address: a, ..o }),
        Opcode::Voice(o) => Opcode::Voice(Op44Opcode { actual_address: a, ..o }),
        Opcode::Switch(o) => Opcode::Switch(SwitchOpcode { actual_address: a, ..o }),
        Opcode::Text(o) => Opcode::Text(StringOpcode { actual_address: a, ..o }),
        Opcode::Text2(o) => Opcode::Text2(StringOpcode2 { actual_address: a, ..o }),
        Opcode::Text47(o) => Opcode::Text47(String47Opcode { actual_address: a, ..o }),
        Opcode::Text55(o) => Opcode::Text55(String55Opcode { actual_address: a, ..o }),
        Opcode::Jump2(o) => Opcode::Jump2(JumpOpcode2 { actual_address: a, ..o }),
        Opcode::Jump4(o) => Opcode::Jump4(JumpOpcode4 { actual_address: a, ..o }),
        Opcode::DirectJump(o) => Opcode::DirectJump(DirectJumpOpcode { actual_address: a, ..o }),
        Opcode::LongJump(o) => Opcode::LongJump(LongJumpOpcode { actual_address: a, ..o }),
        Opcode::Choice(o) => Opcode::Choice(ChoiceOpcode { actual_address: a, ..o }),
        Opcode::Tip(o) => Opcode::Tip(Custom77 { actual_address: a, ..o }),
        Opcode::Insert(ins) => Opcode::Insert(ins),
    }
}

impl Opcode {
    /// Appends the bytes of an opcode other than an insert, its targets rewritten by `rel`.
    fn write_leaf(&self, out: &mut Vec<u8>, italics: &ItalicMap, rel: &Relocation)
        requires
            rel.wf(),
        ensures
            final(out)@ == old(out)@ + leaf_bytes(*self, italic_entries(*italics), rel.map_fn()),
    {
        match self {
            Opcode::Single(o) => o.write(out),
            Opcode::Basic2(o) => o.write(out),
            Opcode::Basic3(o) => o.write(out),
            Opcode::Basic4(o) => o.write(out),
            Opcode::Basic6(o) => o.write(out),
            Opcode::Basic8(o) => o.write(out),
            Opcode::Basic10(o) => o.write(out),
            Opcode::Basic12(o) => o.write(out),
            Opcode::Basic16(o) => o.write(out),
            Opcode::Voice(o) => o.write(out),
            Opcode::Switch(o) => o.write_mapped(out, rel),
            Opcode::Text(o) => o.write(out, italics),
            Opcode::Text2(o) => o.write(out, italics),
            Opcode::Text47(o) => o.write(out, italics),
            Opcode::Text55(o) => o.write(out, italics),
            Opcode::Jump2(o) => o.write_to(out, rel.target(o.jump_address)),
            Opcode::Jump4(o) => o.write_to(out, rel.target(o.jump_address)),
            Opcode::DirectJump(o) => o.write_to(out, rel.target(o.jump_address)),
            Opcode::LongJump(o) => o.write(out),
            Opcode::Choice(o) => o.write_mapped(out, italics, rel),
            Opcode::Tip(o) => {
                let mut b = o.binary_serialize();
                out.append(&mut b);
            },
            Opcode::Insert(_) => {
                assert(old(out)@ + seq![] =~= old(out)@);
            },
        }
    }

    /// The size of an opcode, with targets rewritten by `rel`.
    pub fn mapped_size(&self, italics: &ItalicMap, rel: &Relocation) -> (r: usize)
        requires
            rel.wf(),
        ensures
            r == emit_mapped(*self, italic_entries(*italics), rel.map_fn()).len(),
        decreases *self, 2int,
    {
        let mut v: Vec<u8> = Vec::new();
        self.write_mapped(&mut v, italics, rel);
        assert(v@ =~= emit_mapped(*self, italic_entries(*italics), rel.map_fn()));
        v.len()
    }

    /// Appends the bytes of the opcode, each jump target rewritten by `rel`; the opcodes
    /// of an insert are written one after the other, a tip among them patched.
    #[verifier::spinoff_prover]
    #[verifier::loop_isolation(false)]
    pub fn write_mapped(&self, out: &mut Vec<u8>, italics: &ItalicMap, rel: &Relocation)
        requires
            rel.wf(),
        ensures
            final(out)@ == old(out)@ + emit_mapped(*self, italic_entries(*italics), rel.map_fn()),
        decreases *self, 1int,
    {
        let ghost t = italic_entries(*italics);
        let ghost f = rel.map_fn();
        match self {
            Opcode::Insert(ins) => {
                let ops = &ins.contents;
                let n = ops.len();
                let mut i: usize = 0;
                while i < n
                    invariant
                        rel.wf(),
                        t == italic_entries(*italics),
                        f == rel.map_fn(),
                        n == ops@.len(),
                        *self == Opcode::Insert(*ins),
                        ops == &ins.contents,
                        i <= n,
                        out@ == old(out)@ + inner_bytes(ops@, i as int, t, f),
                    decreases n - i,
                {
                    let ghost before = out@;
                    match &ops[i] {
                        Opcode::Tip(c) => {
                            if c.skip > 0 {
                                let end = if (c.skip as usize) <= n - i - 1 {
                                    i + 1 + c.skip as usize
                                } else {
                                    n
                                };
                                let mut acc: usize = 4;
                                let mut j: usize = i + 1;
                                while j < end
                                    invariant
                                        rel.wf(),
                                        t == italic_entries(*italics),
                                        f == rel.map_fn(),
                                        n == ops@.len(),
                                        *self == Opcode::Insert(*ins),
                                        ops == &ins.contents,
                                        i < j <= end <= n,
                                        acc < 65536,
                                        acc == (4 + inner_window(ops@, i + 1, j as int, t, f)) % 65536,
                                    decreases end - j,
                                {
                                    let l = ops[j].mapped_size(italics, rel);
                                    proof {
                                        let w = inner_window(ops@, i + 1, j as int, t, f);
                                        vstd::arithmetic::div_mod::lemma_add_mod_noop(
                                            4 + w,
                                            l as int,
                                            65536,
                                        );
                                        vstd::arithmetic::div_mod::lemma_mod_twice(4 + w, 65536);
                                    }
                                    acc = (acc + l % 65536) % 65536;
                                    j += 1;
                                }
                                let mut b = c.patched(acc as u16);
                                out.append(&mut b);
                            } else {
                                let mut b = c.binary_serialize();
                                out.append(&mut b);
                            }
                        },
                        other => {
                            other.write_mapped(out, italics, rel);
                        },
                    }
                    assert(inner_bytes(ops@, i + 1, t, f) == inner_bytes(ops@, i as int, t, f)
                        + inner_item(ops@, i as int, t, f));
                    assert(out@ == before + inner_item(ops@, i as int, t, f));
                    i += 1;
                }
            },
            _ => {
                self.write_leaf(out, italics, rel);
            },
        }
    }

    /// The bytes of the opcode as it stands.
    pub fn binary_serialize(&self, italics: &ItalicMap) -> (r: Vec<u8>)
        ensures
            r@ == emit(*self, italic_entries(*italics)),
    {
        let rel = Relocation::identity();
        let mut out: Vec<u8> = Vec::new();
        self.write_mapped(&mut out, italics, &rel);
        assert(out@ =~= emit(*self, italic_entries(*italics)));
        out
    }

    /// The number of bytes the opcode writes.
    pub fn size(&self, italics: &ItalicMap) -> (r: usize)
        ensures
            r == spec_size(*self, italic_entries(*italics)),
            *self is Insert ==> r == contents_size(
                self->Insert_0.contents@,
                self->Insert_0.contents@.len() as int,
                italic_entries(*italics),
            ),
            *self is Text ==> r == 5 + sjis_encoding(
                payload(self->Text_0.unicode, self->Text_0.translation),
                italic_entries(*italics),
            ).len() + 1,
    {
        proof {
            reveal(spec_size);
            if self is Insert {
                let c = self->Insert_0.contents@;
                lemma_contents_size(c, c.len() as int, italic_entries(*italics));
            }
        }
        self.binary_serialize(italics).len()
    }

    /// The address of an opcode other than an insert.
    fn leaf_addr(&self) -> (r: u32)
        ensures
            r == leaf_address(*self),
    {
        match self {
            Opcode::Single(o) => o.address,
            Opcode::Basic2(o) => o.address,
            Opcode::Basic3(o) => o.address,
            Opcode::Basic4(o) => o.address,
            Opcode::Basic6(o) => o.address,
            Opcode::Basic8(o) => o.address,
            Opcode::Basic10(o) => o.address,
            Opcode::Basic12(o) => o.address,
            Opcode::Basic16(o) => o.address,
            Opcode::Voice(o) => o.address,
            Opcode::Switch(o) => o.address,
            Opcode::Text(o) => o.address,
            Opcode::Text2(o) => o.address,
            Opcode::Text47(o) => o.address,
            Opcode::Text55(o) => o.address,
            Opcode::Jump2(o) => o.address,
            Opcode::Jump4(o) => o.address,
            Opcode::DirectJump(o) => o.address,
            Opcode::LongJump(o) => o.address,
            Opcode::Choice(o) => o.address,
            Opcode::Tip(o) => o.address,
            Opcode::Insert(_) => u32::MAX,
        }
    }

    /// The address of the opcode in the bytes it was read from.
    pub fn address(&self) -> (r: u32)
        ensures
            r == spec_address(*self),
        decreases *self,
    {
        match self {
            Opcode::Insert(ins) => if ins.contents.len() > 0 {
                ins.contents[0].address()
            } else {
                u32::MAX
            },
            _ => self.leaf_addr(),
        }
    }

    /// The opcode byte; 0 for an insert.
    pub fn opcode(&self) -> (r: u8)
        ensures
            r == spec_opcode(*self),
    {
        match self {
            Opcode::Single(o) => o.opcode,
            Opcode::Basic2(o) => o.opcode,
            Opcode::Basic3(o) => o.opcode,
            Opcode::Basic4(o) => o.opcode,
            Opcode::Basic6(o) => o.opcode,
            Opcode::Basic8(o) => o.opcode,
            Opcode::Basic10(o) => o.opcode,
            Opcode::Basic12(o) => o.opcode,
            Opcode::Basic16(o) => o.opcode,
            Opcode::Voice(o) => o.opcode,
            Opcode::Switch(o) => o.opcode,
            Opcode::Text(o) => o.opcode,
            Opcode::Text2(o) => o.opcode,
            Opcode::Text47(o) => o.opcode,
            Opcode::Text55(o) => o.opcode,
            Opcode::Jump2(o) => o.opcode,
            Opcode::Jump4(o) => o.opcode,
            Opcode::DirectJump(o) => o.opcode,
            Opcode::LongJump(o) => o.opcode,
            Opcode::Choice(o) => o.opcode,
            Opcode::Tip(o) => o.opcode,
            Opcode::Insert(_) => 0,
        }
    }

    fn leaf_actual_address(&self) -> (r: u32)
        ensures
            r == leaf_actual(*self),
    {
        match self {
            Opcode::Single(o) => o.actual_address,
            Opcode::Basic2(o) => o.actual_address,
            Opcode::Basic3(o) => o.actual_address,
            Opcode::Basic4(o) => o.actual_address,
            Opcode::Basic6(o) => o.actual_address,
            Opcode::Basic8(o) => o.actual_address,
            Opcode::Basic10(o) => o.actual_address,
            Opcode::Basic12(o) => o.actual_address,
            Opcode::Basic16(o) => o.actual_address,
            Opcode::Voice(o) => o.actual_address,
            Opcode::Switch(o) => o.actual_address,
            Opcode::Text(o) => o.actual_address,
            Opcode::Text2(o) => o.actual_address,
            Opcode::Text47(o) => o.actual_address,
            Opcode::Text55(o) => o.actual_address,
            Opcode::Jump2(o) => o.actual_address,
            Opcode::Jump4(o) => o.actual_address,
            Opcode::DirectJump(o) => o.actual_address,
            Opcode::LongJump(o) => o.actual_address,
            Opcode::Choice(o) => o.actual_address,
            Opcode::Tip(o) => o.actual_address,
            Opcode::Insert(_) => 0,
        }
    }

    /// The address at which the opcode was last written.
    pub fn actual_address(&self) -> (r: u32)
        ensures
            r == spec_actual_address(*self),
        decreases *self,
    {
        match self {
            Opcode::Insert(ins) => if ins.contents.len() > 0 {
                ins.contents[0].actual_address()
            } else {
                0
            },
            _ => self.leaf_actual_address(),
        }
    }

    fn set_leaf_actual(&mut self, a: u32)
        ensures
            *final(self) == with_actual(*old(self), a),
    {
        match self {
            Opcode::Single(o) => o.actual_address = a,
            Opcode::Basic2(o) => o.actual_address = a,
            Opcode::Basic3(o) => o.actual_address = a,
            Opcode::Basic4(o) => o.actual_address = a,
            Opcode::Basic6(o) => o.actual_address = a,
            Opcode::Basic8(o) => o.actual_address = a,
            Opcode::Basic10(o) => o.actual_address = a,
            Opcode::Basic12(o) => o.actual_address = a,
            Opcode::Basic16(o) => o.actual_address = a,
            Opcode::Voice(o) => o.actual_address = a,
            Opcode::Switch(o) => o.actual_address = a,
            Opcode::Text(o) => o.actual_address = a,
            Opcode::Text2(o) => o.actual_address = a,
            Opcode::Text47(o) => o.actual_address = a,
            Opcode::Text55(o) => o.actual_address = a,
            Opcode::Jump2(o) => o.actual_address = a,
            Opcode::Jump4(o) => o.actual_address = a,
            Opcode::DirectJump(o) => o.actual_address = a,
            Opcode::LongJump(o) => o.actual_address = a,
            Opcode::Choice(o) => o.actual_address = a,
            Opcode::Tip(o) => o.actual_address = a,
            Opcode::Insert(_) => {},
        }
    }

    /// Records the address at which the opcode is written; an insert records it on its
    /// first opcode, itself perhaps an insert, and an empty insert records nothing.
    pub fn set_actual_address(&mut self, a: u32)
        ensures
            actual_set(*old(self), *final(self), a),
            spec_address(*final(self)) == spec_address(*old(self)),
        decreases *old(self),
    {
        match self {
            Opcode::Insert(ins) => {
                if ins.contents.len() > 0 {
                    let ghost before = ins.contents@;
                    let mut first = ins.contents.remove(0);
                    assert(first == before[0]);
                    first.set_actual_address(a);
                    ins.contents.insert(0, first);
                    assert(ins.contents@.subrange(1, ins.contents@.len() as int) =~= before.subrange(
                        1,
                        before.len() as int,
                    ));
                    assert(forall|k: int|
                        1 <= k < before.len() ==> ins.contents@[k] == before.subrange(
                            1,
                            before.len() as int,
                        )[k - 1]);
                }
            },
            _ => self.set_leaf_actual(a),
        }
    }
}

/// Whether `new` is `old` with its written address set to `a`: on the opcode itself, or for
/// an insert on its first opcode, the others unchanged.
pub open spec fn actual_set(old: Opcode, new: Opcode, a: u32) -> bool
    decreases old,
{
    match old {
        Opcode::Insert(ins) => match new {
            Opcode::Insert(ins2) => {
                &&& ins2.contents@.len() == ins.contents@.len()
                &&& ins.contents@.len() > 0 ==> actual_set(ins.contents@[0], ins2.contents@[0], a)
                &&& forall|k: int|
                    1 <= k < ins.contents@.len() ==> #[trigger] ins2.contents@[k] == ins.contents@[k]
            },
            _ => false,
        },
        _ => new == with_actual(old, a),
    }
}

/// The length of a list of switch arms does not depend on where they jump.
pub proof fn lemma_arms_len(arms: Seq<SwitchArm>, f: spec_fn(u32) -> u32, g: spec_fn(u32) -> u32)
    ensures
        arms_bytes(arms, f).len() == arms_bytes(arms, g).len(),
    decreases arms.len(),
{
    if arms.len() > 0 {
        lemma_arms_len(arms.drop_last(), f, g);
    }
}

/// The length of a list of choices does not depend on where they jump.
pub proof fn lemma_choices_len(cs: Seq<Choice>, t: Map<char, u16>, f: spec_fn(u32) -> u32, g: spec_fn(u32) -> u32)
    ensures
        choices_bytes(cs, t, f).len() == choices_bytes(cs, t, g).len(),
    decreases cs.len(),
{
    if cs.len() > 0 {
        lemma_choices_len(cs.drop_last(), t, f, g);
    }
}

/// The size of an opcode other than an insert does not depend on where it jumps.
pub proof fn lemma_leaf_len(op: Opcode, t: Map<char, u16>, f: spec_fn(u32) -> u32, g: spec_fn(u32) -> u32)
    ensures
        leaf_bytes(op, t, f).len() == leaf_bytes(op, t, g).len(),
{
    match op {
        Opcode::Switch(o) => lemma_arms_len(o.arms@, f, g),
        Opcode::Choice(o) => lemma_choices_len(o.choices@, t, f, g),
        _ => {},
    }
}

/// The size of an opcode does not depend on where it jumps.
pub proof fn lemma_emit_len_any(op: Opcode, t: Map<char, u16>, f: spec_fn(u32) -> u32, g: spec_fn(u32) -> u32)
    ensures
        emit_mapped(op, t, f).len() == emit_mapped(op, t, g).len(),
    decreases op, 0int, 0int,
{
    match op {
        Opcode::Insert(ins) => lemma_inner_len(ins.contents@, ins.contents@.len() as int, t, f, g),
        _ => lemma_leaf_len(op, t, f, g),
    }
}

/// The size of a run of inserted opcodes does not depend on where they jump.
pub proof fn lemma_inner_window(ops: Seq<Opcode>, lo: int, hi: int, t: Map<char, u16>, f: spec_fn(u32) -> u32, g: spec_fn(u32) -> u32)
    ensures
        inner_window(ops, lo, hi, t, f) == inner_window(ops, lo, hi, t, g),
    decreases ops, 0int, hi - lo,
{
    if hi > lo && hi <= ops.len() && lo >= 0 {
        lemma_inner_window(ops, lo, hi - 1, t, f, g);
        lemma_emit_len_any(ops[hi - 1], t, f, g);
    }
}

/// The `i`-th of a list of inserted opcodes writes as many bytes wherever they jump.
pub proof fn lemma_item_len(ops: Seq<Opcode>, i: int, t: Map<char, u16>, f: spec_fn(u32) -> u32, g: spec_fn(u32) -> u32)
    ensures
        inner_item(ops, i, t, f).len() == inner_item(ops, i, t, g).len(),
    decreases ops, 1int, 0int,
{
    if 0 <= i < ops.len() {
        match ops[i] {
            Opcode::Tip(_) => {},
            _ => lemma_emit_len_any(ops[i], t, f, g),
        }
    }
}

/// The bytes of the first `n` inserted opcodes have a length that does not depend on
/// where they jump.
pub proof fn lemma_inner_len(ops: Seq<Opcode>, n: int, t: Map<char, u16>, f: spec_fn(u32) -> u32, g: spec_fn(u32) -> u32)
    ensures
        inner_bytes(ops, n, t, f).len() == inner_bytes(ops, n, t, g).len(),
    decreases ops, 2int, n,
{
    if n > 0 {
        lemma_inner_len(ops, n - 1, t, f, g);
        lemma_item_len(ops, n - 1, t, f, g);
    }
}

/// An opcode writes as many bytes with its targets moved as it does as it stands.
pub proof fn lemma_emit_len(op: Opcode, t: Map<char, u16>, f: spec_fn(u32) -> u32)
    ensures
        emit_mapped(op, t, f).len() == spec_size(op, t),
{
    reveal(spec_size);
    lemma_emit_len_any(op, t, f, unmoved());
}

/// The total size of the first `n` of a list of opcodes.
pub open spec fn contents_size(ops: Seq<Opcode>, n: int, t: Map<char, u16>) -> int
    decreases n,
{
    if n <= 0 {
        0
    } else {
        contents_size(ops, n - 1, t) + spec_size(ops[n - 1], t)
    }
}

/// The contents of an insert write as many bytes as their sizes add up to; a tip among
/// them stays four bytes long when patched.
pub proof fn lemma_contents_size(ops: Seq<Opcode>, n: int, t: Map<char, u16>)
    requires
        0 <= n <= ops.len(),
    ensures
        inner_bytes(ops, n, t, unmoved()).len() == contents_size(ops, n, t),
    decreases n,
{
    reveal(spec_size);
    if n > 0 {
        lemma_contents_size(ops, n - 1, t);
        assert(inner_bytes(ops, n, t, unmoved()) == inner_bytes(ops, n - 1, t, unmoved()) + inner_item(
            ops,
            n - 1,
            t,
            unmoved(),
        ));
    }
}

} // verus!
