//! Writing back a script just read: the bytes that come out are the bytes that went in,
//! where nothing in the script asks for a change.
use vstd::prelude::*;
use crate::bytes::{lemma_le16_of_read, lemma_le32_of_read, u16_at};
use crate::opcodes::{
    arms_bytes, emit, text_at, text_bytes, unmoved, BasicOpcode10, BasicOpcode12, BasicOpcode16,
    BasicOpcode2, BasicOpcode3, BasicOpcode4, BasicOpcode6, BasicOpcode8, Choice, ChoiceOpcode,
    choice_address, choices_bytes, DirectJumpOpcode,
    JumpOpcode2, JumpOpcode4, LongJumpOpcode, Op44Opcode, Opcode, SingleByteOpcode,
    String47Opcode, String55Opcode, StringOpcode, StringOpcode2, SwitchArm, SwitchOpcode,
    is_first, spec_address, spec_size, window_end,
};
use crate::quirks::Quirks;
use crate::reader::{decodes, kind_of, OpKind};
use crate::script::{
    law_read_layout_kept, lemma_decoded, lemma_item_is_emit, lemma_prefix_mono,
    lemma_read_address, olds_of, parsed_end, parsed_from, prefix_size, relocation_fn, top_bytes,
    top_item, without_skip, Script,
};
use crate::sjis::{cstr_at, sjis_encoding, sjis_text_of};

verus! {

/// Whether the string at `p` ends in a NUL before the cap of 1024 bytes, and its text
/// encodes back to its own bytes under the italic mapping `t`.
pub open spec fn text_faithful(input: Seq<u8>, p: int, t: Map<char, u16>) -> bool {
    forall|n: int|
        #[trigger] cstr_at(input, p, n) ==> n < 1024 && sjis_encoding(
            sjis_text_of(input.subrange(p, p + n)),
            t,
        ) == input.subrange(p, p + n)
}

/// Whether every string that the opcode `op` read at `a` holds is faithful.
pub open spec fn strings_faithful(op: Opcode, a: int, input: Seq<u8>, t: Map<char, u16>) -> bool {
    match op {
        Opcode::Text(_) => text_faithful(input, a + 5, t),
        Opcode::Text2(_) => text_faithful(input, a + 3, t),
        Opcode::Text55(_) => text_faithful(input, a + 10, t),
        Opcode::Text47(_) => text_faithful(input, String47Opcode::text_offset(a, input), t),
        Opcode::Choice(o) => forall|j: int|
            0 <= j < o.choices@.len() ==> text_faithful(
                input,
                #[trigger] choice_address(o.choices@, a + 7, j, t) + 10,
                t,
            ),
        _ => true,
    }
}

/// Whether the `i`-th opcode of a script read from `data` writes back its own bytes as far
/// as its contents go: a tip's stored skip length is the one writing gives it, and every
/// string of another opcode is faithful.
pub open spec fn item_faithful(ops: Seq<Opcode>, i: int, data: Seq<u8>, t: Map<char, u16>) -> bool {
    let a = spec_address(ops[i]) as int;
    match ops[i] {
        Opcode::Tip(c) => u16_at(data, a + 2) == (if c.skip > 0 {
            ((4 + prefix_size(ops, window_end(i, c.skip as int, ops.len() as int), t)
                - prefix_size(ops, i + 1, t)) % 65536) as u16
        } else {
            0u16
        }),
        _ => strings_faithful(ops[i], a, data, t),
    }
}

/// The arms of a switch read at `a` write back the bytes they were read from.
proof fn lemma_arms_reencode(o: SwitchOpcode, a: int, input: Seq<u8>, k: int)
    requires
        o.read_from(a, input),
        0 <= a,
        0 <= k <= o.arms@.len(),
        a + 5 + 6 * o.arms@.len() <= input.len(),
    ensures
        arms_bytes(o.arms@.subrange(0, k), unmoved()) == input.subrange(a + 5, a + 5 + 6 * k),
    decreases k,
{
    if k == 0 {
        assert(input.subrange(a + 5, a + 5) =~= Seq::<u8>::empty());
    } else {
        lemma_arms_reencode(o, a, input, k - 1);
        let s = o.arms@.subrange(0, k);
        assert(s.drop_last() =~= o.arms@.subrange(0, k - 1));
        lemma_le16_of_read(input, a + 5 + 6 * (k - 1));
        lemma_le32_of_read(input, a + 7 + 6 * (k - 1));
        assert(arms_bytes(s, unmoved()) =~= input.subrange(a + 5, a + 5 + 6 * k));
    }
}

/// A string read at `p` whose text encodes back to its bytes writes back those bytes and
/// its NUL.
proof fn lemma_text_reencode(input: Seq<u8>, p: int, u: String, t: Map<char, u16>)
    requires
        text_at(input, p, u@),
        text_faithful(input, p, t),
    ensures
        exists|n: int|
            #[trigger] cstr_at(input, p, n) && text_bytes(u, None, t) == input.subrange(p, p + n + 1),
{
    let n = choose|n: int| #[trigger] cstr_at(input, p, n) && u@ == sjis_text_of(input.subrange(p, p + n));
    assert(text_bytes(u, None, t) =~= input.subrange(p, p + n + 1));
}

proof fn lemma_reencode_single(o: SingleByteOpcode, a: int, input: Seq<u8>)
    requires
        o.read_from(a, input),
        0 <= a,
        a + 1 <= input.len(),
    ensures
        o.spec_bytes() == input.subrange(a, a + 1),
{

    assert(o.spec_bytes() =~= input.subrange(a, a + 1));
}

proof fn lemma_reencode_basic2(o: BasicOpcode2, a: int, input: Seq<u8>)
    requires
        o.read_from(a, input),
        0 <= a,
        a + 3 <= input.len(),
    ensures
        o.spec_bytes() == input.subrange(a, a + 3),
{
    lemma_le16_of_read(input, a + 1);
    assert(o.spec_bytes() =~= input.subrange(a, a + 3));
}

proof fn lemma_reencode_basic3(o: BasicOpcode3, a: int, input: Seq<u8>)
    requires
        o.read_from(a, input),
        0 <= a,
        a + 4 <= input.len(),
    ensures
        o.spec_bytes() == input.subrange(a, a + 4),
{
    lemma_le16_of_read(input, a + 1);
    assert(o.spec_bytes() =~= input.subrange(a, a + 4));
}

proof fn lemma_reencode_basic4(o: BasicOpcode4, a: int, input: Seq<u8>)
    requires
        o.read_from(a, input),
        0 <= a,
        a + 5 <= input.len(),
    ensures
        o.spec_bytes() == input.subrange(a, a + 5),
{
    lemma_le16_of_read(input, a + 1);
    lemma_le16_of_read(input, a + 3);
    assert(o.spec_bytes() =~= input.subrange(a, a + 5));
}

proof fn lemma_reencode_basic6(o: BasicOpcode6, a: int, input: Seq<u8>)
    requires
        o.read_from(a, input),
        0 <= a,
        a + 7 <= input.len(),
    ensures
        o.spec_bytes() == input.subrange(a, a + 7),
{
    lemma_le16_of_read(input, a + 1);
    lemma_le16_of_read(input, a + 3);
    lemma_le16_of_read(input, a + 5);
    assert(o.spec_bytes() =~= input.subrange(a, a + 7));
}

proof fn lemma_reencode_basic8(o: BasicOpcode8, a: int, input: Seq<u8>)
    requires
        o.read_from(a, input),
        0 <= a,
        a + 9 <= input.len(),
    ensures
        o.spec_bytes() == input.subrange(a, a + 9),
{
    lemma_le16_of_read(input, a + 1);
    lemma_le16_of_read(input, a + 3);
    lemma_le16_of_read(input, a + 5);
    lemma_le16_of_read(input, a + 7);
    assert(o.spec_bytes() =~= input.subrange(a, a + 9));
}

proof fn lemma_reencode_basic10(o: BasicOpcode10, a: int, input: Seq<u8>)
    requires
        o.read_from(a, input),
        0 <= a,
        a + 11 <= input.len(),
    ensures
        o.spec_bytes() == input.subrange(a, a + 11),
{
    lemma_le16_of_read(input, a + 1);
    lemma_le16_of_read(input, a + 3);
    lemma_le16_of_read(input, a + 5);
    lemma_le16_of_read(input, a + 7);
    lemma_le16_of_read(input, a + 9);
    assert(o.spec_bytes() =~= input.subrange(a, a + 11));
}

proof fn lemma_reencode_basic12(o: BasicOpcode12, a: int, input: Seq<u8>)
    requires
        o.read_from(a, input),
        0 <= a,
        a + 13 <= input.len(),
    ensures
        o.spec_bytes() == input.subrange(a, a + 13),
{
    lemma_le16_of_read(input, a + 1);
    lemma_le16_of_read(input, a + 3);
    lemma_le16_of_read(input, a + 5);
    lemma_le16_of_read(input, a + 7);
    lemma_le16_of_read(input, a + 9);
    lemma_le16_of_read(input, a + 11);
    assert(o.spec_bytes() =~= input.subrange(a, a + 13));
}

proof fn lemma_reencode_basic16(o: BasicOpcode16, a: int, input: Seq<u8>)
    requires
        o.read_from(a, input),
        0 <= a,
        a + 17 <= input.len(),
    ensures
        o.spec_bytes() == input.subrange(a, a + 17),
{
    lemma_le16_of_read(input, a + 1);
    lemma_le16_of_read(input, a + 3);
    lemma_le16_of_read(input, a + 5);
    lemma_le16_of_read(input, a + 7);
    lemma_le16_of_read(input, a + 9);
    lemma_le16_of_read(input, a + 11);
    lemma_le16_of_read(input, a + 13);
    lemma_le16_of_read(input, a + 15);
    assert(o.spec_bytes() =~= input.subrange(a, a + 17));
}

proof fn lemma_reencode_longjump(o: LongJumpOpcode, a: int, input: Seq<u8>)
    requires
        o.read_from(a, input),
        0 <= a,
        a + 5 <= input.len(),
    ensures
        o.spec_bytes() == input.subrange(a, a + 5),
{
    lemma_le16_of_read(input, a + 1);
    lemma_le16_of_read(input, a + 3);
    assert(o.spec_bytes() =~= input.subrange(a, a + 5));
}

proof fn lemma_reencode_jump2(o: JumpOpcode2, a: int, input: Seq<u8>)
    requires
        o.read_from(a, input),
        0 <= a,
        a + 7 <= input.len(),
    ensures
        o.spec_bytes_to(o.jump_address) == input.subrange(a, a + 7),
{
    lemma_le16_of_read(input, a + 1);
    lemma_le32_of_read(input, a + 3);
    assert(o.spec_bytes_to(o.jump_address) =~= input.subrange(a, a + 7));
}

proof fn lemma_reencode_jump4(o: JumpOpcode4, a: int, input: Seq<u8>)
    requires
        o.read_from(a, input),
        0 <= a,
        a + 9 <= input.len(),
    ensures
        o.spec_bytes_to(o.jump_address) == input.subrange(a, a + 9),
{
    lemma_le16_of_read(input, a + 1);
    lemma_le16_of_read(input, a + 3);
    lemma_le32_of_read(input, a + 5);
    assert(o.spec_bytes_to(o.jump_address) =~= input.subrange(a, a + 9));
}

proof fn lemma_reencode_directjump(o: DirectJumpOpcode, a: int, input: Seq<u8>)
    requires
        o.read_from(a, input),
        0 <= a,
        a + 5 <= input.len(),
    ensures
        o.spec_bytes_to(o.jump_address) == input.subrange(a, a + 5),
{
    lemma_le32_of_read(input, a + 1);
    assert(o.spec_bytes_to(o.jump_address) =~= input.subrange(a, a + 5));
}

proof fn lemma_reencode_voice(o: Op44Opcode, a: int, input: Seq<u8>)
    requires
        o.read_from(a, input),
        0 <= a,
        a + o.spec_bytes().len() <= input.len(),
    ensures
        o.spec_bytes() == input.subrange(a, a + o.spec_bytes().len()),
{
    lemma_le16_of_read(input, a + 1);
    lemma_le16_of_read(input, a + 3);
    assert(o.spec_bytes() =~= input.subrange(a, a + o.spec_bytes().len()));
}

proof fn lemma_reencode_switch(o: SwitchOpcode, a: int, input: Seq<u8>)
    requires
        o.read_from(a, input),
        0 <= a,
        a + o.spec_bytes_mapped(unmoved()).len() <= input.len(),
    ensures
        o.spec_bytes_mapped(unmoved()) == input.subrange(a, a + o.spec_bytes_mapped(unmoved()).len()),
{
    crate::opcodes::lemma_arms_len(o.arms@, unmoved(), unmoved());
    lemma_arms_len_is(o.arms@);
    lemma_arms_reencode(o, a, input, o.arms@.len() as int);
    assert(o.arms@.subrange(0, o.arms@.len() as int) =~= o.arms@);
    lemma_le16_of_read(input, a + 1);
    lemma_le16_of_read(input, a + 3);
    assert(o.spec_bytes_mapped(unmoved()) =~= input.subrange(a, a + o.spec_bytes_mapped(unmoved()).len()));
}

/// Each arm writes six bytes.
proof fn lemma_arms_len_is(arms: Seq<SwitchArm>)
    ensures
        arms_bytes(arms, unmoved()).len() == 6 * arms.len(),
    decreases arms.len(),
{
    if arms.len() > 0 {
        lemma_arms_len_is(arms.drop_last());
    }
}

proof fn lemma_reencode_text(o: StringOpcode, a: int, input: Seq<u8>, t: Map<char, u16>)
    requires
        o.read_from(a, input),
        text_faithful(input, a + 5, t),
        0 <= a,
        a + o.spec_bytes(t).len() <= input.len(),
    ensures
        o.spec_bytes(t) == input.subrange(a, a + o.spec_bytes(t).len()),
{
    lemma_text_reencode(input, a + 5, o.unicode, t);
    assert(o.spec_bytes(t) =~= input.subrange(a, a + o.spec_bytes(t).len()));
}

proof fn lemma_reencode_text2(o: StringOpcode2, a: int, input: Seq<u8>, t: Map<char, u16>)
    requires
        o.read_from(a, input),
        text_faithful(input, a + 3, t),
        0 <= a,
        a + o.spec_bytes(t).len() <= input.len(),
    ensures
        o.spec_bytes(t) == input.subrange(a, a + o.spec_bytes(t).len()),
{
    lemma_text_reencode(input, a + 3, o.unicode, t);
    assert(o.spec_bytes(t) =~= input.subrange(a, a + o.spec_bytes(t).len()));
}

proof fn lemma_reencode_text47(o: String47Opcode, a: int, input: Seq<u8>, t: Map<char, u16>)
    requires
        o.read_from(a, input),
        text_faithful(input, String47Opcode::text_offset(a, input), t),
        0 <= a,
        a + o.spec_bytes(t).len() <= input.len(),
    ensures
        o.spec_bytes(t) == input.subrange(a, a + o.spec_bytes(t).len()),
{
    lemma_le16_of_read(input, a + 1);
    if o.arg1 != 0x000D {
        lemma_le16_of_read(input, a + 3);
    }
    lemma_text_reencode(input, String47Opcode::text_offset(a, input), o.unicode, t);
    assert(o.spec_bytes(t) =~= input.subrange(a, a + o.spec_bytes(t).len()));
}

proof fn lemma_reencode_text55(o: String55Opcode, a: int, input: Seq<u8>, t: Map<char, u16>)
    requires
        o.read_from(a, input),
        text_faithful(input, a + 10, t),
        0 <= a,
        a + o.spec_bytes(t).len() <= input.len(),
    ensures
        o.spec_bytes(t) == input.subrange(a, a + o.spec_bytes(t).len()),
{
    lemma_le16_of_read(input, a + 1);
    lemma_le16_of_read(input, a + 6);
    lemma_text_reencode(input, a + 10, o.unicode, t);
    assert(o.spec_bytes(t) =~= input.subrange(a, a + o.spec_bytes(t).len()));
}

/// The first `k` choices of a menu read at `a` write back the bytes they were read from.
#[verifier::spinoff_prover]
#[verifier::rlimit(100)]
proof fn lemma_choices_reencode(o: ChoiceOpcode, a: int, input: Seq<u8>, t: Map<char, u16>, k: int)
    requires
        o.read_from(a, input, t),
        0 <= a,
        0 <= k <= o.choices@.len(),
        forall|j: int|
            0 <= j < o.choices@.len() ==> text_faithful(
                input,
                #[trigger] choice_address(o.choices@, a + 7, j, t) + 10,
                t,
            ),
        choice_address(o.choices@, a + 7, o.choices@.len() as int, t) <= input.len(),
    ensures
        choice_address(o.choices@, a + 7, k, t) >= a + 7,
        choices_bytes(o.choices@.subrange(0, k), t, unmoved()) == input.subrange(
            a + 7,
            choice_address(o.choices@, a + 7, k, t),
        ),
    decreases k,
{
    lemma_choice_address_mono(o.choices@, a + 7, 0, k, t);
    lemma_choice_address_mono(o.choices@, a + 7, k, o.choices@.len() as int, t);
    if k == 0 {
        assert(input.subrange(a + 7, a + 7) =~= Seq::<u8>::empty());
    } else {
        let j = k - 1;
        lemma_choices_reencode(o, a, input, t, j);
        let cs = o.choices@;
        let ca = choice_address(cs, a + 7, j, t);
        assert(cs[j].read_from(ca, input));
        assert(text_faithful(input, ca + 10, t));
        lemma_choice_address_mono(cs, a + 7, k, cs.len() as int, t);
        lemma_one_choice(cs[j], ca, input, t);
        assert(cs.subrange(0, k).drop_last() =~= cs.subrange(0, j));
        lemma_concat_adjacent(input, a + 7, ca, choice_address(cs, a + 7, k, t));
    }
}

/// A choice read at `ca` whose text encodes back to its bytes writes back the bytes it was
/// read from.
proof fn lemma_one_choice(c: Choice, ca: int, input: Seq<u8>, t: Map<char, u16>)
    requires
        c.read_from(ca, input),
        text_faithful(input, ca + 10, t),
        0 <= ca,
        ca + 11 + sjis_encoding(c.unicode@, t).len() <= input.len(),
    ensures
        c.spec_bytes_mapped(t, unmoved()) == input.subrange(
            ca,
            ca + 11 + sjis_encoding(c.unicode@, t).len(),
        ),
{
    let n = choose|n: int| #[trigger] cstr_at(input, ca + 10, n) && c.unicode@ == sjis_text_of(
        input.subrange(ca + 10, ca + 10 + n),
    );
    lemma_le32_of_read(input, ca + 6);
    assert(c.spec_bytes_mapped(t, unmoved()) =~= input.subrange(ca, ca + 11 + n));
}

/// Choices further on start further on.
proof fn lemma_choice_address_mono(cs: Seq<Choice>, first: int, x: int, y: int, t: Map<char, u16>)
    requires
        0 <= x <= y,
    ensures
        choice_address(cs, first, x, t) <= choice_address(cs, first, y, t),
    decreases y - x,
{
    if x < y {
        lemma_choice_address_mono(cs, first, x, y - 1, t);
    }
}

#[verifier::spinoff_prover]
#[verifier::rlimit(100)]
proof fn lemma_reencode_choice(o: ChoiceOpcode, a: int, input: Seq<u8>, t: Map<char, u16>)
    requires
        o.read_from(a, input, t),
        forall|j: int|
            0 <= j < o.choices@.len() ==> text_faithful(
                input,
                #[trigger] choice_address(o.choices@, a + 7, j, t) + 10,
                t,
            ),
        0 <= a,
        a + o.spec_bytes_mapped(t, unmoved()).len() <= input.len(),
    ensures
        o.spec_bytes_mapped(t, unmoved()) == input.subrange(
            a,
            a + o.spec_bytes_mapped(t, unmoved()).len(),
        ),
{
    let cs = o.choices@;
    let m = cs.len() as int;
    lemma_choices_len_is(o, a, input, t, m);
    assert(cs.subrange(0, m) =~= cs);
    let end = choice_address(cs, a + 7, m, t);
    let head = seq![o.opcode] + o.pre_header@ + seq![o.n_choices] + o.header@;
    assert(head =~= input.subrange(a, a + 7));
    assert(o.spec_bytes_mapped(t, unmoved()) == head + choices_bytes(cs, t, unmoved()));
    lemma_choices_reencode(o, a, input, t, m);
    lemma_concat_adjacent(input, a, a + 7, end);
}

/// The bytes of the first `k` choices of a menu read at `a` end where the next choice starts.
proof fn lemma_choices_len_is(o: ChoiceOpcode, a: int, input: Seq<u8>, t: Map<char, u16>, k: int)
    requires
        o.read_from(a, input, t),
        0 <= k <= o.choices@.len(),
        forall|j: int|
            0 <= j < o.choices@.len() ==> text_faithful(
                input,
                #[trigger] choice_address(o.choices@, a + 7, j, t) + 10,
                t,
            ),
    ensures
        choices_bytes(o.choices@.subrange(0, k), t, unmoved()).len() == choice_address(
            o.choices@,
            a + 7,
            k,
            t,
        ) - (a + 7),
    decreases k,
{
    if k > 0 {
        let cs = o.choices@;
        lemma_choices_len_is(o, a, input, t, k - 1);
        assert(cs.subrange(0, k).drop_last() =~= cs.subrange(0, k - 1));
        assert(cs.subrange(0, k).last() == cs[k - 1]);
    }
}

/// An opcode read from bytes, other than a tip, whose strings encode back to their bytes,
/// is written back to the bytes it was read from.
pub proof fn lemma_reencode(op: Opcode, k: OpKind, a: int, input: Seq<u8>, t: Map<char, u16>)
    requires
        decodes(op, k, a, input, t),
        k != OpKind::Tip,
        strings_faithful(op, a, input, t),
        0 <= a,
        a + spec_size(op, t) <= input.len(),
    ensures
        emit(op, t) == input.subrange(a, a + spec_size(op, t)),
{
    reveal(decodes);
    reveal(spec_size);
    match op {
        Opcode::Single(o) => lemma_reencode_single(o, a, input),
        Opcode::Basic2(o) => lemma_reencode_basic2(o, a, input),
        Opcode::Basic3(o) => lemma_reencode_basic3(o, a, input),
        Opcode::Basic4(o) => lemma_reencode_basic4(o, a, input),
        Opcode::Basic6(o) => lemma_reencode_basic6(o, a, input),
        Opcode::Basic8(o) => lemma_reencode_basic8(o, a, input),
        Opcode::Basic10(o) => lemma_reencode_basic10(o, a, input),
        Opcode::Basic12(o) => lemma_reencode_basic12(o, a, input),
        Opcode::Basic16(o) => lemma_reencode_basic16(o, a, input),
        Opcode::LongJump(o) => lemma_reencode_longjump(o, a, input),
        Opcode::Jump2(o) => lemma_reencode_jump2(o, a, input),
        Opcode::Jump4(o) => lemma_reencode_jump4(o, a, input),
        Opcode::DirectJump(o) => lemma_reencode_directjump(o, a, input),
        Opcode::Voice(o) => lemma_reencode_voice(o, a, input),
        Opcode::Switch(o) => lemma_reencode_switch(o, a, input),
        Opcode::Text(o) => lemma_reencode_text(o, a, input, t),
        Opcode::Text2(o) => lemma_reencode_text2(o, a, input, t),
        Opcode::Text47(o) => lemma_reencode_text47(o, a, input, t),
        Opcode::Text55(o) => lemma_reencode_text55(o, a, input, t),
        Opcode::Choice(o) => lemma_reencode_choice(o, a, input, t),
        _ => {},
    }
}

/// The bytes of the first `m` opcodes of a script just read are the bytes they were read
/// from.
#[verifier::spinoff_prover]
#[verifier::rlimit(100)]
proof fn lemma_top_reencode(ops: Seq<Opcode>, data: Seq<u8>, h: int, q: Quirks, t: Map<char, u16>, m: int)
    requires
        parsed_from(ops, data, h, q, t),
        0 <= h,
        0 <= m <= ops.len(),
        h + prefix_size(ops, ops.len() as int, t) <= data.len(),
        forall|i: int| 0 <= i < ops.len() ==> #[trigger] item_faithful(ops, i, data, t),
    ensures
        top_bytes(ops, m, t, unmoved()) == data.subrange(h, h + prefix_size(ops, m, t)),
    decreases m,
{
    if m == 0 {
        assert(data.subrange(h, h) =~= Seq::<u8>::empty());
    } else {
        let i = m - 1;
        lemma_top_reencode(ops, data, h, q, t, i);
        lemma_item_reencode(ops, data, h, q, t, i);
        lemma_prefix_mono(ops, 0, i, t);
        lemma_prefix_mono(ops, i, m, t);
        lemma_prefix_mono(ops, m, ops.len() as int, t);
        lemma_concat_adjacent(
            data,
            h,
            h + prefix_size(ops, i, t),
            h + prefix_size(ops, m, t),
        );
    }
}

/// Adjacent slices of a sequence make up the slice that spans both.
proof fn lemma_concat_adjacent(d: Seq<u8>, lo: int, mid: int, hi: int)
    requires
        0 <= lo <= mid <= hi <= d.len(),
    ensures
        d.subrange(lo, mid) + d.subrange(mid, hi) == d.subrange(lo, hi),
{
    assert(d.subrange(lo, mid) + d.subrange(mid, hi) =~= d.subrange(lo, hi));
}

/// The bytes written for the `i`-th opcode of a script just read are the bytes it was
/// read from.
#[verifier::spinoff_prover]
#[verifier::rlimit(100)]
proof fn lemma_item_reencode(ops: Seq<Opcode>, data: Seq<u8>, h: int, q: Quirks, t: Map<char, u16>, i: int)
    requires
        parsed_from(ops, data, h, q, t),
        0 <= h,
        0 <= i < ops.len(),
        h + prefix_size(ops, ops.len() as int, t) <= data.len(),
        item_faithful(ops, i, data, t),
    ensures
        top_item(ops, i, t, unmoved()) == data.subrange(
            h + prefix_size(ops, i, t),
            h + prefix_size(ops, i + 1, t),
        ),
{
    lemma_read_address(ops, data, h, q, t, i);
    lemma_prefix_mono(ops, i + 1, ops.len() as int, t);
    let a = spec_address(ops[i]) as int;
    let k = kind_of(data[a], q)->Some_0;
    lemma_decoded(without_skip(ops[i]), k, a, data, t);
    if ops[i] is Tip {
        assert(spec_size(ops[i], t) == 4) by {
            reveal(spec_size);
        }
        lemma_tip_reencode(ops, data, t, i, k, a);
    } else {
        assert(without_skip(ops[i]) == ops[i]);
        lemma_reencode(ops[i], k, a, data, t);
        lemma_item_is_emit(ops, i, t, unmoved());
    }
}

/// A tip read at `a` whose stored skip length is the one writing gives it is written back
/// to its own four bytes.
proof fn lemma_tip_reencode(ops: Seq<Opcode>, data: Seq<u8>, t: Map<char, u16>, i: int, k: OpKind, a: int)
    requires
        0 <= i < ops.len(),
        ops[i] is Tip,
        decodes(without_skip(ops[i]), k, a, data, t),
        item_faithful(ops, i, data, t),
        a == spec_address(ops[i]) as int,
        0 <= a,
        a + 4 <= data.len(),
    ensures
        top_item(ops, i, t, unmoved()) == data.subrange(a, a + 4),
{
    reveal(decodes);
    reveal(top_item);
    lemma_le16_of_read(data, a + 2);
    let c = ops[i]->Tip_0;
    assert(top_item(ops, i, t, unmoved()) =~= data.subrange(a, a + 4));
}

/// Writing a script just read gives back the bytes it was read from, where its opcodes end
/// within the input, each string in it ends in a NUL and encodes back to its own bytes, and
/// each tip holds the skip length that writing gives it.
#[verifier::spinoff_prover]
#[verifier::rlimit(100)]
pub proof fn law_round_trip(s: Script, data: Seq<u8>, h: int, q: Quirks, t: Map<char, u16>)
    requires
        parsed_from(s.opcodes@, data, h, q, t),
        0 <= h <= data.len(),
        s.header.bytes@ == data.subrange(0, h),
        parsed_end(s.opcodes@, h, t) <= data.len(),
        s.footer.bytes@ == data.subrange(parsed_end(s.opcodes@, h, t), data.len() as int),
        forall|i: int| 0 <= i < s.opcodes@.len() ==> #[trigger] item_faithful(s.opcodes@, i, data, t),
    ensures
        s.spec_bytes(t) == data,
{
    let ops = s.opcodes@;
    let n = ops.len() as int;
    law_read_layout_kept(ops, data, h, q, t);
    assert(relocation_fn(ops, t) =~= unmoved()) by {
        assert forall|x: u32| (#[trigger] (relocation_fn(ops, t))(x)) == (unmoved())(x) by {
            if olds_of(ops).contains(x) {
            } else {
                assert(!exists|i: int| #[trigger] is_first(olds_of(ops), x, i));
            }
        }
    }
    if n > 0 {
        lemma_read_address(ops, data, h, q, t, n - 1);
    }
    lemma_top_reencode(ops, data, h, q, t, n);
    let end = parsed_end(ops, h, t);
    assert(end == h + prefix_size(ops, n, t));
    lemma_prefix_mono(ops, 0, n, t);
    let mid = top_bytes(ops, n, t, relocation_fn(ops, t));
    assert(mid == data.subrange(h, end));
    lemma_concat_adjacent(data, 0, h, end);
    lemma_concat_adjacent(data, 0, end, data.len() as int);
    assert(data.subrange(0, data.len() as int) =~= data);
    assert(s.spec_bytes(t) == s.header.bytes@ + mid + s.footer.bytes@);
}

} // verus!
