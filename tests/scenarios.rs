use bimap::BiHashMap;
use yeti::error::YetiError;
use yeti::opcodes::{
    BasicOpcode2, BasicOpcode4, DirectJumpOpcode, Opcode, SingleByteOpcode, StringOpcode2,
};
use yeti::quirks::Quirks;
use yeti::script::{Footer, Header, Script};
use yeti::sjis::ItalicMap;

fn no_italics() -> ItalicMap {
    BiHashMap::new()
}

fn parse(data: &[u8]) -> (Script, Option<YetiError>) {
    Script::new(data, Quirks::ccfc_only(), &no_italics()).unwrap()
}

#[test]
fn single_return_round_trips() {
    let data = [0x04u8, 0x00, 0x00, 0x00, 0x05];
    let (script, err) = parse(&data);
    assert!(err.is_none());
    assert_eq!(script.header.bytes, vec![0x04, 0x00, 0x00, 0x00]);
    assert_eq!(script.opcodes.len(), 1);
    assert_eq!(script.opcodes[0].address(), 4);
    assert_eq!(script.opcodes[0].opcode(), 0x05);
    assert!(script.footer.bytes.is_empty());
    assert_eq!(script.binary_serialize(&no_italics()).unwrap(), data.to_vec());
}

#[test]
fn hand_built_single_byte_script_emits_five_bytes() {
    let script = Script {
        header: Header { bytes: vec![0x08, 0x00, 0x00, 0x00] },
        opcodes: vec![Opcode::Single(SingleByteOpcode { address: 4, actual_address: 4, opcode: 0x05 })],
        footer: Footer { bytes: vec![] },
    };
    assert_eq!(
        script.binary_serialize(&no_italics()).unwrap(),
        vec![0x08, 0x00, 0x00, 0x00, 0x05]
    );
}

#[test]
fn direct_jump_follows_its_target_when_it_moves() {
    let italics = no_italics();
    let header = vec![0x08, 0, 0, 0, 0, 0, 0, 0];
    let jump = Opcode::DirectJump(DirectJumpOpcode { address: 8, actual_address: 8, opcode: 0x01, jump_address: 16 });
    let filler = Opcode::Basic2(BasicOpcode2 { address: 13, actual_address: 13, opcode: 0x2C, arg1: 0x1234 });
    let target = Opcode::Basic4(BasicOpcode4 { address: 16, actual_address: 16, opcode: 0x10, arg1: 1, arg2: 2 });
    let script = Script { header: Header { bytes: header.clone() }, opcodes: vec![jump, filler, target], footer: Footer { bytes: vec![] } };
    let out = script.binary_serialize(&italics).unwrap();
    assert_eq!(&out[8..13], &[0x01, 16, 0, 0, 0]);

    // The three-byte filler becomes a five-byte text opcode: the target moves by 2.
    let text = Opcode::Text2(StringOpcode2 {
        address: 13,
        actual_address: 13,
        opcode: 0x47,
        header: [0xAA, 0xBB],
        unicode: "x".to_string(),
        notes: None,
        translation: None,
    });
    let jump = Opcode::DirectJump(DirectJumpOpcode { address: 8, actual_address: 8, opcode: 0x01, jump_address: 16 });
    let target = Opcode::Basic4(BasicOpcode4 { address: 16, actual_address: 16, opcode: 0x10, arg1: 1, arg2: 2 });
    let script = Script { header: Header { bytes: header }, opcodes: vec![jump, text, target], footer: Footer { bytes: vec![] } };
    let out = script.binary_serialize(&italics).unwrap();
    assert_eq!(&out[8..13], &[0x01, 18, 0, 0, 0]);
    assert_eq!(&out[13..18], &[0x47, 0xAA, 0xBB, b'x', 0x00]);
    assert_eq!(&out[18..23], &[0x10, 1, 0, 2, 0]);
}

/// Bytes of a script whose header is 8 bytes long, followed by `body`.
fn with_header(body: &[u8]) -> Vec<u8> {
    let mut v = vec![0x08, 0, 0, 0, 0, 0, 0, 0];
    v.extend_from_slice(body);
    v
}

#[test]
fn choice_translation_moves_targets() {
    // choice menu at 8: 7 bytes of head, then two choices of 12 bytes each: ends at 0x27.
    let mut body = vec![0x31, 0xA0, 0xA1, 0x02, 0xB0, 0xB1, 0xB2];
    body.extend_from_slice(&[1, 2, 3, 4, 5, 6, 0x30, 0, 0, 0, b'a', 0]);
    body.extend_from_slice(&[7, 8, 9, 10, 11, 12, 0x40, 0, 0, 0, b'b', 0]);
    // 0x27: a nine-byte opcode, so that 0x30 starts an opcode.
    body.extend_from_slice(&[0x19, 0, 0, 0, 0, 0, 0, 0, 0]);
    // 0x30: a one-byte opcode, then thirteen bytes and two more single bytes up to 0x40.
    body.extend_from_slice(&[0x1B]);
    body.extend_from_slice(&[0x1F, 0, 0, 0, 0, 0, 0, 0, 0, 0, 0, 0, 0]);
    body.extend_from_slice(&[0x1B, 0x1B]);
    // 0x40
    body.extend_from_slice(&[0x1C]);
    let data = with_header(&body);
    let (mut script, err) = parse(&data);
    assert!(err.is_none());
    let addrs: Vec<u32> = script.opcodes.iter().map(|o| o.address()).collect();
    assert_eq!(addrs, vec![0x08, 0x27, 0x30, 0x31, 0x3E, 0x3F, 0x40]);
    assert_eq!(script.binary_serialize(&no_italics()).unwrap(), data);

    if let Opcode::Choice(c) = &mut script.opcodes[0] {
        c.choices[0].translation = Some("はい".to_string());
    } else {
        panic!("not a choice");
    }
    let out = script.binary_serialize(&no_italics()).unwrap();
    // the first choice: header, target, then the Shift-JIS of the translation and a NUL.
    assert_eq!(&out[15..21], &[1, 2, 3, 4, 5, 6]);
    assert_eq!(&out[21..25], &[0x33, 0, 0, 0]);
    assert_eq!(&out[25..30], &[0x82, 0xCD, 0x82, 0xA2, 0x00]);
    // the second choice: its target moved by 3 too.
    assert_eq!(&out[36..40], &[0x43, 0, 0, 0]);
    assert_eq!(out[0x33], 0x1B);
    assert_eq!(out[0x43], 0x1C);
}

#[test]
fn switch_arms_keep_their_order() {
    // switch at 8 with three arms: 5 + 18 = 23 bytes, ends at 0x1F.
    let mut body = vec![0x0E, 0x07, 0x00, 0x03, 0x00];
    body.extend_from_slice(&[1, 0, 0x50, 0, 0, 0]);
    body.extend_from_slice(&[5, 0, 0x60, 0, 0, 0]);
    body.extend_from_slice(&[2, 0, 0x70, 0, 0, 0]);
    // 0x1F .. 0x50: 49 bytes of filler: one 17-byte opcode twice, then 15 single bytes.
    for _ in 0..2 {
        body.extend_from_slice(&[0x6C, 0, 0, 0, 0, 0, 0, 0, 0, 0, 0, 0, 0, 0, 0, 0, 0]);
    }
    for _ in 0..15 {
        body.push(0x1B);
    }
    // 0x50, 0x60, 0x70: a single byte, then 15 more single bytes before the next.
    for _ in 0..3 {
        body.push(0x1C);
        for _ in 0..15 {
            body.push(0x1B);
        }
    }
    let data = with_header(&body);
    let (script, err) = parse(&data);
    assert!(err.is_none());
    assert_eq!(script.binary_serialize(&no_italics()).unwrap(), data);
    if let Opcode::Switch(s) = &script.opcodes[0] {
        let idx: Vec<u16> = s.arms.iter().map(|a| a.index).collect();
        assert_eq!(idx, vec![1, 5, 2]);
    } else {
        panic!("not a switch");
    }
}

#[test]
fn switch_targets_follow_a_grown_opcode() {
    let mut body = vec![0x0E, 0x07, 0x00, 0x02, 0x00];
    body.extend_from_slice(&[1, 0, 0x19, 0, 0, 0]);
    body.extend_from_slice(&[5, 0, 0x1A, 0, 0, 0]);
    // 0x19: one byte, 0x1A: one byte
    body.extend_from_slice(&[0x1C, 0x1B]);
    let data = with_header(&body);
    let (mut script, err) = parse(&data);
    assert!(err.is_none());
    // put two bytes in front of the targets
    script.opcodes.insert(
        1,
        Opcode::Basic2(BasicOpcode2 { address: 0x18, actual_address: 0x18, opcode: 0x2C, arg1: 0 }),
    );
    let out = script.binary_serialize(&no_italics()).unwrap();
    assert_eq!(&out[13..19], &[1, 0, 0x1C, 0, 0, 0]);
    assert_eq!(&out[19..25], &[5, 0, 0x1D, 0, 0, 0]);
    assert_eq!(out[0x1C], 0x1C);
    assert_eq!(out[0x1D], 0x1B);
}

#[test]
fn tip_counts_and_patches_its_window() {
    let mut body = vec![0x77, 0x01, 0x0C, 0x00];
    for k in 0..3u8 {
        body.extend_from_slice(&[0x10, k, 0, 0, 0]);
    }
    let data = with_header(&body);
    let (script, err) = parse(&data);
    assert!(err.is_none());
    match &script.opcodes[0] {
        Opcode::Tip(t) => {
            assert_eq!(t.skip, 2);
            assert_eq!(t.skip_bytes, 0x0C);
        }
        _ => panic!("not a tip"),
    }
    let out = script.binary_serialize(&no_italics()).unwrap();
    assert_eq!(&out[8..12], &[0x77, 0x01, 0x0E, 0x00]);
}

#[test]
fn unknown_opcode_stops_reading() {
    let mut body = vec![0x10, 0, 0, 0, 0];
    body.extend_from_slice(&[0xAB, 0, 0]);
    let mut data = vec![0x07, 0, 0, 0, 0, 0, 0];
    data.extend_from_slice(&body);
    let (script, err) = parse(&data);
    assert_eq!(err, Some(YetiError::ParseOpcode { opcode: 0xAB, address: 12 }));
    assert_eq!(script.opcodes.len(), 1);
    assert_eq!(script.footer.bytes, vec![0xAB, 0, 0]);
}
