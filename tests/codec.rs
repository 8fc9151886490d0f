use bimap::BiHashMap;
use yeti::archive::{entry_name, lz77_compress, lz77_decompress, parse_scenario, read_directory, recompile_scripts};
use yeti::bytes::{transmute_to_array, transmute_to_u16, transmute_to_u32};
use yeti::error::YetiError;
use yeti::opcodes::{
    BasicOpcode4, Custom77, DirectJumpOpcode, InsertOpcode, Opcode, SingleByteOpcode, SwitchArm,
    SwitchOpcode,
};
use yeti::quirks::{parse_quirks_arg, Quirks};
use yeti::reader::{opcode_kind, OpKind};
use yeti::script::{Footer, Header, Script};
use yeti::sjis::{encode_sjis, get_sjis_bytes, ItalicMap, SJISChar};
use yeti::opcodes::{Choice, ChoiceOpcode, String47Opcode, StringOpcode};
use yeti::tl::{parse_tl_doc_line, read_tl_doc, tl_reverse_transform_script, tl_transform_script};

fn no_italics() -> ItalicMap {
    BiHashMap::new()
}

fn script_of(header_len: u32, ops: Vec<Opcode>) -> Script {
    let mut h = header_len.to_le_bytes().to_vec();
    h.resize(header_len as usize, 0);
    Script { header: Header { bytes: h }, opcodes: ops, footer: Footer { bytes: vec![] } }
}

#[test]
fn little_endian_reads() {
    let b = [0x78u8, 0x56, 0x34, 0x12, 0xFF];
    assert_eq!(transmute_to_u32(0, &b), Ok(0x12345678));
    assert_eq!(transmute_to_u16(1, &b), Ok(0x3456));
    assert_eq!(transmute_to_array::<3>(2, &b), Ok([0x34, 0x12, 0xFF]));
    assert_eq!(transmute_to_u32(2, &b), Err(YetiError::ParseBounds { address: 2, len: 4 }));
    assert_eq!(transmute_to_u16(4, &b), Err(YetiError::ParseBounds { address: 4, len: 2 }));
}

#[test]
fn cstring_reader_stops_at_nul() {
    let b = [b'a', b'b', 0, b'c'];
    let (raw, text) = get_sjis_bytes(0, &b).unwrap();
    assert_eq!(raw, vec![b'a', b'b', 0]);
    assert_eq!(text, "ab");
    assert!(get_sjis_bytes(3, &b).is_err());
}

#[test]
fn shift_jis_of_ascii_and_japanese() {
    assert_eq!(encode_sjis("ab", &no_italics()), b"ab".to_vec());
    assert_eq!(encode_sjis("はい", &no_italics()), vec![0x82, 0xCD, 0x82, 0xA2]);
}

#[test]
fn italics_use_the_mapping() {
    let mut table: ItalicMap = BiHashMap::new();
    table.insert('a', 0x8260);
    table.insert('b', 0x00E1);
    // `*` toggles italics and writes nothing; mapped characters use their code point.
    assert_eq!(encode_sjis("*ab*a", &table), vec![0x82, 0x60, 0xE1, b'a']);
    // `\*` is a literal asterisk and does not toggle.
    assert_eq!(encode_sjis("\\*a", &table), vec![b'*', b'a']);
    // a character the mapping lacks keeps its plain encoding in italics.
    assert_eq!(encode_sjis("*c*", &table), vec![b'c']);
    // another backslash stays.
    assert_eq!(encode_sjis("\\a", &table), vec![b'\\', b'a']);
}

#[test]
fn text_survives_encoding_and_decoding() {
    for s in ["plain ASCII text.", "はい、そうです。", "mixed はい text"] {
        let bytes = encode_sjis(s, &no_italics());
        let (decoded, _, _) = encoding_rs::SHIFT_JIS.decode(&bytes);
        assert_eq!(decoded, s);
    }
}

#[test]
fn sjis_char_bytes() {
    assert_eq!(SJISChar::from_number(0x41), SJISChar::SingleByte(0x41));
    assert_eq!(SJISChar::from_number(0x8260), SJISChar::DoubleByte(0x8260));
    assert_eq!(SJISChar::from_number(0x8260).to_vec(), vec![0x82, 0x60]);
    assert_eq!(SJISChar::from_number(0x41).to_vec(), vec![0x41]);
}

#[test]
fn quirk_lists() {
    let q = parse_quirks_arg("xbox,sg2");
    assert!(q.xbox && q.sg2 && !q.ccfc && !q.sg);
    assert!(parse_quirks_arg("").ccfc);
    assert!(parse_quirks_arg("ccfc").ccfc);
    let q = parse_quirks_arg("ccfc,psp");
    assert!(q.psp && q.ccfc);
    let q = parse_quirks_arg("ccfc,xbox");
    assert!(q.xbox && q.ccfc);
    assert!(!parse_quirks_arg("psp").ccfc);
    assert!(parse_quirks_arg("library-party").library_party);
    assert!(parse_quirks_arg("lp").library_party);
    assert!(parse_quirks_arg("xbox-root2").xbox_root);
    assert!(!parse_quirks_arg("xbox-root2").xbox);
    assert!(parse_quirks_arg("phantom,sg").sg);
    assert_eq!(
        Quirks::names(),
        vec!["ccfc", "psp", "xbox", "xboxroot", "sg", "sg2", "phantom"]
    );
}

#[test]
fn overloaded_bytes_follow_the_quirks() {
    let sg = Quirks { sg: true, ..Quirks::empty() };
    let xbox = Quirks { xbox: true, ..Quirks::empty() };
    let psp = Quirks { psp: true, ..Quirks::empty() };
    let sg2 = Quirks { sg2: true, ..Quirks::empty() };
    let root = Quirks { xbox_root: true, ..Quirks::empty() };
    let phantom = Quirks { phantom: true, ..Quirks::empty() };
    let ccfc = Quirks::ccfc_only();
    assert_eq!(opcode_kind(0x0F, sg), Some(OpKind::Single));
    assert_eq!(opcode_kind(0x0F, xbox), Some(OpKind::Basic8));
    assert_eq!(opcode_kind(0x0F, ccfc), None);
    assert_eq!(opcode_kind(0x23, ccfc), Some(OpKind::Basic8));
    assert_eq!(opcode_kind(0x23, psp), Some(OpKind::Basic6));
    assert_eq!(opcode_kind(0x43, psp), Some(OpKind::Basic2));
    assert_eq!(opcode_kind(0x43, sg2), Some(OpKind::Basic4));
    assert_eq!(opcode_kind(0x47, ccfc), Some(OpKind::Text47));
    assert_eq!(opcode_kind(0x47, psp), Some(OpKind::Text2));
    assert_eq!(opcode_kind(0x56, phantom), Some(OpKind::Basic2));
    assert_eq!(opcode_kind(0x56, sg2), Some(OpKind::Basic4));
    assert_eq!(opcode_kind(0x7A, sg2), Some(OpKind::Basic6));
    assert_eq!(opcode_kind(0x7A, root), Some(OpKind::Basic10));
    assert_eq!(opcode_kind(0x7B, root), Some(OpKind::Text));
    assert_eq!(opcode_kind(0x7B, ccfc), Some(OpKind::Basic4));
    assert_eq!(opcode_kind(0x8C, phantom), Some(OpKind::Basic4));
    assert_eq!(opcode_kind(0x8C, ccfc), Some(OpKind::Basic12));
    assert_eq!(opcode_kind(0xAB, ccfc), None);
    // an empty set reads as CCFC alone
    let none = Quirks::empty();
    assert_eq!(opcode_kind(0x23, none), Some(OpKind::Basic8));
    assert_eq!(opcode_kind(0x43, none), Some(OpKind::Basic4));
    assert_eq!(opcode_kind(0x47, none), Some(OpKind::Text47));
}

#[test]
fn header_errors() {
    let it = no_italics();
    assert_eq!(
        Script::new(&[1, 0], Quirks::ccfc_only(), &it).err(),
        Some(YetiError::ParseBounds { address: 0, len: 4 })
    );
    assert_eq!(
        Script::new(&[0x10, 0, 0, 0], Quirks::ccfc_only(), &it).err(),
        Some(YetiError::ParseHeader { address: 0, header_size: 16 })
    );
}

#[test]
fn byte_that_needs_a_quirk() {
    let (s, e) = Script::new(&[4, 0, 0, 0, 0x0F, 0], Quirks::ccfc_only(), &no_italics()).unwrap();
    assert_eq!(e, Some(YetiError::QuirkRequired { opcode: 0x0F, address: 4 }));
    assert!(s.opcodes.is_empty());
    assert_eq!(s.footer.bytes, vec![0x0F, 0]);
    let (s, e) = Script::new(&[4, 0, 0, 0, 0x0F, 0x1B], Quirks { sg: true, ..Quirks::empty() }, &no_italics()).unwrap();
    assert!(e.is_none());
    assert_eq!(s.opcodes.len(), 2);
}

#[test]
fn tip_with_too_short_a_skip() {
    let (s, e) = Script::new(&[4, 0, 0, 0, 0x77, 0, 2, 0], Quirks::ccfc_only(), &no_italics()).unwrap();
    assert_eq!(e, Some(YetiError::TipUnderflow { address: 4 }));
    assert!(s.opcodes.is_empty());
}

#[test]
fn truncated_opcode_is_a_bounds_error() {
    let (s, e) = Script::new(&[4, 0, 0, 0, 0x10, 0, 0], Quirks::ccfc_only(), &no_italics()).unwrap();
    assert_eq!(e, Some(YetiError::ParseBounds { address: 4, len: 5 }));
    assert!(s.opcodes.is_empty());
}

#[test]
fn return_before_a_zero_ends_the_script() {
    let data = [4, 0, 0, 0, 0x1B, 0x05, 0x00, 0x1B, 0x1B];
    let (s, e) = Script::new(&data, Quirks::ccfc_only(), &no_italics()).unwrap();
    assert!(e.is_none());
    assert_eq!(s.opcodes.len(), 2);
    assert_eq!(s.footer.bytes, vec![0x00, 0x1B, 0x1B]);
    assert_eq!(s.binary_serialize(&no_italics()).unwrap(), data.to_vec());
}

#[test]
fn jump_to_nowhere_is_refused() {
    let s = script_of(8, vec![
        Opcode::DirectJump(DirectJumpOpcode { address: 8, actual_address: 8, opcode: 1, jump_address: 99 }),
        Opcode::Single(SingleByteOpcode { address: 13, actual_address: 13, opcode: 0x1B }),
    ]);
    assert_eq!(
        s.binary_serialize(&no_italics()),
        Err(YetiError::RelocTargetMissing { address: 8, target: 99 })
    );
}

#[test]
fn switch_with_a_repeated_index_is_refused() {
    let arms = vec![SwitchArm { index: 1, jump_address: 8 }, SwitchArm { index: 1, jump_address: 8 }];
    let s = script_of(8, vec![Opcode::Switch(SwitchOpcode {
        address: 8,
        actual_address: 8,
        opcode: 0x0E,
        comparison_value: 0,
        count: 2,
        arms,
    })]);
    assert_eq!(
        s.binary_serialize(&no_italics()),
        Err(YetiError::DuplicateSwitchIndex { address: 8, index: 1 })
    );
}

#[test]
fn tip_window_past_the_end_is_refused() {
    let s = script_of(8, vec![
        Opcode::Tip(Custom77 { address: 8, actual_address: 8, opcode: 0x77, condition: 0, skip: 3, skip_bytes: 0 }),
        Opcode::Single(SingleByteOpcode { address: 12, actual_address: 12, opcode: 0x1B }),
    ]);
    assert_eq!(s.binary_serialize(&no_italics()), Err(YetiError::TipWindow { address: 8 }));
}

#[test]
fn script_past_four_gigabytes_is_refused() {
    let s = script_of(4, vec![Opcode::Basic4(BasicOpcode4 {
        address: u32::MAX - 2,
        actual_address: 0,
        opcode: 0x10,
        arg1: 0,
        arg2: 0,
    })]);
    assert_eq!(s.binary_serialize(&no_italics()), Err(YetiError::TooLarge));
}

#[test]
fn inserted_tip_gets_its_window() {
    let contents = vec![
        Opcode::Tip(Custom77 { address: 100, actual_address: 100, opcode: 0x77, condition: 3, skip: 2, skip_bytes: 0 }),
        Opcode::Basic4(BasicOpcode4 { address: 101, actual_address: 101, opcode: 0x10, arg1: 0, arg2: 0 }),
        Opcode::Single(SingleByteOpcode { address: 102, actual_address: 102, opcode: 0x1B }),
        Opcode::Single(SingleByteOpcode { address: 103, actual_address: 103, opcode: 0x1C }),
    ];
    let ins = Opcode::Insert(InsertOpcode { contents });
    assert_eq!(ins.address(), 100);
    assert_eq!(ins.size(&no_italics()), 11);
    assert_eq!(
        ins.binary_serialize(&no_italics()),
        vec![0x77, 3, 10, 0, 0x10, 0, 0, 0, 0, 0x1B, 0x1C]
    );
    let s = script_of(8, vec![
        Opcode::DirectJump(DirectJumpOpcode { address: 8, actual_address: 8, opcode: 1, jump_address: 13 }),
        Opcode::Single(SingleByteOpcode { address: 13, actual_address: 13, opcode: 0x1B }),
    ]);
    let mut s = s;
    s.opcodes.insert(1, ins);
    let out = s.binary_serialize(&no_italics()).unwrap();
    assert_eq!(&out[8..13], &[1, 24, 0, 0, 0]);
    assert_eq!(out[24], 0x1B);
}

#[test]
fn set_actual_address_on_an_insert_sets_its_first_opcode() {
    let mut ins = Opcode::Insert(InsertOpcode {
        contents: vec![Opcode::Single(SingleByteOpcode { address: 5, actual_address: 5, opcode: 0x1B })],
    });
    ins.set_actual_address(42);
    assert_eq!(ins.actual_address(), 42);
    assert_eq!(ins.address(), 5);
    assert_eq!(Opcode::Insert(InsertOpcode { contents: vec![] }).address(), u32::MAX);
}

#[test]
fn lz_literal_container_round_trips() {
    let data: Vec<u8> = (0u8..20).collect();
    let packed = lz77_compress(&data);
    assert_eq!(&packed[0..4], &[20, 0, 0, 0]);
    assert_eq!(packed[4], 0xFF);
    assert_eq!(&packed[5..13], &data[0..8]);
    assert_eq!(packed[13], 0xFF);
    assert_eq!(packed[22], 0xFF);
    assert_eq!(packed.len(), 4 + 9 + 9 + 5);
    assert_eq!(lz77_decompress(&packed).unwrap(), data);
}

#[test]
fn lz_back_reference_repeats_bytes() {
    // flags 0b01 : one literal 'A', then a back-reference of 3 + 2 bytes to the 'A'.
    // offset 1, reach (1 - 18 - buf) & 0xFFF == 1 gives buf = 0xFEE: info = 0xF2EE.
    let packed = [6u8, 0, 0, 0, 0b0000_0001, b'A', 0xEE, 0xF2];
    assert_eq!(lz77_decompress(&packed).unwrap(), vec![b'A'; 6]);
    assert_eq!(lz77_decompress(&[6u8, 0, 0, 0, 0, 0xEE]), Err(YetiError::ParseBounds { address: 5, len: 2 }));
    assert_eq!(lz77_decompress(&[6u8, 0]), Err(YetiError::ParseBounds { address: 0, len: 4 }));
}

#[test]
fn archive_directory_and_scripts() {
    let scripts = vec![vec![4u8, 0, 0, 0, 0x05], vec![4u8, 0, 0, 0, 0x1B, 0x05]];
    let packed = recompile_scripts(&scripts).unwrap();
    assert_eq!(&packed[0..16], &[32, 0, 0, 0, 5, 0, 0, 0, 0, 0, 0, 0, 0, 0, 0, 0]);
    assert_eq!(&packed[16..32], &[37, 0, 0, 0, 6, 0, 0, 0, 0, 0, 0, 0, 0, 0, 0, 0]);
    assert_eq!(&packed[32..37], &scripts[0][..]);
    assert_eq!(&packed[37..43], &scripts[1][..]);
    let dir = read_directory(&packed).unwrap();
    assert_eq!(dir.len(), 2);
    assert_eq!(dir[1].offset, 37);
    assert_eq!(dir[1].size, 6);
    assert_eq!(dir[0].name, "0000.yaml");
    let parsed = parse_scenario(&packed, Quirks::ccfc_only(), &no_italics()).unwrap();
    assert_eq!(parsed.len(), 2);
    let (_, second) = &parsed[1];
    let (script, err) = second.as_ref().unwrap();
    assert!(err.is_none());
    assert_eq!(script.opcodes.len(), 2);
    assert_eq!(entry_name(45), "0045.yaml");
    assert_eq!(entry_name(12345), "12345.yaml");
}

#[test]
fn insert_inside_an_insert_is_written_whole() {
    let inner = Opcode::Insert(InsertOpcode {
        contents: vec![
            Opcode::Single(SingleByteOpcode { address: 9, actual_address: 9, opcode: 0x1B }),
            Opcode::Basic4(BasicOpcode4 { address: 10, actual_address: 10, opcode: 0x10, arg1: 1, arg2: 2 }),
        ],
    });
    let tip = Opcode::Tip(Custom77 { address: 8, actual_address: 8, opcode: 0x77, condition: 3, skip: 1, skip_bytes: 0 });
    let outer = Opcode::Insert(InsertOpcode { contents: vec![tip, inner] });
    assert_eq!(outer.size(&no_italics()), 10);
    assert_eq!(outer.address(), 8);
    // the tip's window covers the inner insert whole: 4 + 6.
    assert_eq!(
        outer.binary_serialize(&no_italics()),
        vec![0x77, 3, 10, 0, 0x1B, 0x10, 1, 0, 2, 0]
    );
    let s = script_of(8, vec![outer]);
    let out = s.binary_serialize(&no_italics()).unwrap();
    assert_eq!(&out[8..], &[0x77, 3, 10, 0, 0x1B, 0x10, 1, 0, 2, 0]);
}

#[test]
fn cstring_reader_decodes_shift_jis() {
    let b = [0x82u8, 0xCD, 0x82, 0xA2, 0x00];
    let (raw, text) = get_sjis_bytes(0, &b).unwrap();
    assert_eq!(raw, b.to_vec());
    assert_eq!(text, "はい");
}

#[test]
fn opcode_written_past_the_end_is_a_bounds_error() {
    // 0xFF is no Shift-JIS byte: it reads as U+FFFD, which writes as the eight bytes
    // `&#65533;`, so the opcode would take 12 bytes where 5 remain.
    let data = [4u8, 0, 0, 0, 0x90, 0xAA, 0xBB, 0xFF, 0x00];
    let (s, e) = Script::new(&data, Quirks::ccfc_only(), &no_italics()).unwrap();
    assert_eq!(e, Some(YetiError::ParseBounds { address: 4, len: 12 }));
    assert!(s.opcodes.is_empty());
    assert_eq!(s.footer.bytes, data[4..].to_vec());
}

#[test]
fn markup_of_the_editable_form_is_undone() {
    assert_eq!(encode_sjis("a<dquote/>b", &no_italics()), b"a\"b".to_vec());
    assert_eq!(encode_sjis("<bslash/>x", &no_italics()), b"\\x".to_vec());
    // the backslash that <bslash/> stands for escapes a following asterisk
    let mut table: ItalicMap = BiHashMap::new();
    table.insert('a', 0x8260);
    assert_eq!(encode_sjis("<bslash/>*a", &table), b"*a".to_vec());
}

#[test]
fn translator_document_of_a_script() {
    let speaker = Opcode::Text47(String47Opcode {
        address: 0x10, actual_address: 0x10, opcode: 0x47, arg1: 0x0D, opt_arg2: None,
        unicode: "太一".to_string(), notes: None, translation: Some("Taichi".to_string()),
    });
    let text = Opcode::Text(StringOpcode {
        address: 0x20, actual_address: 0x20, opcode: 0x45, header: [0; 4],
        unicode: "はい".to_string(), notes: Some("n".to_string()), translation: None,
    });
    let choice = Opcode::Choice(ChoiceOpcode {
        address: 0x2A, actual_address: 0x2A, opcode: 0x31, pre_header: [0; 2], n_choices: 1, header: [0; 3],
        choices: vec![Choice { address: 0x31, header: [0; 6], jump_address: 0, unicode: "a".to_string(), notes: None, translation: Some("A".to_string()) }],
    });
    let s = script_of(8, vec![speaker, text, choice]);
    let doc = tl_transform_script(&s);
    let expected = [
        "[speaker @ 0x00000010]: Taichi (太一)",
        "[original text @ 0x00000020]: はい",
        "[translation]: ",
        "[notes]: n",
        "---===---",
        "\n",
        "[choices @ 0x0000002A]",
        "[choice original text]: a",
        "[choice translation]: A",
        "[choice notes]: ",
        "---~~~---",
        "---===---",
        "\n",
    ]
    .join("\n");
    assert_eq!(doc, expected);
    assert_eq!(parse_tl_doc_line("[speaker @ 0x00000010]: Taichi (太一)", 13, true), Some((0x10, "Taichi".to_string())));
    assert_eq!(parse_tl_doc_line("[original text @ 0x0000002a]: はい", 19, false), Some((0x2A, " はい".to_string())));
    assert_eq!(parse_tl_doc_line("[choices @ 0x0000002A]", 13, false), Some((0x2A, String::new())));
    assert_eq!(parse_tl_doc_line("[choices @ 0xZZ]", 13, false), None);
    assert_eq!(parse_tl_doc_line("[choices @ 0x12", 13, false), None);
}

#[test]
fn translator_document_is_read_back() {
    let speaker = Opcode::Text47(String47Opcode {
        address: 0x10, actual_address: 0x10, opcode: 0x47, arg1: 0x0D, opt_arg2: None,
        unicode: "太一".to_string(), notes: None, translation: None,
    });
    let text = Opcode::Text(StringOpcode {
        address: 0x20, actual_address: 0x20, opcode: 0x45, header: [0; 4],
        unicode: "はい".to_string(), notes: Some("old".to_string()), translation: None,
    });
    let choice = Opcode::Choice(ChoiceOpcode {
        address: 0x2A, actual_address: 0x2A, opcode: 0x31, pre_header: [0; 2], n_choices: 2, header: [0; 3],
        choices: vec![
            Choice { address: 0x31, header: [0; 6], jump_address: 0, unicode: "a".to_string(), notes: None, translation: None },
            Choice { address: 0x3D, header: [0; 6], jump_address: 0, unicode: "b".to_string(), notes: None, translation: Some("B".to_string()) },
        ],
    });
    let mut s = script_of(8, vec![speaker, text, choice]);
    let doc = "[speaker @ 0x00000010]: Taichi (太一)\r\n[original text @ 0x00000020]: はい\n[translation]: Yes\nand more\n[notes]:   \n---===---\n\n[choices @ 0x0000002A]\n[choice original text]: a\n[choice translation]: A\n[choice notes]: n\n---~~~---\n---===---\n";
    assert_eq!(read_tl_doc(doc).unwrap().len(), 2);
    assert!(tl_reverse_transform_script(&mut s, doc));
    match &s.opcodes[0] {
        Opcode::Text47(o) => assert_eq!(o.translation.as_deref(), Some("Taichi")),
        _ => panic!(),
    }
    match &s.opcodes[1] {
        Opcode::Text(o) => {
            assert_eq!(o.translation.as_deref(), Some("Yes\nand more"));
            assert_eq!(o.notes, None);
        }
        _ => panic!(),
    }
    match &s.opcodes[2] {
        Opcode::Choice(o) => {
            assert_eq!(o.choices[0].translation.as_deref(), Some("A"));
            assert_eq!(o.choices[0].notes.as_deref(), Some("n"));
            assert_eq!(o.choices[1].translation.as_deref(), Some("B"));
        }
        _ => panic!(),
    }
    assert!(!tl_reverse_transform_script(&mut s, "[choices @ 0xZZ]\n"));
    assert!(read_tl_doc("[choice notes]: x").is_none());
}

#[test]
fn reading_errors_are_exact() {
    // a text opcode whose string has no NUL before the end
    let data = [4u8, 0, 0, 0, 0x45, 1, 2, 3, 4, b'a'];
    let (_, e) = Script::new(&data, Quirks::ccfc_only(), &no_italics()).unwrap();
    assert_eq!(e, Some(YetiError::ParseBounds { address: 9, len: 10 }));
    // 0x43 is a five-byte opcode under CCFC and under no quirk alike
    let data = [4u8, 0, 0, 0, 0x43, 0, 0];
    let a = Opcode::eat(4, &data, Quirks::empty(), &no_italics());
    let b = Opcode::eat(4, &data, Quirks::ccfc_only(), &no_italics());
    assert_eq!(a, Err(YetiError::ParseBounds { address: 4, len: 5 }));
    assert_eq!(a, b);
    // a choice menu whose second choice head runs past the end
    let data = [0x31u8, 0, 0, 2, 0, 0, 0, 1, 2, 3, 4, 5, 6, 0, 0, 0, 0, b'a', 0, 9];
    assert_eq!(
        Opcode::eat(0, &data, Quirks::ccfc_only(), &no_italics()),
        Err(YetiError::ParseBounds { address: 19, len: 10 })
    );
}
