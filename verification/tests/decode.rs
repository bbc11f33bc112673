use opdecode::arch::{Arch, Group, InstructionArgument, Register, invert_mapping};
use opdecode::decoder::{DecodeError, decode, extract_argument};
use opdecode::emulator::Emulator;

fn empty_group_fields() -> (
    Vec<(String, InstructionArgument)>,
    Vec<(u64, String)>,
    Vec<(u64, String)>,
) {
    (Vec::new(), Vec::new(), Vec::new())
}

fn chained_arch() -> Arch {
    // main: 8 bits, mask 0xF0, selector 0xA0 -> subgroup "ext"
    // ext:  8 bits, mask 0xFF, selector 0xA0 -> instruction "NOP"
    let main = Group {
        size: 8,
        mask: 0xF0,
        arguments: Vec::new(),
        subgroups: vec![(0xA0u64, "ext".to_string())],
        instructions: Vec::new(),
    };
    let ext = Group {
        size: 8,
        mask: 0xFF,
        arguments: Vec::new(),
        subgroups: Vec::new(),
        instructions: vec![(0xA0u64, "NOP".to_string())],
    };
    Arch {
        groups: vec![("main".to_string(), main), ("ext".to_string(), ext)],
        registers: Vec::new(),
    }
}

fn wide_arch() -> Arch {
    // One 16-bit group with an argument window over the low 12 bits.
    let main = Group {
        size: 16,
        mask: 0xF000,
        arguments: vec![("addr".to_string(), InstructionArgument { size: 12, offset: 0 })],
        subgroups: Vec::new(),
        instructions: vec![(0xA000u64, "LDI".to_string())],
    };
    Arch {
        groups: vec![("main".to_string(), main)],
        registers: Vec::new(),
    }
}

#[test]
fn extraction_formula_low_byte() {
    // offset 0, size 8, word 0xA0 -> 0xA0
    let v = extract_argument(0xA0, InstructionArgument { size: 8, offset: 0 });
    assert_eq!(v, 0xA0);
}

#[test]
fn extraction_formula_middle_window() {
    // (0xABCD >> 4) & 0xFF == 0xBC
    let v = extract_argument(0xABCD, InstructionArgument { size: 8, offset: 4 });
    assert_eq!(v, 0xBC);
}

#[test]
fn extraction_full_word() {
    let v = extract_argument(0x1234_5678_9ABC_DEF0, InstructionArgument { size: 64, offset: 0 });
    assert_eq!(v, 0x1234_5678_9ABC_DEF0);
}

#[test]
fn extraction_zero_size() {
    let v = extract_argument(0xFFFF, InstructionArgument { size: 0, offset: 3 });
    assert_eq!(v, 0);
}

#[test]
fn chained_resolution_consumes_terminal_width() {
    let arch = chained_arch();
    assert!(arch.validate());
    let memory = vec![0xA0u8, 0x00u8];
    let r = decode(&arch, &memory, 0, "main");
    let d = r.expect("chained decode should succeed");
    assert_eq!(d.name, "NOP");
    assert_eq!(d.consumed_bits, 8);
    assert!(d.arguments.is_empty());
}

#[test]
fn decode_is_idempotent() {
    let arch = chained_arch();
    let memory = vec![0xA0u8, 0x00u8];
    let r1 = decode(&arch, &memory, 0, "main");
    let r2 = decode(&arch, &memory, 0, "main");
    let d1 = r1.expect("first decode");
    let d2 = r2.expect("second decode");
    assert_eq!(d1.name, d2.name);
    assert_eq!(d1.consumed_bits, d2.consumed_bits);
    assert_eq!(d1.arguments, d2.arguments);
}

#[test]
fn decode_big_endian_word_and_arguments() {
    let arch = wide_arch();
    assert!(arch.validate());
    let memory = vec![0xA2u8, 0x34u8];
    let d = decode(&arch, &memory, 0, "main").expect("decode should succeed");
    assert_eq!(d.name, "LDI");
    assert_eq!(d.consumed_bits, 16);
    assert_eq!(d.arguments.len(), 1);
    assert_eq!(d.arguments[0].0, "addr");
    assert_eq!(d.arguments[0].1, 0x234);
}

#[test]
fn undefined_opcode_is_reported() {
    let arch = chained_arch();
    // 0x50 & 0xF0 == 0x50: absent from both mappings of "main".
    let memory = vec![0x50u8];
    let e = decode(&arch, &memory, 0, "main").expect_err("selector is unmapped");
    match e {
        DecodeError::UndefinedOpcode { group, selector } => {
            assert_eq!(group, "main");
            assert_eq!(selector, 0x50);
        }
        other => panic!("expected UndefinedOpcode, got {:?}", other),
    }
}

#[test]
fn undefined_opcode_in_subgroup_names_it() {
    let arch = chained_arch();
    // main maps 0xA0 to "ext", but 0xA1 & 0xFF == 0xA1 is unmapped in "ext".
    let memory = vec![0xA1u8];
    let e = decode(&arch, &memory, 0, "main").expect_err("subgroup selector is unmapped");
    match e {
        DecodeError::UndefinedOpcode { group, selector } => {
            assert_eq!(group, "ext");
            assert_eq!(selector, 0xA1);
        }
        other => panic!("expected UndefinedOpcode, got {:?}", other),
    }
}

#[test]
fn truncated_stream_is_memory_exhausted() {
    let arch = wide_arch();
    // The group needs 2 bytes; only 1 remains.
    let memory = vec![0xA2u8];
    let e = decode(&arch, &memory, 0, "main").expect_err("buffer is too short");
    assert!(matches!(e, DecodeError::MemoryExhausted));
}

#[test]
fn cursor_at_end_is_memory_exhausted() {
    let arch = chained_arch();
    let memory = vec![0xA0u8, 0xA0u8];
    let e = decode(&arch, &memory, 2, "main").expect_err("cursor is at the end");
    assert!(matches!(e, DecodeError::MemoryExhausted));
}

#[test]
fn unknown_group_is_reported() {
    let arch = chained_arch();
    let memory = vec![0xA0u8];
    let e = decode(&arch, &memory, 0, "missing").expect_err("group does not exist");
    match e {
        DecodeError::UnknownGroup { group } => assert_eq!(group, "missing"),
        other => panic!("expected UnknownGroup, got {:?}", other),
    }
}

#[test]
fn subgroup_cycle_is_cut_off() {
    // main maps its own selector back to main: an unbounded chain.
    let main = Group {
        size: 8,
        mask: 0xF0,
        arguments: Vec::new(),
        subgroups: vec![(0xA0u64, "main".to_string())],
        instructions: Vec::new(),
    };
    let arch = Arch {
        groups: vec![("main".to_string(), main)],
        registers: Vec::new(),
    };
    let memory = vec![0xA0u8];
    let e = decode(&arch, &memory, 0, "main").expect_err("cycle must be cut off");
    assert!(matches!(e, DecodeError::RecursionLimitExceeded));
}

#[test]
fn validate_accepts_well_formed_description() {
    assert!(chained_arch().validate());
    assert!(wide_arch().validate());
}

#[test]
fn validate_rejects_overlapping_selector_sets() {
    // 0xA0 resolves to both an instruction and a subgroup.
    let main = Group {
        size: 8,
        mask: 0xF0,
        arguments: Vec::new(),
        subgroups: vec![(0xA0u64, "main".to_string())],
        instructions: vec![(0xA0u64, "NOP".to_string())],
    };
    let arch = Arch {
        groups: vec![("main".to_string(), main)],
        registers: Vec::new(),
    };
    assert!(!arch.validate());
}

#[test]
fn validate_rejects_unaligned_width() {
    let (arguments, subgroups, instructions) = empty_group_fields();
    let main = Group { size: 12, mask: 0, arguments, subgroups, instructions };
    let arch = Arch {
        groups: vec![("main".to_string(), main)],
        registers: Vec::new(),
    };
    assert!(!arch.validate());
}

#[test]
fn validate_rejects_mask_above_width() {
    let (arguments, subgroups, instructions) = empty_group_fields();
    let main = Group { size: 8, mask: 0xF00, arguments, subgroups, instructions };
    let arch = Arch {
        groups: vec![("main".to_string(), main)],
        registers: Vec::new(),
    };
    assert!(!arch.validate());
}

#[test]
fn validate_rejects_dangling_subgroup() {
    let main = Group {
        size: 8,
        mask: 0xF0,
        arguments: Vec::new(),
        subgroups: vec![(0xA0u64, "nowhere".to_string())],
        instructions: Vec::new(),
    };
    let arch = Arch {
        groups: vec![("main".to_string(), main)],
        registers: Vec::new(),
    };
    assert!(!arch.validate());
}

#[test]
fn validate_rejects_missing_entry_group() {
    let (arguments, subgroups, instructions) = empty_group_fields();
    let g = Group { size: 8, mask: 0xF0, arguments, subgroups, instructions };
    let arch = Arch {
        groups: vec![("start".to_string(), g)],
        registers: Vec::new(),
    };
    assert!(!arch.validate());
}

#[test]
fn validate_rejects_argument_window_outside_word() {
    let main = Group {
        size: 8,
        mask: 0xF0,
        arguments: vec![("x".to_string(), InstructionArgument { size: 8, offset: 4 })],
        subgroups: Vec::new(),
        instructions: vec![(0xA0u64, "NOP".to_string())],
    };
    let arch = Arch {
        groups: vec![("main".to_string(), main)],
        registers: Vec::new(),
    };
    assert!(!arch.validate());
}

#[test]
fn validate_rejects_duplicate_group_names() {
    let (a1, s1, i1) = empty_group_fields();
    let (a2, s2, i2) = empty_group_fields();
    let g1 = Group { size: 8, mask: 0, arguments: a1, subgroups: s1, instructions: i1 };
    let g2 = Group { size: 16, mask: 0, arguments: a2, subgroups: s2, instructions: i2 };
    let arch = Arch {
        groups: vec![("main".to_string(), g1), ("main".to_string(), g2)],
        registers: Vec::new(),
    };
    assert!(!arch.validate());
}

#[test]
fn invert_mapping_swaps_pairs() {
    let pairs = vec![("NOP".to_string(), 0xA0u64), ("RET".to_string(), 0xC9u64)];
    let inv = invert_mapping(&pairs).expect("values are distinct");
    assert_eq!(inv.len(), 2);
    assert_eq!(inv[0], (0xA0u64, "NOP".to_string()));
    assert_eq!(inv[1], (0xC9u64, "RET".to_string()));
}

#[test]
fn invert_mapping_rejects_duplicate_values() {
    let pairs = vec![("NOP".to_string(), 0xA0u64), ("RET".to_string(), 0xA0u64)];
    assert!(invert_mapping(&pairs).is_none());
}

#[test]
fn register_read_widens() {
    assert_eq!(Register::R8(0xAB).read(), 0xAB);
    assert_eq!(Register::R16(0xABCD).read(), 0xABCD);
    assert_eq!(Register::R32(0xDEAD_BEEF).read(), 0xDEAD_BEEF);
    assert_eq!(Register::R64(0x0123_4567_89AB_CDEF).read(), 0x0123_4567_89AB_CDEF);
}

#[test]
fn register_write_truncates() {
    let mut r = Register::R8(0);
    r.write(0x1234);
    assert_eq!(r.read(), 0x34);
    let mut r = Register::R16(0);
    r.write(0xAB_CDEF);
    assert_eq!(r.read(), 0xCDEF);
    let mut r = Register::R32(0);
    r.write(0x11_2233_4455);
    assert_eq!(r.read(), 0x2233_4455);
    let mut r = Register::R64(7);
    r.write(u64::MAX);
    assert_eq!(r.read(), u64::MAX);
}

#[test]
fn emulator_starts_at_zero() {
    let emu = Emulator::new(chained_arch(), vec![0xA0u8, 0x00u8]);
    assert_eq!(emu.pc, 0);
}

#[test]
fn parse_group_advances_pc_on_success() {
    let mut emu = Emulator::new(chained_arch(), vec![0xA0u8, 0xA0u8]);
    let d = emu.parse_group("main").expect("first fetch");
    assert_eq!(d.name, "NOP");
    assert_eq!(emu.pc, 1);
    let d = emu.parse_group("main").expect("second fetch");
    assert_eq!(d.name, "NOP");
    assert_eq!(emu.pc, 2);
}

#[test]
fn parse_group_keeps_pc_on_failure() {
    let mut emu = Emulator::new(chained_arch(), vec![0x50u8]);
    let e = emu.parse_group("main").expect_err("unmapped selector");
    assert!(matches!(e, DecodeError::UndefinedOpcode { .. }));
    assert_eq!(emu.pc, 0);
}

#[test]
fn emulate_fetches_from_main() {
    let mut emu = Emulator::new(wide_arch(), vec![0xA2u8, 0x34u8, 0xA0u8]);
    let d = emu.emulate().expect("fetch from main");
    assert_eq!(d.name, "LDI");
    assert_eq!(d.arguments[0].1, 0x234);
    assert_eq!(emu.pc, 2);
}
