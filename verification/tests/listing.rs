use rust_dis::listing::{disassemble_ranges, handle_code_section};
use rust_dis::ranges::{find_funcs, FunctionRange};

fn words(ws: &[u16]) -> Vec<u8> {
    let mut out = Vec::new();
    for w in ws {
        out.push((w >> 8) as u8);
        out.push((w & 0xff) as u8);
    }
    out
}

fn trimmed(expected: &str) -> String {
    expected
        .lines()
        .map(|line| line.trim())
        .collect::<Vec<_>>()
        .join("\n")
}

// mov.l r8,@-r15 / mov r0,r1 / rts / nop, twice, the second time with a
// branch over a delay slot
fn branch_code() -> Vec<u8> {
    words(&[
        0x2f86, 0x6103, 0x000b, 0x0009, 0x2f86, 0x6103, 0xa000, 0x0009, 0x6013, 0x000b, 0x0009,
    ])
}

// the second function loads a long and a word from behind its end
fn load_code() -> Vec<u8> {
    words(&[
        0x2f86, 0x6103, 0x000b, 0x0009, 0x2f86, 0xd002, 0x9104, 0x000b, 0x0009, 0x0009, 0xdead,
        0xbeef, 0xface, 0x0009,
    ])
}

fn listing_at_8(code: &[u8], base: u64) -> String {
    let code = code.to_vec();
    let funcs = handle_code_section(&code, 0, code.len() as u64, base);
    funcs[&8].text.clone()
}

#[test]
fn check_mov_l_pc_0() {
    let expected = r#"glabel func_00000008
                    /* 0x00000008 0x2F86 */ mov.l r8, @-r15
                    /* 0x0000000A 0xD002 */ mov.l @(dat_00000014, pc), r0
                    /* 0x0000000C 0x9104 */ mov.w @(dat_00000018, pc), r1
                    /* 0x0000000E 0x000B */ rts
                    /* 0x00000010 0x0009 */ nop
                    /* 0x00000012 */ .word 0x0009
                    dat_00000014: /* source: 0000000A */
                    /* 00000014 */ .long 0xDEADBEEF
                    dat_00000018: /* source: 0000000C */
                    .word 0xFACE
                    /* 0x0000001A */ .word 0x0009
                    "#;
    assert_eq!(listing_at_8(&load_code(), 0), trimmed(expected));
}

#[test]
fn check_mov_l_pc_1000() {
    let expected = r#"glabel func_00001008
    /* 0x00001008 0x2F86 */ mov.l r8, @-r15
    /* 0x0000100A 0xD002 */ mov.l @(dat_00001014, pc), r0
    /* 0x0000100C 0x9104 */ mov.w @(dat_00001018, pc), r1
    /* 0x0000100E 0x000B */ rts
    /* 0x00001010 0x0009 */ nop
    /* 0x00001012 */ .word 0x0009
    dat_00001014: /* source: 0000100A */
    /* 00001014 */ .long 0xDEADBEEF
    dat_00001018: /* source: 0000100C */
    .word 0xFACE
    /* 0x0000101A */ .word 0x0009
    "#;
    assert_eq!(listing_at_8(&load_code(), 0x1000), trimmed(expected));
}

#[test]
fn do_asm_0() {
    let expected_0 = r#"glabel func_00000008
    /* 0x00000008 0x2F86 */ mov.l r8, @-r15
    /* 0x0000000A 0x6103 */ mov r0, r1
    /* 0x0000000C 0xA000 */ bra lab_00000010
    /* 0x0000000E 0x0009 */ nop
    lab_00000010:
    /* 0x00000010 0x6013 */ mov r1, r0
    /* 0x00000012 0x000B */ rts
    /* 0x00000014 0x0009 */ nop
    "#;
    assert_eq!(listing_at_8(&branch_code(), 0), trimmed(expected_0));
}

#[test]
fn do_asm_1000() {
    let expected = r#"glabel func_00001008
    /* 0x00001008 0x2F86 */ mov.l r8, @-r15
    /* 0x0000100A 0x6103 */ mov r0, r1
    /* 0x0000100C 0xA000 */ bra lab_00001010
    /* 0x0000100E 0x0009 */ nop
    lab_00001010:
    /* 0x00001010 0x6013 */ mov r1, r0
    /* 0x00001012 0x000B */ rts
    /* 0x00001014 0x0009 */ nop
    "#;
    assert_eq!(listing_at_8(&branch_code(), 0x1000), trimmed(expected));
}

#[test]
fn function_entry_carries_name_and_bounds() {
    let code = branch_code();
    let funcs = handle_code_section(&code, 0, code.len() as u64, 0x0600_4000);
    assert_eq!(funcs.len(), 1);
    let f = &funcs[&8];
    assert_eq!(f.addr, 8);
    assert_eq!(f.end, 0x14);
    assert!(!f.data);
    assert_eq!(f.name, "f6004008");
    assert_eq!(f.file, "_");
    assert!(f.text.starts_with("glabel func_06004008\n"));
}

#[test]
fn label_is_named_at_branch_and_defined_at_target() {
    let text = listing_at_8(&branch_code(), 0);
    assert!(text.contains(" bra lab_00000010\n"));
    assert!(text.contains("\nlab_00000010:\n/* 0x00000010 0x6013 */ mov r1, r0\n"));
    assert!(!text.contains("bra 0x"));
}

#[test]
fn branch_out_of_the_region_keeps_its_number() {
    // push, bra +0x100 words, nop, rts, nop
    let code = words(&[0x0009, 0x0009, 0x2f86, 0xa100, 0x0009, 0x000b, 0x0009]);
    let funcs = handle_code_section(&code, 0, code.len() as u64, 0);
    let text = &funcs[&4].text;
    assert!(text.contains("/* 0x00000006 0xA100 */ bra 0x0000020A\n"));
    assert!(!text.contains("lab_"));
}

#[test]
fn long_constant_is_one_line_and_takes_two_slots() {
    let code = load_code();
    let text = listing_at_8(&code, 0);
    assert_eq!(text.matches(".long").count(), 1);
    assert!(!text.contains("0xBEEF"));
    assert!(!text.contains("0x00000016"));
    // bytes accounted for from the function's start: a line with an address
    // and a raw word or an opcode stands for 2, a long for 4
    let mut consumed = 0;
    for line in text.lines() {
        if line.contains(".long") {
            consumed += 4;
        } else if line.contains(".word") || line.starts_with("/* 0x") {
            consumed += 2;
        }
    }
    assert_eq!(consumed, code.len() - 8);
}

#[test]
fn long_label_on_the_last_slot_is_written_as_a_word() {
    // push, mov.l @(0,pc) at 2 names 4 (aligned from 6), rts at 4 is then data
    let code = words(&[0x0009, 0x2f86, 0xd100, 0x000b, 0x0009, 0x0009, 0xd000, 0x000b, 0x1234]);
    let ranges = vec![FunctionRange { phys_start: 2, phys_end: 0x10, is_data: false }];
    let funcs = disassemble_ranges(&code, 0, code.len() as u64, 0, &ranges);
    let text = &funcs[&2].text;
    // the load at 0xC reads (0*4 + 4 + 0xC) & !3 = 0x10, the last slot
    assert!(text.ends_with("dat_00000010: /* source: 0000000C */\n.word 0x1234\n"));
}

#[test]
fn data_range_is_written_word_by_word() {
    let code = words(&[0x2f86, 0xa000, 0x000b, 0x0009]);
    let ranges = vec![FunctionRange { phys_start: 0, phys_end: 6, is_data: true }];
    let funcs = disassemble_ranges(&code, 0, code.len() as u64, 0x100, &ranges);
    assert_eq!(
        funcs[&0].text,
        "glabel func_00000100\n/* 0x00000100 */ .word 0x2F86\n/* 0x00000102 */ .word 0xA000\n\
         /* 0x00000104 */ .word 0x000B\n/* 0x00000106 */ .word 0x0009\n"
    );
    assert!(funcs[&0].data);
}

#[test]
fn gap_between_functions_goes_to_the_earlier_one() {
    let code = words(&[0x0009, 0x0009, 0x1111, 0x0009, 0x0009, 0x2222]);
    let ranges = vec![
        FunctionRange { phys_start: 0, phys_end: 2, is_data: false },
        FunctionRange { phys_start: 6, phys_end: 8, is_data: false },
    ];
    let funcs = disassemble_ranges(&code, 0, code.len() as u64, 0, &ranges);
    assert_eq!(
        funcs[&0].text,
        "glabel func_00000000\n/* 0x00000000 0x0009 */ nop\n/* 0x00000002 0x0009 */ nop\n\
         /* 0x00000004 */ .word 0x1111\n"
    );
    assert_eq!(
        funcs[&6].text,
        "glabel func_00000006\n/* 0x00000006 0x0009 */ nop\n/* 0x00000008 0x0009 */ nop\n\
         /* 0x0000000A */ .word 0x2222\n"
    );
}

#[test]
fn slots_before_the_first_function_are_written_nowhere() {
    let code = words(&[0x1234, 0x0009, 0x0009]);
    let ranges = vec![FunctionRange { phys_start: 2, phys_end: 4, is_data: false }];
    let funcs = disassemble_ranges(&code, 0, code.len() as u64, 0, &ranges);
    assert_eq!(funcs.len(), 1);
    assert!(!funcs[&2].text.contains("1234"));
}

#[test]
fn two_ranges_with_one_start_give_one_function() {
    let code = words(&[0x0009, 0x0009, 0x0009]);
    let ranges = vec![
        FunctionRange { phys_start: 0, phys_end: 0, is_data: false },
        FunctionRange { phys_start: 0, phys_end: 4, is_data: true },
    ];
    let funcs = disassemble_ranges(&code, 0, code.len() as u64, 0, &ranges);
    assert_eq!(funcs.len(), 1);
    assert_eq!(funcs[&0].end, 0);
    assert!(!funcs[&0].data);
}

#[test]
fn empty_region_has_no_functions() {
    let code = branch_code();
    assert!(handle_code_section(&code, 0, 0, 0).is_empty());
    assert!(handle_code_section(&code, 8, 4, 0).is_empty());
    let none: Vec<u8> = Vec::new();
    assert!(handle_code_section(&none, 0, 0, 0).is_empty());
}

#[test]
fn region_without_preamble_has_no_functions() {
    let code = words(&[0x6103, 0x000b, 0x0009]);
    assert!(handle_code_section(&code, 0, code.len() as u64, 0).is_empty());
}

#[test]
fn boundary_recovery_twice_gives_the_same_ranges() {
    let code = load_code();
    let mut first = Vec::new();
    find_funcs(&code, 0, code.len() as u64, &mut first);
    let mut second = Vec::new();
    find_funcs(&code, 0, code.len() as u64, &mut second);
    assert_eq!(first, second);
    assert_eq!(first, vec![FunctionRange { phys_start: 8, phys_end: 0x10, is_data: false }]);
}
