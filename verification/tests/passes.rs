use rust_dis::config::{declared_as_data, Subsegment};
use rust_dis::labels::{add_data_label, DataLabel};
use rust_dis::listing::{
    check_data_labels, collect_labels, disassemble_ranges, new_function_table, write_listings,
};
use rust_dis::mnemonics::{
    gbr_disp_entry, imm_entry, long_branch_entry, one_reg_entry, plain_entry, r0_disp_entry,
    short_branch_entry, two_reg_entry,
};
use rust_dis::operands::{field_disp4, field_imm12, field_imm8, field_m, field_n, pc_long_base};
use rust_dis::order::sorted_keys;
use rust_dis::ranges::FunctionRange;
use std::collections::{BTreeMap, HashMap};

fn words(ws: &[u16]) -> Vec<u8> {
    let mut out = Vec::new();
    for w in ws {
        out.push((w >> 8) as u8);
        out.push((w & 0xff) as u8);
    }
    out
}

fn range(phys_start: u32, phys_end: u32) -> FunctionRange {
    FunctionRange { phys_start, phys_end, is_data: false }
}

#[test]
fn opcode_fields() {
    assert_eq!(field_n(0x4f22), 15);
    assert_eq!(field_m(0x6143), 4);
    assert_eq!(field_n(0x6143), 1);
    assert_eq!(field_disp4(0x8453), 3);
    assert_eq!(field_imm8(0xe1fe), 0xfe);
    assert_eq!(field_imm12(0xa801), 0x801);
    assert_eq!(field_n(0xffff_0a00), 10);
    assert_eq!(pc_long_base(0x0a, 0xd002), 0x16);
    assert_eq!(pc_long_base(0xffff_fffc, 0xd0ff), 0x3fc);
}

#[test]
fn tables_know_their_level_only() {
    assert_eq!(plain_entry(0x000b), Some("rts"));
    assert_eq!(plain_entry(0x010b), None);
    assert_eq!(one_reg_entry(0x4022), Some(("sts.l pr, @-r", "")));
    assert_eq!(one_reg_entry(0x4007), Some(("ldc.l @r", "+, sr")));
    assert_eq!(one_reg_entry(0x4f22), None);
    assert_eq!(two_reg_entry(0x000f), Some(("mac.l @r", "+, @r", "+")));
    assert_eq!(two_reg_entry(0x0004), Some(("mov.b r", ", @(r0, r", ")")));
    assert_eq!(two_reg_entry(0x3001), None);
    assert_eq!(r0_disp_entry(0x8500), Some(("mov.w @(0x", "), r0", 2)));
    assert_eq!(r0_disp_entry(0x8200), None);
    assert_eq!(gbr_disp_entry(0xc200), Some(("mov.l r0, @(0x", ", gbr)", 4)));
    assert_eq!(gbr_disp_entry(0xc700), None);
    assert_eq!(short_branch_entry(0x8f00), Some("bf.s "));
    assert_eq!(short_branch_entry(0x8a00), None);
    assert_eq!(long_branch_entry(0xb000), Some("bsr "));
    assert_eq!(long_branch_entry(0xc000), None);
    assert_eq!(imm_entry(0xc300), Some(("trapa #0x", "", 1)));
    assert_eq!(imm_entry(0x8800), Some(("cmp/eq #0x", ", r0", 2)));
    assert_eq!(imm_entry(0xc400), None);
}

#[test]
fn first_pass_looks_inside_functions_only() {
    // a branch and a load at 0, outside every function, and again inside
    let code = words(&[0xa001, 0x9001, 0x0009, 0x0009, 0xa000, 0xd001, 0x0009, 0x0009]);
    let ranges = vec![range(8, 12)];
    let (data, branch) = collect_labels(&code, 0, 16, 0x100, &ranges);
    let mut keys: Vec<u32> = branch.keys().copied().collect();
    keys.sort();
    assert_eq!(keys, vec![0x10c]);
    assert_eq!(branch[&0x10c], "lab_0000010C");
    // 0x10a + 4 + 4 = 0x112, aligned down
    let mut keys: Vec<u32> = data.keys().copied().collect();
    keys.sort();
    assert_eq!(keys, vec![0x110]);
    assert_eq!(data[&0x110].source, 0x10a);
    assert_eq!(data[&0x110].size, 4);
}

#[test]
fn first_pass_keeps_branch_labels_to_the_region() {
    // bra to 4 bytes before the region, bra to its last slot, bra to its end
    let code = words(&[0x0009, 0x0009, 0xaffc, 0xa000, 0xa000, 0x0009]);
    let ranges = vec![range(4, 10)];
    let (_, branch) = collect_labels(&code, 4, 12, 0, &ranges);
    let mut keys: Vec<u32> = branch.keys().copied().collect();
    keys.sort();
    assert_eq!(keys, vec![0x0a]);
    let (_, branch) = collect_labels(&code, 0, 12, 0, &ranges);
    let mut keys: Vec<u32> = branch.keys().copied().collect();
    keys.sort();
    assert_eq!(keys, vec![0x0, 0x0a]);
}

#[test]
fn function_table_starts_empty() {
    let ranges = vec![
        range(8, 0x10),
        FunctionRange { phys_start: 0x20, phys_end: 0x30, is_data: true },
        range(8, 0x40),
    ];
    let funcs = new_function_table(&ranges, 0x0600_0000);
    assert_eq!(funcs.len(), 2);
    assert_eq!(funcs[&8].addr, 8);
    assert_eq!(funcs[&8].end, 0x10);
    assert_eq!(funcs[&8].text, "");
    assert_eq!(funcs[&8].name, "f6000008");
    assert_eq!(funcs[&8].file, "_");
    assert!(!funcs[&8].data);
    assert!(funcs[&0x20].data);
    assert_eq!(funcs[&0x20].name, "f6000020");
    assert!(new_function_table(&Vec::new(), 0).is_empty());
    // the virtual address is a 32-bit address
    let high = new_function_table(&vec![range(0x10, 0x20)], 0xffff_fff8);
    assert_eq!(high[&0x10].name, "f0000008");
}

#[test]
fn second_pass_writes_with_the_labels_it_is_given() {
    let code = words(&[0x0009, 0xa000, 0x0009, 0x6013]);
    let ranges = vec![range(0, 6)];
    let mut funcs = new_function_table(&ranges, 0);
    let data = HashMap::<u32, DataLabel>::new();
    let mut branch = HashMap::<u32, String>::new();
    branch.insert(6, "there".to_string());
    write_listings(&code, 0, 8, 0, &ranges, &data, &branch, &mut funcs);
    assert_eq!(
        funcs[&0].text,
        "glabel func_00000000\n/* 0x00000000 0x0009 */ nop\n/* 0x00000002 0xA000 */ bra there\n\
         /* 0x00000004 0x0009 */ nop\nthere:\n/* 0x00000006 0x6013 */ mov r1, r0\n"
    );
    // both passes together find the label themselves
    let both = disassemble_ranges(&code, 0, 8, 0, &ranges);
    assert_eq!(funcs[&0].text.replace("there", "lab_00000006"), both[&0].text);
}

#[test]
fn label_in_the_gap_behind_a_function_is_defined() {
    // bra over the return into the gap
    let code = words(&[0x0009, 0xa002, 0x000b, 0x0009, 0x1234, 0x5678]);
    let ranges = vec![range(0, 6)];
    let funcs = disassemble_ranges(&code, 0, 12, 0, &ranges);
    assert!(funcs[&0].text.ends_with(
        "/* 0x00000006 0x0009 */ nop\n/* 0x00000008 */ .word 0x1234\nlab_0000000A:\n\
         /* 0x0000000A */ .word 0x5678\n"
    ));
}

#[test]
fn labelled_data_is_a_word_or_a_long() {
    let code = words(&[0xdead, 0xbeef, 0xface]);
    let mut data = HashMap::<u32, DataLabel>::new();
    add_data_label(0x100, 0x1000, 4, &mut data);
    add_data_label(0x102, 0x1004, 2, &mut data);
    add_data_label(0x104, 0x2000, 3, &mut data);

    let mut text = String::from("x\n");
    let (mut skip, mut go_on) = (false, false);
    check_data_labels(0x1000, &data, &mut skip, &mut go_on, &code, 6, &mut text, 0, 0xdead);
    assert_eq!(text, "x\ndat_00001000: /* source: 00000100 */\n/* 00001000 */ .long 0xDEADBEEF\n");
    assert!(skip && go_on);

    let mut text = String::new();
    let (mut skip, mut go_on) = (false, false);
    check_data_labels(0x1004, &data, &mut skip, &mut go_on, &code, 6, &mut text, 4, 0xface);
    assert_eq!(text, "dat_00001004: /* source: 00000102 */\n.word 0xFACE\n");
    assert!(!skip && go_on);

    // a long for which the region has no second half
    let mut text = String::new();
    let (mut skip, mut go_on) = (false, false);
    check_data_labels(0x1000, &data, &mut skip, &mut go_on, &code, 6, &mut text, 4, 0xface);
    assert_eq!(text, "dat_00001000: /* source: 00000100 */\n.word 0xFACE\n");
    assert!(!skip && go_on);
    let mut text = String::new();
    let (mut skip, mut go_on) = (true, false);
    check_data_labels(0x1000, &data, &mut skip, &mut go_on, &code, 5, &mut text, 2, 0xbeef);
    assert_eq!(text, "dat_00001000: /* source: 00000100 */\n.word 0xBEEF\n");
    assert!(skip && go_on);

    // a size that is neither gets the label alone
    let mut text = String::new();
    let (mut skip, mut go_on) = (false, false);
    check_data_labels(0x2000, &data, &mut skip, &mut go_on, &code, 6, &mut text, 0, 0xdead);
    assert_eq!(text, "dat_00002000: /* source: 00000104 */\n");
    assert!(!skip && go_on);

    // no label, nothing happens
    let mut text = String::from("kept");
    let (mut skip, mut go_on) = (false, false);
    check_data_labels(0x1002, &data, &mut skip, &mut go_on, &code, 6, &mut text, 2, 0xbeef);
    assert_eq!(text, "kept");
    assert!(!skip && !go_on);
    let (mut skip, mut go_on) = (true, true);
    check_data_labels(0x1002, &data, &mut skip, &mut go_on, &code, 6, &mut text, 2, 0xbeef);
    assert!(skip && go_on);
}

#[test]
fn keys_come_out_ascending() {
    let mut map = BTreeMap::<u32, &str>::new();
    map.insert(0x30, "c");
    map.insert(8, "a");
    map.insert(0xffff_ffff, "d");
    map.insert(0x10, "b");
    map.insert(8, "again");
    assert_eq!(sorted_keys(&map), vec![8, 0x10, 0x30, 0xffff_ffff]);
    assert!(sorted_keys(&BTreeMap::<u32, u8>::new()).is_empty());
}

#[test]
fn only_the_word_data_makes_a_data_subsegment() {
    let sub = |kind: Option<&str>| Subsegment {
        start: 0,
        end: 0,
        segment_type: kind.map(|k| k.to_string()),
        file: None,
    };
    assert!(declared_as_data(&sub(Some("data"))));
    assert!(!declared_as_data(&sub(Some("code"))));
    assert!(!declared_as_data(&sub(Some("data "))));
    assert!(!declared_as_data(&sub(Some(""))));
    assert!(!declared_as_data(&sub(None)));
}
