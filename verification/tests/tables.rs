use rust_dis::labels::{
    add_data_label, add_label, branch_target_of, find_branch_labels, find_data_labels,
    slot_is_data, DataLabel,
};
use rust_dis::operands::{
    long_branch_target, pc_long_offset, pc_long_target, pc_word_target, short_branch_target,
};
use rust_dis::text::{push_decimal, push_hex};
use std::collections::HashMap;

fn hex(value: u64, width: u32) -> String {
    let mut out = String::new();
    push_hex(&mut out, value, width);
    out
}

fn dec(value: u64) -> String {
    let mut out = String::new();
    push_decimal(&mut out, value);
    out
}

#[test]
fn hex_is_upper_case_and_padded() {
    assert_eq!(hex(0, 0), "0");
    assert_eq!(hex(0, 1), "0");
    assert_eq!(hex(0, 4), "0000");
    assert_eq!(hex(0xab, 2), "AB");
    assert_eq!(hex(0xab, 3), "0AB");
    assert_eq!(hex(0xdeadbeef, 8), "DEADBEEF");
    assert_eq!(hex(0x6004080, 7), "6004080");
    assert_eq!(hex(9, 2), "09");
    assert_eq!(hex(10, 1), "A");
}

#[test]
fn hex_grows_beyond_its_width() {
    assert_eq!(hex(0x12345, 4), "12345");
    assert_eq!(hex(0x1_0000_0000, 8), "100000000");
    assert_eq!(hex(u64::MAX, 0), "FFFFFFFFFFFFFFFF");
    assert_eq!(hex(0x10, 1), "10");
}

#[test]
fn hex_agrees_with_the_standard_formatting() {
    for value in [0u64, 1, 15, 16, 255, 256, 0xfff, 0x1000, 0xffff_ffff, 0x1234_5678_9abc] {
        assert_eq!(hex(value, 8), format!("{:08X}", value));
        assert_eq!(hex(value, 3), format!("{:03X}", value));
        assert_eq!(hex(value, 0), format!("{:X}", value));
        assert_eq!(dec(value), format!("{}", value));
    }
}

#[test]
fn decimal_has_no_padding() {
    assert_eq!(dec(0), "0");
    assert_eq!(dec(9), "9");
    assert_eq!(dec(10), "10");
    assert_eq!(dec(15), "15");
    assert_eq!(dec(255), "255");
    assert_eq!(dec(u64::MAX), "18446744073709551615");
}

#[test]
fn formatting_appends() {
    let mut out = String::from("r");
    push_decimal(&mut out, 12);
    out.push_str(" 0x");
    push_hex(&mut out, 0x1f, 4);
    assert_eq!(out, "r12 0x001F");
}

#[test]
fn branch_targets() {
    assert_eq!(long_branch_target(0x0c, 0xa000), 0x10);
    assert_eq!(long_branch_target(0x0c, 0xafff), 0x0e);
    assert_eq!(long_branch_target(0x1000, 0xb800), 0x4);
    assert_eq!(long_branch_target(0, 0xa7ff), 0x1002);
    assert_eq!(long_branch_target(0, 0xa800), 0xffff_f004);
    assert_eq!(short_branch_target(0x0c, 0x8b00), 0x10);
    assert_eq!(short_branch_target(0x0c, 0x8bff), 0x0e);
    assert_eq!(short_branch_target(0x200, 0x8980), 0x104);
    assert_eq!(short_branch_target(0x200, 0x897f), 0x302);
    assert_eq!(short_branch_target(0xffff_fffc, 0x8b00), 0);
}

#[test]
fn load_targets() {
    assert_eq!(pc_word_target(0x0c, 0x9104), 0x18);
    assert_eq!(pc_word_target(0, 0x93ff), 0x202);
    assert_eq!(pc_word_target(0xffff_fffe, 0x9000), 2);
    assert_eq!(pc_long_target(0x0a, 0xd002), 0x14);
    assert_eq!(pc_long_target(0x08, 0xd002), 0x14);
    assert_eq!(pc_long_target(0x7a, 0xd637), 0x158);
    assert_eq!(pc_long_offset(0x0a, 0xd002), 0x0a);
    assert_eq!(pc_long_offset(0x08, 0xd002), 0x0c);
    assert_eq!(pc_long_offset(0x7a, 0xd637), 0xde);
    assert_eq!(pc_long_offset(0x09, 0xd002), 0x0c);
}

#[test]
fn only_branches_with_a_displacement_have_a_target() {
    assert_eq!(branch_target_of(0x0c, 0xa000), Some(0x10));
    assert_eq!(branch_target_of(0x0c, 0xb001), Some(0x12));
    assert_eq!(branch_target_of(0x0c, 0x8b00), Some(0x10));
    assert_eq!(branch_target_of(0x0c, 0x8f00), Some(0x10));
    assert_eq!(branch_target_of(0x0c, 0x8900), Some(0x10));
    assert_eq!(branch_target_of(0x0c, 0x8d00), Some(0x10));
    assert_eq!(branch_target_of(0x0c, 0x8800), None);
    assert_eq!(branch_target_of(0x0c, 0x402b), None);
    assert_eq!(branch_target_of(0x0c, 0x000b), None);
    assert_eq!(branch_target_of(0x0c, 0x0023), None);
}

#[test]
fn labels_are_named_after_their_address() {
    let mut branch_labels = HashMap::<u32, String>::new();
    add_label(0x10, &mut branch_labels);
    add_label(0x0600_4080, &mut branch_labels);
    assert_eq!(branch_labels.len(), 2);
    assert_eq!(branch_labels[&0x10], "lab_00000010");
    assert_eq!(branch_labels[&0x0600_4080], "lab_06004080");
    let mut data_labels = HashMap::<u32, DataLabel>::new();
    add_data_label(0x0a, 0x14, 4, &mut data_labels);
    assert_eq!(data_labels.len(), 1);
    assert_eq!(data_labels[&0x14].label, "dat_00000014");
    assert_eq!(data_labels[&0x14].size, 4);
    assert_eq!(data_labels[&0x14].source, 0x0a);
}

#[test]
fn first_pass_records_branch_targets() {
    let mut branch_labels = HashMap::<u32, String>::new();
    find_branch_labels(0x0c, 0xa000, &mut branch_labels);
    find_branch_labels(0x0e, 0x0009, &mut branch_labels);
    find_branch_labels(0x20, 0x8bfe, &mut branch_labels);
    let mut keys: Vec<u32> = branch_labels.keys().copied().collect();
    keys.sort();
    assert_eq!(keys, vec![0x10, 0x20]);
    assert_eq!(branch_labels[&0x20], "lab_00000020");
}

#[test]
fn first_pass_records_loaded_data() {
    let mut data_labels = HashMap::<u32, DataLabel>::new();
    find_data_labels(0x0a, 0xd002, &mut data_labels);
    find_data_labels(0x0c, 0x9104, &mut data_labels);
    find_data_labels(0x0e, 0x000b, &mut data_labels);
    assert_eq!(data_labels.len(), 2);
    assert_eq!(data_labels[&0x14].size, 4);
    assert_eq!(data_labels[&0x14].source, 0x0a);
    assert_eq!(data_labels[&0x18].size, 2);
    assert_eq!(data_labels[&0x18].source, 0x0c);
    assert_eq!(data_labels[&0x18].label, "dat_00000018");
}

#[test]
fn slot_listed_as_data_is_not_read_as_a_load() {
    let mut data_labels = HashMap::<u32, DataLabel>::new();
    add_data_label(0, 0x14, 4, &mut data_labels);
    add_data_label(0, 0x20, 2, &mut data_labels);
    assert!(slot_is_data(0x14, &data_labels));
    assert!(slot_is_data(0x16, &data_labels));
    assert!(!slot_is_data(0x18, &data_labels));
    assert!(slot_is_data(0x20, &data_labels));
    assert!(!slot_is_data(0x22, &data_labels));
    assert!(!slot_is_data(0, &data_labels));
    assert!(!slot_is_data(1, &data_labels));
    // the word at 0x14 and the one at 0x16 look like loads, and are not read
    find_data_labels(0x14, 0xd002, &mut data_labels);
    find_data_labels(0x16, 0x9104, &mut data_labels);
    assert_eq!(data_labels.len(), 2);
    // the second half of a word label is no data
    find_data_labels(0x22, 0x9000, &mut data_labels);
    assert_eq!(data_labels.len(), 3);
    assert_eq!(data_labels[&0x26].source, 0x22);
}

#[test]
fn later_load_takes_over_the_label() {
    let mut data_labels = HashMap::<u32, DataLabel>::new();
    find_data_labels(0x08, 0xd002, &mut data_labels);
    find_data_labels(0x0a, 0xd002, &mut data_labels);
    assert_eq!(data_labels.len(), 1);
    assert_eq!(data_labels[&0x14].source, 0x0a);
    find_data_labels(0x0c, 0x9002, &mut data_labels);
    assert_eq!(data_labels[&0x14].size, 2);
    assert_eq!(data_labels[&0x14].source, 0x0c);
}

#[test]
fn addresses_once_special_are_labelled_like_any_other() {
    let mut data_labels = HashMap::<u32, DataLabel>::new();
    // a long load at 0x14b8 reads 0x14c0
    find_data_labels(0x14b8, 0xd001, &mut data_labels);
    assert_eq!(data_labels[&0x14c0].size, 4);
}
