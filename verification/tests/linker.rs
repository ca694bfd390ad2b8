use rust_dis::linker::gen_ld_script;

#[test]
fn test_ld_script() {
    let expected = r#"SECTIONS
{
    __romPos = 0;
    _gp = 0x0;
    zero_ROM_START = __romPos;
    zero_VRAM = ADDR(.zero);
    .zero 0x06004080 : AT(zero_ROM_START) SUBALIGN(2)
    {
        zero_TEXT_START = .;
        zero.o(.text);
        zero_TEXT_END = .;
        zero_TEXT_SIZE = ABSOLUTE(zero_TEXT_END - zero_TEXT_START);
    }
    __romPos += SIZEOF(.zero);
    __romPos = ALIGN(__romPos, 16);
    zero_ROM_END = __romPos;
    zero_VRAM_END = .;

    /DISCARD/ :
    {
        *(*);
    }
}"#;

    // the script writes the 0x itself: the address goes in as digits alone
    let actual = gen_ld_script("zero", "06004080");
    assert!(expected == actual);
    let doubled = gen_ld_script("zero", "0x06004080");
    assert!(doubled.contains("    .zero 0x0x06004080 : AT(zero_ROM_START) SUBALIGN(2)\n"));
    assert!(expected != doubled);
}

#[test]
fn script_names_the_segment_everywhere() {
    let actual = gen_ld_script("ovl", "00001000");
    assert_eq!(actual.matches("ovl").count(), 14);
    assert!(actual.contains("    .ovl 0x00001000 : AT(ovl_ROM_START) SUBALIGN(2)\n"));
    assert!(actual.ends_with("        *(*);\n    }\n}"));
}
