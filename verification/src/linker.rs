//! The linker script of a segment: a fixed template around the name of the
//! segment and the hexadecimal digits of the address at which it is loaded.

use vstd::prelude::*;
use vstd::string::*;

verus! {

/// The head of the script: the position in ROM and the symbols that mark
/// where the segment starts in ROM and in memory.
pub open spec fn script_head(name: Seq<char>) -> Seq<char> {
    "SECTIONS\n{\n"@ + "    __romPos = 0;\n"@ + "    _gp = 0x0;\n"@ + "    "@ + name
        + "_ROM_START = __romPos;\n"@ + "    "@ + name + "_VRAM = ADDR(."@ + name + ");\n"@
}

/// The output section: the text of the segment's object file between the
/// symbols that mark its start, its end and its size.
pub open spec fn script_section(name: Seq<char>, addr: Seq<char>) -> Seq<char> {
    "    ."@ + name + " 0x"@ + addr + " : AT("@ + name + "_ROM_START) SUBALIGN(2)\n    {\n"@
        + "        "@ + name + "_TEXT_START = .;\n"@ + "        "@ + name + ".o(.text);\n"@
        + "        "@ + name + "_TEXT_END = .;\n"@ + "        "@ + name + "_TEXT_SIZE = ABSOLUTE("@
        + name + "_TEXT_END - "@ + name + "_TEXT_START);\n    }\n"@
}

/// The tail of the script: the position in ROM after the segment, the
/// symbols that mark its end, and the sections that are thrown away.
pub open spec fn script_tail(name: Seq<char>) -> Seq<char> {
    "    __romPos += SIZEOF(."@ + name + ");\n"@ + "    __romPos = ALIGN(__romPos, 16);\n"@
        + "    "@ + name + "_ROM_END = __romPos;\n"@ + "    "@ + name + "_VRAM_END = .;\n"@
        + "\n    /DISCARD/ :\n    {\n"@ + "        *(*);\n    }\n"@ + "}"@
}

/// The linker script of the segment `name` loaded at `addr`. The address is
/// given as hexadecimal digits; the script writes `0x` before them.
pub open spec fn ld_script(name: Seq<char>, addr: Seq<char>) -> Seq<char> {
    script_head(name) + script_section(name, addr) + script_tail(name)
}

/// Appends the head of the script.
fn push_script_head(code: &mut String, zero_prefix: &str)
    ensures
        final(code)@ == old(code)@ + script_head(zero_prefix@),
{
    code.append("SECTIONS\n{\n");
    code.append("    __romPos = 0;\n");
    code.append("    _gp = 0x0;\n");
    code.append("    ");
    code.append(zero_prefix);
    code.append("_ROM_START = __romPos;\n");
    code.append("    ");
    code.append(zero_prefix);
    code.append("_VRAM = ADDR(.");
    code.append(zero_prefix);
    code.append(");\n");
    assert(code@ =~= old(code)@ + script_head(zero_prefix@));
}

/// Appends the output section.
fn push_script_section(code: &mut String, zero_prefix: &str, addr: &str)
    ensures
        final(code)@ == old(code)@ + script_section(zero_prefix@, addr@),
{
    code.append("    .");
    code.append(zero_prefix);
    code.append(" 0x");
    code.append(addr);
    code.append(" : AT(");
    code.append(zero_prefix);
    code.append("_ROM_START) SUBALIGN(2)\n    {\n");
    code.append("        ");
    code.append(zero_prefix);
    code.append("_TEXT_START = .;\n");
    code.append("        ");
    code.append(zero_prefix);
    code.append(".o(.text);\n");
    code.append("        ");
    code.append(zero_prefix);
    code.append("_TEXT_END = .;\n");
    code.append("        ");
    code.append(zero_prefix);
    code.append("_TEXT_SIZE = ABSOLUTE(");
    code.append(zero_prefix);
    code.append("_TEXT_END - ");
    code.append(zero_prefix);
    code.append("_TEXT_START);\n    }\n");
    assert(code@ =~= old(code)@ + script_section(zero_prefix@, addr@));
}

/// Appends the tail of the script.
fn push_script_tail(code: &mut String, zero_prefix: &str)
    ensures
        final(code)@ == old(code)@ + script_tail(zero_prefix@),
{
    code.append("    __romPos += SIZEOF(.");
    code.append(zero_prefix);
    code.append(");\n");
    code.append("    __romPos = ALIGN(__romPos, 16);\n");
    code.append("    ");
    code.append(zero_prefix);
    code.append("_ROM_END = __romPos;\n");
    code.append("    ");
    code.append(zero_prefix);
    code.append("_VRAM_END = .;\n");
    code.append("\n    /DISCARD/ :\n    {\n");
    code.append("        *(*);\n    }\n");
    code.append("}");
    assert(code@ =~= old(code)@ + script_tail(zero_prefix@));
}

/// The linker script of the segment named `zero_prefix`, placed at the
/// address whose hexadecimal digits are `addr`.
pub fn gen_ld_script(zero_prefix: &str, addr: &str) -> (code: String)
    ensures
        code@ == ld_script(zero_prefix@, addr@),
{
    let mut code = String::new();
    push_script_head(&mut code, zero_prefix);
    push_script_section(&mut code, zero_prefix, addr);
    push_script_tail(&mut code, zero_prefix);
    assert(code@ =~= ld_script(zero_prefix@, addr@));
    code
}

} // verus!
