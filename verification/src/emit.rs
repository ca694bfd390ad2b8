//! Emission and bucketing: which files a run writes, and what stands in
//! them.
//!
//! Every function goes to one of two buckets. A function whose symbol an
//! inclusion marker of the handwritten source names is matched; all others
//! are not. Beside the listings a run writes a source file that includes
//! every section as assembly, a symbol file that binds the name of each
//! function to its address, and a linker script.

use crate::config::{segments_of, subsegments_of, Config, Segment};
use crate::includes::{is_included, texts_of};
use crate::linker::{gen_ld_script, ld_script};
use crate::listing::{DisassembledFunc, DisassembledFuncView};
use crate::operands::wrap32;
use crate::order::{ascending, concat, lemma_concat_push, sorted_keys};
use crate::segments::{
    process_segment, processed_segment, section_views, segment_ok, ProcessedSection,
    ProcessedSectionView,
};
use crate::text::{hex_upper, push_hex};
use vstd::prelude::*;
use vstd::string::*;

verus! {

/// A file that a run is to write.
pub struct OutputFile {
    /// Where the file goes.
    pub path: String,
    /// What stands in it.
    pub contents: String,
    /// Whether a file that is already there is left as it is.
    pub keep_existing: bool,
}

/// What an [`OutputFile`] holds, with its texts as sequences of characters.
pub struct OutputFileView {
    pub path: Seq<char>,
    pub contents: Seq<char>,
    pub keep_existing: bool,
}

impl View for OutputFile {
    type V = OutputFileView;

    open spec fn view(&self) -> OutputFileView {
        OutputFileView {
            path: self.path@,
            contents: self.contents@,
            keep_existing: self.keep_existing,
        }
    }
}

/// The contents of each file of a list.
pub open spec fn file_views(files: Seq<OutputFile>) -> Seq<OutputFileView> {
    Seq::new(files.len(), |i: int| files[i]@)
}

/// The symbol of the function at a virtual address: `func_` and the address
/// in eight hexadecimal digits.
pub open spec fn func_symbol(vaddr: u32) -> Seq<char> {
    "func_"@ + hex_upper(vaddr as nat, 8)
}

/// The virtual address of a function of a section, as a 32-bit address.
pub open spec fn func_vaddr(func: DisassembledFuncView, vbase: u64) -> u32 {
    wrap32(func.addr + vbase)
}

/// Whether a function is written as an empty function: it is exactly eight
/// bytes long and the switch for that is on.
pub open spec fn is_stub(func: DisassembledFuncView, empty_funcs: bool) -> bool {
    func.end - func.addr == 8 && empty_funcs
}

/// The functions of a code section from the lowest address to the highest.
pub open spec fn funcs_in_order(section: ProcessedSectionView) -> Seq<DisassembledFuncView> {
    Seq::new(
        ascending(section.funcs.dom()).len(),
        |i: int| section.funcs[ascending(section.funcs.dom())[i]],
    )
}

/// A listing as it stands in its file: with a line feed at its end.
pub open spec fn asm_file(path: Seq<char>, data: Seq<char>) -> OutputFileView {
    OutputFileView { path, contents: data + "\n"@, keep_existing: false }
}

/// The path of the listing of a data section.
pub open spec fn data_path(asm_path: Seq<char>, vaddr: u64) -> Seq<char> {
    asm_path + "/data/d"@ + hex_upper(vaddr as nat, 7) + ".s"@
}

/// The path of the listing of a function: in the bucket of the matched
/// functions or in that of the others.
pub open spec fn func_path(asm_path: Seq<char>, vaddr: u32, matched: bool) -> Seq<char> {
    asm_path + (if matched {
        "/f_match/f"@
    } else {
        "/f_nonmat/f"@
    }) + hex_upper(vaddr as nat, 7) + ".s"@
}

/// The file of one function. The function is matched where its symbol is
/// among the names that the inclusion markers gave.
pub open spec fn func_file(
    asm_path: Seq<char>,
    func: DisassembledFuncView,
    vbase: u64,
    includes: Seq<Seq<char>>,
) -> OutputFileView {
    asm_file(
        func_path(
            asm_path,
            func_vaddr(func, vbase),
            includes.contains(func_symbol(func_vaddr(func, vbase))),
        ),
        func.text,
    )
}

/// The listings of one section: one file for a data section, one file for
/// every function of a code section, from the lowest address on.
pub open spec fn section_files(
    asm_path: Seq<char>,
    section: ProcessedSectionView,
    includes: Seq<Seq<char>>,
) -> Seq<OutputFileView> {
    if !section.is_code {
        seq![asm_file(data_path(asm_path, section.vaddr), section.data)]
    } else {
        Seq::new(
            funcs_in_order(section).len(),
            |i: int| func_file(asm_path, funcs_in_order(section)[i], section.vbase, includes),
        )
    }
}

/// The listings of all sections, in the order of the sections.
pub open spec fn asm_files(
    asm_path: Seq<char>,
    sections: Seq<ProcessedSectionView>,
    includes: Seq<Seq<char>>,
) -> Seq<OutputFileView> {
    concat(Seq::new(sections.len(), |i: int| section_files(asm_path, sections[i], includes)))
}

/// A line that includes a listing: the path of the listings, the name of
/// the file and the symbol.
pub open spec fn include_line(asm_path: Seq<char>, name: Seq<char>, symbol: Seq<char>) -> Seq<
    char,
> {
    "INCLUDE_ASM(\""@ + asm_path + "\", "@ + name + ", "@ + symbol + ");\n"@
}

/// The line of one function in the source file: an empty function, or the
/// inclusion of its listing.
pub open spec fn func_line(
    asm_path: Seq<char>,
    func: DisassembledFuncView,
    vbase: u64,
    empty_funcs: bool,
) -> Seq<char> {
    if is_stub(func, empty_funcs) {
        "void "@ + func.name + "() {}\n"@
    } else {
        include_line(asm_path, func.name, func_symbol(func_vaddr(func, vbase)))
    }
}

/// The lines of one section in the source file.
pub open spec fn section_lines(
    asm_path: Seq<char>,
    section: ProcessedSectionView,
    empty_funcs: bool,
) -> Seq<char> {
    if !section.is_code {
        include_line(
            asm_path,
            "d"@ + hex_upper(section.vaddr as nat, 7),
            "d_"@ + hex_upper(section.vaddr as nat, 8),
        )
    } else {
        concat(
            Seq::new(
                funcs_in_order(section).len(),
                |i: int|
                    func_line(asm_path, funcs_in_order(section)[i], section.vbase, empty_funcs),
            ),
        )
    }
}

/// The source file: the header of the inclusions, then every section.
pub open spec fn c_file_text(
    asm_path: Seq<char>,
    sections: Seq<ProcessedSectionView>,
    empty_funcs: bool,
) -> Seq<char> {
    "#include \"inc_asm.h\"\n"@ + concat(
        Seq::new(sections.len(), |i: int| section_lines(asm_path, sections[i], empty_funcs)),
    )
}

/// The line of one function in the symbol file: nothing for an empty
/// function, else the symbol with an underscore before it and its address.
pub open spec fn symbol_line(func: DisassembledFuncView, vbase: u64, empty_funcs: bool) -> Seq<
    char,
> {
    if is_stub(func, empty_funcs) {
        Seq::empty()
    } else {
        "_"@ + func_symbol(func_vaddr(func, vbase)) + " = 0x"@ + hex_upper(
            func_vaddr(func, vbase) as nat,
            8,
        ) + ";\n"@
    }
}

/// The lines of one section in the symbol file.
pub open spec fn section_symbols(section: ProcessedSectionView, empty_funcs: bool) -> Seq<char> {
    if !section.is_code {
        Seq::empty()
    } else {
        concat(
            Seq::new(
                funcs_in_order(section).len(),
                |i: int| symbol_line(funcs_in_order(section)[i], section.vbase, empty_funcs),
            ),
        )
    }
}

/// The symbol file.
pub open spec fn symbols_text(sections: Seq<ProcessedSectionView>, empty_funcs: bool) -> Seq<char> {
    concat(Seq::new(sections.len(), |i: int| section_symbols(sections[i], empty_funcs)))
}

/// Two parts of a path with a slash between them and an ending after them.
pub open spec fn path_of(dir: Seq<char>, name: Seq<char>, ending: Seq<char>) -> Seq<char> {
    dir + "/"@ + name + ending
}

/// Builds a path from a directory, a name and an ending.
pub fn join_path(dir: &str, name: &str, ending: &str) -> (path: String)
    ensures
        path@ == path_of(dir@, name@, ending@),
{
    let mut path = String::from_str(dir);
    path.append("/");
    path.append(name);
    path.append(ending);
    assert(path@ =~= path_of(dir@, name@, ending@));
    path
}

/// A listing with the path of its file. The file ends with a line feed
/// after the listing.
pub fn emit_asm_file(filename: String, data: &str) -> (file: OutputFile)
    ensures
        file@ == asm_file(filename@, data@),
{
    let mut contents = String::from_str(data);
    contents.append("\n");
    OutputFile { path: filename, contents, keep_existing: false }
}

/// The symbol of the function at a virtual address.
pub fn func_symbol_name(vaddr: u32) -> (name: String)
    ensures
        name@ == func_symbol(vaddr),
{
    let mut name = String::from_str("func_");
    push_hex(&mut name, vaddr as u64, 8);
    name
}

/// The virtual address of a function, reduced to 32 bits.
fn virtual_start(func: &DisassembledFunc, vbase: u64) -> (vaddr: u32)
    ensures
        vaddr == func_vaddr(func@, vbase),
{
    ((func.addr as u64 + vbase % 0x1_0000_0000) % 0x1_0000_0000) as u32
}

/// Tells whether a function is written as an empty function.
fn stub_wanted(func: &DisassembledFunc, empty_funcs: bool) -> (stub: bool)
    ensures
        stub == is_stub(func@, empty_funcs),
{
    func.end >= func.addr && func.end - func.addr == 8 && empty_funcs
}

/// Whether `keys` lists the functions of a section in order: the function
/// at each key is the function at that place in the order of the section.
pub open spec fn keys_list_funcs(section: ProcessedSection, keys: Seq<u32>) -> bool {
    &&& funcs_in_order(section@).len() == keys.len()
    &&& forall|i: int|
        0 <= i < keys.len() ==> {
            &&& section.disassembled_funcs@.contains_key(#[trigger] keys[i])
            &&& funcs_in_order(section@)[i] == section.disassembled_funcs@[keys[i]]@
            &&& section@.funcs.contains_key(keys[i])
            &&& section@.funcs[keys[i]] == section.disassembled_funcs@[keys[i]]@
        }
}

/// The keys of the table of a section, in ascending order, list its
/// functions in order.
proof fn lemma_funcs_in_order(section: ProcessedSection, keys: Seq<u32>)
    requires
        keys == ascending(section.disassembled_funcs@.dom()),
        keys.to_set() == section.disassembled_funcs@.dom(),
    ensures
        keys_list_funcs(section, keys),
{
    assert(section@.funcs.dom() =~= section.disassembled_funcs@.dom());
    assert forall|i: int| 0 <= i < keys.len() implies section.disassembled_funcs@.contains_key(
        #[trigger] keys[i],
    ) by {
        assert(keys.to_set().contains(keys[i]));
    }
}

/// The listings of one section, with their paths.
pub fn section_asm_files(
    asm_path: &str,
    section: &ProcessedSection,
    includes: &Vec<String>,
) -> (files: Vec<OutputFile>)
    ensures
        file_views(files@) == section_files(asm_path@, section@, texts_of(includes@)),
{
    let mut files: Vec<OutputFile> = Vec::new();
    if !section.is_code {
        let mut path = String::from_str(asm_path);
        path.append("/data/d");
        push_hex(&mut path, section.vaddr, 7);
        path.append(".s");
        assert(path@ =~= data_path(asm_path@, section.vaddr));
        files.push(emit_asm_file(path, section.data.as_str()));
        assert(file_views(files@) =~= section_files(asm_path@, section@, texts_of(includes@)));
    } else {
        let keys = sorted_keys(&section.disassembled_funcs);
        proof {
            lemma_funcs_in_order(*section, keys@);
        }
        let mut n: usize = 0;
        while n < keys.len()
            invariant
                n <= keys.len(),
                section.is_code,
                keys_list_funcs(*section, keys@),
                files@.len() == n,
                forall|i: int|
                    0 <= i < n ==> (#[trigger] files@[i])@ == func_file(
                        asm_path@,
                        funcs_in_order(section@)[i],
                        section.vbase,
                        texts_of(includes@),
                    ),
            decreases keys.len() - n,
        {
            match section.disassembled_funcs.get(&keys[n]) {
                Some(df) => {
                    let vaddr: u32 = virtual_start(df, section.vbase);
                    let func_name = func_symbol_name(vaddr);
                    let matched = is_included(includes, &func_name);
                    let mut path = String::from_str(asm_path);
                    if matched {
                        path.append("/f_match/f");
                    } else {
                        path.append("/f_nonmat/f");
                    }
                    push_hex(&mut path, vaddr as u64, 7);
                    path.append(".s");
                    assert(path@ =~= func_path(asm_path@, vaddr, matched));
                    files.push(emit_asm_file(path, df.text.as_str()));
                },
                None => {},
            }
            n += 1;
        }
        assert(file_views(files@) =~= section_files(asm_path@, section@, texts_of(includes@)));
    }
    files
}

/// The listings of all sections, with their paths.
pub fn asm_outputs(
    asm_path: &str,
    processed_sections: &Vec<ProcessedSection>,
    includes: &Vec<String>,
) -> (files: Vec<OutputFile>)
    ensures
        file_views(files@) == asm_files(
            asm_path@,
            section_views(processed_sections@),
            texts_of(includes@),
        ),
{
    let ghost parts = Seq::new(
        processed_sections@.len(),
        |i: int|
            section_files(asm_path@, section_views(processed_sections@)[i], texts_of(includes@)),
    );
    let mut files: Vec<OutputFile> = Vec::new();
    assert(parts.take(0) =~= Seq::empty());
    assert(file_views(files@) =~= concat(parts.take(0)));
    let mut n: usize = 0;
    while n < processed_sections.len()
        invariant
            n <= processed_sections.len(),
            parts == Seq::new(
                processed_sections@.len(),
                |i: int|
                    section_files(
                        asm_path@,
                        section_views(processed_sections@)[i],
                        texts_of(includes@),
                    ),
            ),
            file_views(files@) == concat(parts.take(n as int)),
        decreases processed_sections.len() - n,
    {
        let ghost before = file_views(files@);
        assert(section_views(processed_sections@)[n as int] == processed_sections@[n as int]@);
        let mut part = section_asm_files(asm_path, &processed_sections[n], includes);
        let ghost added = file_views(part@);
        files.append(&mut part);
        proof {
            assert(file_views(files@) =~= before + added);
            assert(parts.take(n + 1) =~= parts.take(n as int).push(parts[n as int]));
            lemma_concat_push(parts.take(n as int), parts[n as int]);
        }
        n += 1;
    }
    assert(parts.take(n as int) =~= parts);
    files
}

/// Appends a line that includes a listing.
fn push_include_line(text: &mut String, asm_path: &str, name: &str, symbol: &str)
    ensures
        final(text)@ == old(text)@ + include_line(asm_path@, name@, symbol@),
{
    text.append("INCLUDE_ASM(\"");
    text.append(asm_path);
    text.append("\", ");
    text.append(name);
    text.append(", ");
    text.append(symbol);
    text.append(");\n");
    assert(text@ =~= old(text)@ + include_line(asm_path@, name@, symbol@));
}

/// Appends the lines of one section of the source file.
fn push_section_lines(
    text: &mut String,
    asm_path: &str,
    section: &ProcessedSection,
    empty_funcs: bool,
)
    ensures
        final(text)@ == old(text)@ + section_lines(asm_path@, section@, empty_funcs),
{
    if !section.is_code {
        let mut name = String::from_str("d");
        push_hex(&mut name, section.vaddr, 7);
        let mut symbol = String::from_str("d_");
        push_hex(&mut symbol, section.vaddr, 8);
        push_include_line(text, asm_path, name.as_str(), symbol.as_str());
    } else {
        let keys = sorted_keys(&section.disassembled_funcs);
        let ghost parts = Seq::new(
            funcs_in_order(section@).len(),
            |i: int| func_line(asm_path@, funcs_in_order(section@)[i], section.vbase, empty_funcs),
        );
        proof {
            lemma_funcs_in_order(*section, keys@);
            assert(parts.take(0) =~= Seq::empty());
            assert(text@ =~= old(text)@ + concat(parts.take(0)));
        }
        let mut n: usize = 0;
        while n < keys.len()
            invariant
                n <= keys.len(),
                section.is_code,
                keys_list_funcs(*section, keys@),
                parts == Seq::new(
                    funcs_in_order(section@).len(),
                    |i: int|
                        func_line(
                            asm_path@,
                            funcs_in_order(section@)[i],
                            section.vbase,
                            empty_funcs,
                        ),
                ),
                text@ == old(text)@ + concat(parts.take(n as int)),
            decreases keys.len() - n,
        {
            let ghost before = text@;
            match section.disassembled_funcs.get(&keys[n]) {
                Some(func) => {
                    // a function of eight bytes is taken to be empty
                    if stub_wanted(func, empty_funcs) {
                        text.append("void ");
                        text.append(func.name.as_str());
                        text.append("() {}\n");
                    } else {
                        let vaddr: u32 = virtual_start(func, section.vbase);
                        let symbol = func_symbol_name(vaddr);
                        push_include_line(text, asm_path, func.name.as_str(), symbol.as_str());
                    }
                },
                None => {},
            }
            proof {
                assert(text@ =~= before + parts[n as int]);
                assert(parts.take(n + 1) =~= parts.take(n as int).push(parts[n as int]));
                lemma_concat_push(parts.take(n as int), parts[n as int]);
                assert(text@ =~= old(text)@ + concat(parts.take(n + 1)));
            }
            n += 1;
        }
        assert(parts.take(n as int) =~= parts);
    }
}

/// The source file that includes every section as assembly. It is named
/// after the segment and is never written over a file that is there already.
pub fn write_c_file(
    config: &Config,
    path: &str,
    segment_name: &str,
    asm_path: &str,
    processed_sections: &Vec<ProcessedSection>,
) -> (file: OutputFile)
    ensures
        file@ == (OutputFileView {
            path: path_of(path@, segment_name@, ".c"@),
            contents: c_file_text(
                asm_path@,
                section_views(processed_sections@),
                config.options.decomp_empty_funcs,
            ),
            keep_existing: true,
        }),
{
    let filename = join_path(path, segment_name, ".c");
    let empty_funcs = config.options.decomp_empty_funcs;
    let ghost parts = Seq::new(
        processed_sections@.len(),
        |i: int| section_lines(asm_path@, section_views(processed_sections@)[i], empty_funcs),
    );
    let mut text = String::from_str("#include \"inc_asm.h\"\n");
    proof {
        assert(parts.take(0) =~= Seq::empty());
        assert(text@ =~= "#include \"inc_asm.h\"\n"@ + concat(parts.take(0)));
    }
    let mut n: usize = 0;
    while n < processed_sections.len()
        invariant
            n <= processed_sections.len(),
            parts == Seq::new(
                processed_sections@.len(),
                |i: int|
                    section_lines(asm_path@, section_views(processed_sections@)[i], empty_funcs),
            ),
            text@ == "#include \"inc_asm.h\"\n"@ + concat(parts.take(n as int)),
        decreases processed_sections.len() - n,
    {
        assert(section_views(processed_sections@)[n as int] == processed_sections@[n as int]@);
        push_section_lines(&mut text, asm_path, &processed_sections[n], empty_funcs);
        proof {
            assert(parts.take(n + 1) =~= parts.take(n as int).push(parts[n as int]));
            lemma_concat_push(parts.take(n as int), parts[n as int]);
            assert(text@ =~= "#include \"inc_asm.h\"\n"@ + concat(parts.take(n + 1)));
        }
        n += 1;
    }
    assert(parts.take(n as int) =~= parts);
    OutputFile { path: filename, contents: text, keep_existing: true }
}

/// Appends the lines of one section of the symbol file.
fn push_section_symbols(text: &mut String, section: &ProcessedSection, empty_funcs: bool)
    ensures
        final(text)@ == old(text)@ + section_symbols(section@, empty_funcs),
{
    if section.is_code {
        let keys = sorted_keys(&section.disassembled_funcs);
        let ghost parts = Seq::new(
            funcs_in_order(section@).len(),
            |i: int| symbol_line(funcs_in_order(section@)[i], section.vbase, empty_funcs),
        );
        proof {
            lemma_funcs_in_order(*section, keys@);
            assert(parts.take(0) =~= Seq::empty());
            assert(text@ =~= old(text)@ + concat(parts.take(0)));
        }
        let mut n: usize = 0;
        while n < keys.len()
            invariant
                n <= keys.len(),
                section.is_code,
                keys_list_funcs(*section, keys@),
                parts == Seq::new(
                    funcs_in_order(section@).len(),
                    |i: int| symbol_line(funcs_in_order(section@)[i], section.vbase, empty_funcs),
                ),
                text@ == old(text)@ + concat(parts.take(n as int)),
            decreases keys.len() - n,
        {
            let ghost before = text@;
            match section.disassembled_funcs.get(&keys[n]) {
                Some(func) => {
                    if !stub_wanted(func, empty_funcs) {
                        // the underscore makes the symbol visible from C
                        let vaddr: u32 = virtual_start(func, section.vbase);
                        let symbol = func_symbol_name(vaddr);
                        text.append("_");
                        text.append(symbol.as_str());
                        text.append(" = 0x");
                        push_hex(text, vaddr as u64, 8);
                        text.append(";\n");
                    }
                },
                None => {},
            }
            proof {
                assert(text@ =~= before + parts[n as int]);
                assert(parts.take(n + 1) =~= parts.take(n as int).push(parts[n as int]));
                lemma_concat_push(parts.take(n as int), parts[n as int]);
                assert(text@ =~= old(text)@ + concat(parts.take(n + 1)));
            }
            n += 1;
        }
        assert(parts.take(n as int) =~= parts);
    } else {
        assert(text@ =~= old(text)@ + Seq::<char>::empty());
    }
}

/// The symbol file, named after the segment: the name of every function
/// that is not written as an empty function, bound to its address.
pub fn write_symbols_file(
    config: &Config,
    segment_name: &str,
    processed_sections: &Vec<ProcessedSection>,
) -> (file: OutputFile)
    ensures
        file@ == (OutputFileView {
            path: path_of(config.options.syms_path@, segment_name@, "_syms.txt"@),
            contents: symbols_text(
                section_views(processed_sections@),
                config.options.decomp_empty_funcs,
            ),
            keep_existing: false,
        }),
{
    let filename = join_path(config.options.syms_path.as_str(), segment_name, "_syms.txt");
    let empty_funcs = config.options.decomp_empty_funcs;
    let ghost parts = Seq::new(
        processed_sections@.len(),
        |i: int| section_symbols(section_views(processed_sections@)[i], empty_funcs),
    );
    let mut text = String::new();
    proof {
        assert(parts.take(0) =~= Seq::empty());
        assert(text@ =~= concat(parts.take(0)));
    }
    let mut n: usize = 0;
    while n < processed_sections.len()
        invariant
            n <= processed_sections.len(),
            parts == Seq::new(
                processed_sections@.len(),
                |i: int| section_symbols(section_views(processed_sections@)[i], empty_funcs),
            ),
            text@ == concat(parts.take(n as int)),
        decreases processed_sections.len() - n,
    {
        assert(section_views(processed_sections@)[n as int] == processed_sections@[n as int]@);
        push_section_symbols(&mut text, &processed_sections[n], empty_funcs);
        proof {
            assert(parts.take(n + 1) =~= parts.take(n as int).push(parts[n as int]));
            lemma_concat_push(parts.take(n as int), parts[n as int]);
        }
        n += 1;
    }
    assert(parts.take(n as int) =~= parts);
    OutputFile { path: filename, contents: text, keep_existing: false }
}

/// The address of a segment as the linker script is given it: eight
/// hexadecimal digits.
pub open spec fn load_address(vram: u64) -> Seq<char> {
    hex_upper(vram as nat, 8)
}

/// The linker script of a segment, named after it. It is never written over
/// a file that is there already.
pub fn write_linker_file(config: &Config, segment_name: &str, vram: u64) -> (file: OutputFile)
    ensures
        file@ == (OutputFileView {
            path: path_of(config.options.ld_scripts_path@, segment_name@, ".ld"@),
            contents: ld_script(segment_name@, load_address(vram)) + "\n"@,
            keep_existing: true,
        }),
{
    let filename = join_path(config.options.ld_scripts_path.as_str(), segment_name, ".ld");
    let mut addr = String::new();
    push_hex(&mut addr, vram, 8);
    let mut linker_script = gen_ld_script(segment_name, addr.as_str());
    linker_script.append("\n");
    OutputFile { path: filename, contents: linker_script, keep_existing: true }
}

/// The directories that a run needs: for the listings and their three
/// kinds, for the linker scripts, for the symbol files and for the source.
pub open spec fn needed_dirs(config: Config) -> Seq<Seq<char>> {
    seq![
        config.options.asm_path@,
        config.options.asm_path@ + "/f_nonmat"@,
        config.options.asm_path@ + "/f_match"@,
        config.options.asm_path@ + "/data"@,
        config.options.ld_scripts_path@,
        config.options.syms_path@,
        config.options.src_path@,
    ]
}

/// The directories to make before anything is written.
pub fn output_dirs(config: &Config) -> (dirs: Vec<String>)
    ensures
        texts_of(dirs@) == needed_dirs(*config),
{
    let mut dirs: Vec<String> = Vec::new();
    dirs.push(config.options.asm_path.clone());
    let mut nonmat = config.options.asm_path.clone();
    nonmat.append("/f_nonmat");
    dirs.push(nonmat);
    let mut matched = config.options.asm_path.clone();
    matched.append("/f_match");
    dirs.push(matched);
    let mut data = config.options.asm_path.clone();
    data.append("/data");
    dirs.push(data);
    dirs.push(config.options.ld_scripts_path.clone());
    dirs.push(config.options.syms_path.clone());
    dirs.push(config.options.src_path.clone());
    assert(texts_of(dirs@) =~= needed_dirs(*config));
    dirs
}

/// The files of one segment: the listings of its sections, then the source
/// file, the linker script and the symbol file, each named after the segment.
pub open spec fn segment_plan(
    config: Config,
    segment: Segment,
    sections: Seq<ProcessedSectionView>,
    includes: Seq<Seq<char>>,
) -> Seq<OutputFileView> {
    asm_files(config.options.asm_path@, sections, includes) + seq![
        OutputFileView {
            path: path_of(config.options.src_path@, segment.name@, ".c"@),
            contents: c_file_text(
                config.options.asm_path@,
                sections,
                config.options.decomp_empty_funcs,
            ),
            keep_existing: true,
        },
        OutputFileView {
            path: path_of(config.options.ld_scripts_path@, segment.name@, ".ld"@),
            contents: ld_script(segment.name@, load_address(segment.vram)) + "\n"@,
            keep_existing: true,
        },
        OutputFileView {
            path: path_of(config.options.syms_path@, segment.name@, "_syms.txt"@),
            contents: symbols_text(sections, config.options.decomp_empty_funcs),
            keep_existing: false,
        },
    ]
}

/// Whether every subsegment of the description can be processed.
pub open spec fn config_ok(len: nat, config: Config) -> bool {
    forall|s: int|
        0 <= s < segments_of(config).len() ==> segment_ok(len, #[trigger] segments_of(config)[s])
}

/// All the files of a run over a binary: those of each segment, in the
/// order of the segments.
pub open spec fn planned_files(bytes: Seq<u8>, config: Config, includes: Seq<Seq<char>>) -> Seq<
    OutputFileView,
> {
    concat(
        Seq::new(
            segments_of(config).len(),
            |s: int|
                segment_plan(
                    config,
                    segments_of(config)[s],
                    processed_segment(bytes, segments_of(config)[s]),
                    includes,
                ),
        ),
    )
}

/// Plans the files of a segment from its processed sections and the names
/// that the inclusion markers of the source gave.
pub fn plan_segment(
    config: &Config,
    segment: &Segment,
    processed_sections: &Vec<ProcessedSection>,
    includes: &Vec<String>,
) -> (files: Vec<OutputFile>)
    ensures
        file_views(files@) == segment_plan(
            *config,
            *segment,
            section_views(processed_sections@),
            texts_of(includes@),
        ),
{
    let mut files = asm_outputs(config.options.asm_path.as_str(), processed_sections, includes);
    let ghost listings = file_views(files@);
    let segment_name = segment.name.as_str();
    let source = write_c_file(
        config,
        config.options.src_path.as_str(),
        segment_name,
        config.options.asm_path.as_str(),
        processed_sections,
    );
    let script = write_linker_file(config, segment_name, segment.vram);
    let symbols = write_symbols_file(config, segment_name, processed_sections);
    files.push(source);
    files.push(script);
    files.push(symbols);
    assert(file_views(files@) =~= listings + seq![source@, script@, symbols@]);
    files
}

/// The files of a whole run over a binary: every segment is processed and
/// its output is planned. Gives nothing if a subsegment of the description
/// cannot be processed.
pub fn handle_segments(
    file_contents: &Vec<u8>,
    config: &Config,
    includes: &Vec<String>,
) -> (files: Option<Vec<OutputFile>>)
    ensures
        match files {
            Some(list) => {
                &&& config_ok(file_contents@.len(), *config)
                &&& file_views(list@) == planned_files(
                    file_contents@,
                    *config,
                    texts_of(includes@),
                )
            },
            None => !config_ok(file_contents@.len(), *config),
        },
{
    let ghost parts = Seq::new(
        segments_of(*config).len(),
        |s: int|
            segment_plan(
                *config,
                segments_of(*config)[s],
                processed_segment(file_contents@, segments_of(*config)[s]),
                texts_of(includes@),
            ),
    );
    let mut files: Vec<OutputFile> = Vec::new();
    proof {
        assert(parts.take(0) =~= Seq::empty());
        assert(file_views(files@) =~= concat(parts.take(0)));
    }
    match &config.segments {
        Some(segments) => {
            let mut s: usize = 0;
            while s < segments.len()
                invariant
                    s <= segments.len(),
                    segments@ == segments_of(*config),
                    parts == Seq::new(
                        segments_of(*config).len(),
                        |s: int|
                            segment_plan(
                                *config,
                                segments_of(*config)[s],
                                processed_segment(file_contents@, segments_of(*config)[s]),
                                texts_of(includes@),
                            ),
                    ),
                    forall|i: int|
                        0 <= i < s ==> segment_ok(file_contents@.len(), #[trigger] segments@[i]),
                    file_views(files@) == concat(parts.take(s as int)),
                decreases segments.len() - s,
            {
                let segment = &segments[s];
                match process_segment(file_contents, segment) {
                    Some(processed_sections) => {
                        let ghost before = file_views(files@);
                        let mut part = plan_segment(config, segment, &processed_sections, includes);
                        let ghost added = file_views(part@);
                        files.append(&mut part);
                        proof {
                            assert(file_views(files@) =~= before + added);
                            assert(parts.take(s + 1) =~= parts.take(s as int).push(
                                parts[s as int],
                            ));
                            lemma_concat_push(parts.take(s as int), parts[s as int]);
                        }
                    },
                    None => {
                        return None;
                    },
                }
                s += 1;
            }
            assert(parts.take(s as int) =~= parts);
        },
        None => {},
    }
    Some(files)
}

/// The source files that stand for the first `n` subsegments of a segment:
/// for each subsegment that names a file, that name in the source directory
/// with the ending `.c`.
pub open spec fn segment_sources_upto(src_path: Seq<char>, segment: Segment, n: nat) -> Seq<
    Seq<char>,
>
    decreases n,
{
    if n == 0 {
        Seq::empty()
    } else {
        let before = segment_sources_upto(src_path, segment, (n - 1) as nat);
        match subsegments_of(segment)[n - 1].file {
            Some(name) => before.push(path_of(src_path, name@, ".c"@)),
            None => before,
        }
    }
}

/// The source files that the description names, segment by segment.
pub open spec fn source_paths(config: Config) -> Seq<Seq<char>> {
    concat(
        Seq::new(
            segments_of(config).len(),
            |s: int|
                segment_sources_upto(
                    config.options.src_path@,
                    segments_of(config)[s],
                    subsegments_of(segments_of(config)[s]).len(),
                ),
        ),
    )
}

/// Adds the source files that a segment names to a list.
fn push_segment_sources(config: &Config, segment: &Segment, paths: &mut Vec<String>)
    ensures
        texts_of(final(paths)@) == texts_of(old(paths)@) + segment_sources_upto(
            config.options.src_path@,
            *segment,
            subsegments_of(*segment).len(),
        ),
{
    let ghost src_path = config.options.src_path@;
    assert(texts_of(paths@) =~= texts_of(old(paths)@) + segment_sources_upto(
        src_path,
        *segment,
        0,
    ));
    match &segment.subsegments {
        Some(subsegments) => {
            let mut j: usize = 0;
            while j < subsegments.len()
                invariant
                    j <= subsegments.len(),
                    src_path == config.options.src_path@,
                    subsegments@ == subsegments_of(*segment),
                    texts_of(paths@) == texts_of(old(paths)@) + segment_sources_upto(
                        src_path,
                        *segment,
                        j as nat,
                    ),
                decreases subsegments.len() - j,
            {
                let subseg = &subsegments[j];
                let ghost earlier = texts_of(paths@);
                match &subseg.file {
                    Some(subseg_file) => {
                        let c_filename = join_path(
                            config.options.src_path.as_str(),
                            subseg_file.as_str(),
                            ".c",
                        );
                        paths.push(c_filename);
                        assert(texts_of(paths@) =~= earlier.push(
                            path_of(src_path, subseg_file@, ".c"@),
                        ));
                    },
                    None => {},
                }
                assert(texts_of(paths@) =~= texts_of(old(paths)@) + segment_sources_upto(
                    src_path,
                    *segment,
                    (j + 1) as nat,
                ));
                j += 1;
            }
        },
        None => {},
    }
}

/// The source files in which inclusion markers are to be looked for, in
/// the order of the subsegments that name them.
pub fn source_files(config: &Config) -> (paths: Vec<String>)
    ensures
        texts_of(paths@) == source_paths(*config),
{
    let ghost parts = Seq::new(
        segments_of(*config).len(),
        |s: int|
            segment_sources_upto(
                config.options.src_path@,
                segments_of(*config)[s],
                subsegments_of(segments_of(*config)[s]).len(),
            ),
    );
    let mut paths: Vec<String> = Vec::new();
    proof {
        assert(parts.take(0) =~= Seq::empty());
        assert(texts_of(paths@) =~= concat(parts.take(0)));
    }
    match &config.segments {
        Some(segments) => {
            let mut s: usize = 0;
            while s < segments.len()
                invariant
                    s <= segments.len(),
                    segments@ == segments_of(*config),
                    parts == Seq::new(
                        segments_of(*config).len(),
                        |s: int|
                            segment_sources_upto(
                                config.options.src_path@,
                                segments_of(*config)[s],
                                subsegments_of(segments_of(*config)[s]).len(),
                            ),
                    ),
                    texts_of(paths@) == concat(parts.take(s as int)),
                decreases segments.len() - s,
            {
                push_segment_sources(config, &segments[s], &mut paths);
                proof {
                    assert(parts.take(s + 1) =~= parts.take(s as int).push(parts[s as int]));
                    lemma_concat_push(parts.take(s as int), parts[s as int]);
                }
                s += 1;
            }
            assert(parts.take(s as int) =~= parts);
        },
        None => {},
    }
    paths
}

} // verus!
