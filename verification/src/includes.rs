//! Inclusion markers: the lines by which handwritten source pulls in a
//! function that is still assembly, and the names they mention.
//!
//! A marker has the shape `INCLUDE_ASM("<path>", <file>, <symbol>)`, also
//! spelt `INCLUDE_ASM_NO_ALIGN`. It is found by a pattern on one line.

use vstd::prelude::*;

verus! {

/// What the regular expression `pattern` captures in its group number
/// `group` at its first match in `text`: nothing where the pattern does not
/// compile, does not match, or the group takes no part in the match.
pub uninterp spec fn regex_group(pattern: Seq<char>, text: Seq<char>, group: nat) -> Option<
    Seq<char>,
>;

/// The pattern of an inclusion marker. Its third group is the symbol.
pub open spec fn marker_pattern() -> Seq<char> {
    "INCLUDE_ASM(?:_NO_ALIGN)?\\(\"(.*?)\", (.*?), (.*?)\\)"@
}

/// The symbol that the first inclusion marker on a line names.
pub open spec fn marked_symbol(line: Seq<char>) -> Option<Seq<char>> {
    regex_group(marker_pattern(), line, 3)
}

/// The texts of a list of strings.
pub open spec fn texts_of(list: Seq<String>) -> Seq<Seq<char>> {
    Seq::new(list.len(), |i: int| list[i]@)
}

/// The list of names after one more line has been looked at: a symbol that
/// was found comes at its end.
pub open spec fn with_symbol(names: Seq<Seq<char>>, found: Option<Seq<char>>) -> Seq<Seq<char>> {
    match found {
        Some(name) => names.push(name),
        None => names,
    }
}

/// The symbols that the markers on the first `n` lines name, in the order
/// of the lines.
pub open spec fn symbols_upto(lines: Seq<Seq<char>>, n: nat) -> Seq<Seq<char>>
    decreases n,
{
    if n == 0 {
        Seq::empty()
    } else {
        with_symbol(symbols_upto(lines, (n - 1) as nat), marked_symbol(lines[n - 1]))
    }
}

/// Calls `regex::Regex::new` on the pattern, `Regex::captures` on the text
/// and `Captures::get` on the group, and copies the text of the match. The
/// contract gives that result a name, as a function of the three arguments;
/// it says nothing of what the result is.
#[verifier::external_body]
fn capture_group(pattern: &str, text: &str, group: usize) -> (found: Option<String>)
    ensures
        match found {
            Some(part) => regex_group(pattern@, text@, group as nat) == Some(part@),
            None => regex_group(pattern@, text@, group as nat).is_none(),
        },
{
    let compiled = match regex::Regex::new(pattern) {
        Ok(compiled) => compiled,
        Err(_) => return None,
    };
    match compiled.captures(text) {
        Some(groups) => match groups.get(group) {
            Some(part) => Some(part.as_str().to_string()),
            None => None,
        },
        None => None,
    }
}

/// Adds the symbol found on a line, if any, to the names found so far.
pub fn record_symbol(found: Option<String>, names: &mut Vec<String>)
    ensures
        texts_of(final(names)@) == with_symbol(
            texts_of(old(names)@),
            match found {
                Some(name) => Some(name@),
                None => None,
            },
        ),
{
    match found {
        Some(name) => {
            names.push(name);
            assert(texts_of(names@) =~= texts_of(old(names)@).push(name@));
        },
        None => {},
    }
}

/// The symbols that the inclusion markers in the lines of a source file
/// name, in the order of the lines. A line counts for its first marker.
pub fn find_include_asm(lines: &Vec<String>) -> (names: Vec<String>)
    ensures
        texts_of(names@) == symbols_upto(texts_of(lines@), lines@.len()),
{
    let mut result: Vec<String> = Vec::new();
    assert(texts_of(result@) =~= Seq::empty());
    let mut n: usize = 0;
    while n < lines.len()
        invariant
            n <= lines.len(),
            texts_of(result@) == symbols_upto(texts_of(lines@), n as nat),
        decreases lines.len() - n,
    {
        let found = capture_group(
            "INCLUDE_ASM(?:_NO_ALIGN)?\\(\"(.*?)\", (.*?), (.*?)\\)",
            lines[n].as_str(),
            3,
        );
        record_symbol(found, &mut result);
        n += 1;
    }
    result
}

/// Whether a name is among the names found.
pub fn is_included(includes: &Vec<String>, name: &String) -> (found: bool)
    ensures
        found == texts_of(includes@).contains(name@),
{
    let mut n: usize = 0;
    while n < includes.len()
        invariant
            n <= includes.len(),
            forall|i: int| 0 <= i < n ==> texts_of(includes@)[i] != name@,
        decreases includes.len() - n,
    {
        if includes[n] == *name {
            assert(texts_of(includes@)[n as int] == name@);
            return true;
        }
        n += 1;
    }
    false
}

} // verus!
