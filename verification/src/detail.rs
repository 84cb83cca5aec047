//! What a built library holds: the symbols it defines and the shared
//! libraries it needs, as two tools list them.

use crate::lines::{byte_slices, decode_line, line_text, lines, split_lines, text_of};
use crate::pieces::{find_char, position};
use crate::sorting::{lemma_same_items_same_set, lists_all, sorted, sorted_strings};
use crate::text::{
    as_slices, buffers, fields, same_chars, split_fields, starts_with, strings, to_chars, trim,
    trim_chars,
};
use vstd::prelude::*;
use vstd::slice::{slice_subrange, slice_to_vec};
use vstd::string::StringExecFns;

verus! {

/// The mark of a symbol that is global and defined in the code section.
pub open spec fn text_mark() -> Seq<char> {
    "T"@
}

/// The word that begins a line which names a needed library.
pub open spec fn needed_mark() -> Seq<char> {
    "NEEDED"@
}

/// The symbol that a line of the symbol listing gives: the line has exactly
/// three fields, an address, the mark of a global code symbol and the name.
pub open spec fn symbol_of(line: Seq<u8>) -> Option<Seq<char>> {
    match line_text(line) {
        Some(text) => {
            let parts = fields(text);
            if parts.len() == 3 && parts[1] == text_mark() {
                Some(parts[2])
            } else {
                None
            }
        },
        None => None,
    }
}

/// The library that a line of the dependency listing gives: the line, white
/// space at its ends apart, begins with the mark, and the name is what
/// follows the mark, again without white space at its ends.
pub open spec fn dependency_of(line: Seq<u8>) -> Option<Seq<char>> {
    match line_text(line) {
        Some(text) => {
            let entry = trim(text);
            if needed_mark().is_prefix_of(entry) {
                Some(trim(entry.skip(needed_mark().len() as int)))
            } else {
                None
            }
        },
        None => None,
    }
}

/// The symbols that the lines of a symbol listing give, in order.
pub open spec fn listed_symbols(lines: Seq<Seq<u8>>) -> Seq<Seq<char>>
    decreases lines.len(),
{
    if lines.len() == 0 {
        Seq::empty()
    } else {
        match symbol_of(lines.last()) {
            Some(name) => listed_symbols(lines.drop_last()).push(name),
            None => listed_symbols(lines.drop_last()),
        }
    }
}

/// The libraries that the lines of a dependency listing give, in order.
pub open spec fn listed_dependencies(lines: Seq<Seq<u8>>) -> Seq<Seq<char>>
    decreases lines.len(),
{
    if lines.len() == 0 {
        Seq::empty()
    } else {
        match dependency_of(lines.last()) {
            Some(name) => listed_dependencies(lines.drop_last()).push(name),
            None => listed_dependencies(lines.drop_last()),
        }
    }
}

/// Some name begins with `prefix`.
pub open spec fn any_begins_with(names: Seq<Seq<char>>, prefix: Seq<char>) -> bool {
    exists|i: int| 0 <= i < names.len() && prefix.is_prefix_of(#[trigger] names[i])
}

/// A file name up to its first `.`.
pub open spec fn stem(name: Seq<char>) -> Seq<char> {
    name.take(position(name, '.') as int)
}

/// Some name has the stem `wanted`.
pub open spec fn any_stem_is(names: Seq<Seq<char>>, wanted: Seq<char>) -> bool {
    exists|i: int| 0 <= i < names.len() && stem(#[trigger] names[i]) == wanted
}

/// Reads the symbol that one line of a symbol listing gives.
pub fn read_symbol(line: &[u8]) -> (r: Option<Vec<char>>)
    ensures
        text_of(r) == symbol_of(line@),
{
    match decode_line(line) {
        Some(text) => {
            let parts = split_fields(text.as_slice());
            if parts.len() != 3 {
                return None;
            }
            let mark = to_chars("T");
            if same_chars(parts[1], mark.as_slice()) {
                Some(slice_to_vec(parts[2]))
            } else {
                None
            }
        },
        None => None,
    }
}

/// Reads the library that one line of a dependency listing gives.
pub fn read_dependency(line: &[u8]) -> (r: Option<Vec<char>>)
    ensures
        text_of(r) == dependency_of(line@),
{
    match decode_line(line) {
        Some(text) => {
            let entry = trim_chars(text.as_slice());
            let mark = to_chars("NEEDED");
            if starts_with(entry, mark.as_slice()) {
                Some(slice_to_vec(trim_chars(slice_subrange(entry, mark.len(), entry.len()))))
            } else {
                None
            }
        },
        None => None,
    }
}

/// The symbols of a symbol listing, in the order of its lines.
fn symbols_in(listing: &[u8]) -> (r: Vec<Vec<char>>)
    ensures
        buffers(r@) == listed_symbols(lines(listing@)),
{
    let all = split_lines(listing);
    let mut out: Vec<Vec<char>> = Vec::new();
    let mut i: usize = 0;
    let ghost ls = lines(listing@);
    while i < all.len()
        invariant
            ls == byte_slices(all@),
            ls.len() == all.len(),
            i <= all.len(),
            buffers(out@) == listed_symbols(ls.take(i as int)),
        decreases all.len() - i,
    {
        proof {
            assert(ls.take(i + 1).drop_last() == ls.take(i as int));
        }
        if let Some(name) = read_symbol(all[i]) {
            out.push(name);
        }
        i += 1;
    }
    assert(ls.take(all.len() as int) == ls);
    out
}

/// The libraries of a dependency listing, in the order of its lines.
fn dependencies_in(listing: &[u8]) -> (r: Vec<Vec<char>>)
    ensures
        buffers(r@) == listed_dependencies(lines(listing@)),
{
    let all = split_lines(listing);
    let mut out: Vec<Vec<char>> = Vec::new();
    let mut i: usize = 0;
    let ghost ls = lines(listing@);
    while i < all.len()
        invariant
            ls == byte_slices(all@),
            ls.len() == all.len(),
            i <= all.len(),
            buffers(out@) == listed_dependencies(ls.take(i as int)),
        decreases all.len() - i,
    {
        proof {
            assert(ls.take(i + 1).drop_last() == ls.take(i as int));
        }
        if let Some(name) = read_dependency(all[i]) {
            out.push(name);
        }
        i += 1;
    }
    assert(ls.take(all.len() as int) == ls);
    out
}

/// Whether some name begins with `prefix`.
fn any_with_prefix(names: &Vec<String>, prefix: &str) -> (r: bool)
    ensures
        r == any_begins_with(strings(names@), prefix@),
{
    let wanted = to_chars(prefix);
    let mut i: usize = 0;
    while i < names.len()
        invariant
            i <= names.len(),
            wanted@ == prefix@,
            forall|k: int| 0 <= k < i ==> !prefix@.is_prefix_of(#[trigger] strings(names@)[k]),
        decreases names.len() - i,
    {
        let name = to_chars(names[i].as_str());
        assert(strings(names@)[i as int] == name@);
        if starts_with(name.as_slice(), wanted.as_slice()) {
            return true;
        }
        i += 1;
    }
    false
}

/// A library file and what two tools say of it.
#[derive(Debug, Clone)]
pub struct LibDetail {
    /// The path of the file.
    path: String,
    /// The shared libraries that the file needs, ascending; none for a
    /// static library.
    libs: Vec<String>,
    /// The global symbols in the code section of the file, ascending.
    symbols: Vec<String>,
}

/// What a `LibDetail` holds, as character sequences.
pub struct LibDetailView {
    pub path: Seq<char>,
    pub libs: Seq<Seq<char>>,
    pub symbols: Seq<Seq<char>>,
}

impl View for LibDetail {
    type V = LibDetailView;

    closed spec fn view(&self) -> LibDetailView {
        LibDetailView {
            path: self.path@,
            libs: strings(self.libs@),
            symbols: strings(self.symbols@),
        }
    }
}

impl LibDetail {
    /// Both lists are in ascending order.
    pub open spec fn wf(&self) -> bool {
        sorted(self@.libs) && sorted(self@.symbols)
    }

    /// Puts together what is known of the library at `path`: the symbols
    /// that `symbol_listing` gives and the libraries that
    /// `dependency_listing` gives, each in ascending order, with what is
    /// listed several times kept that often.
    pub fn new(path: &str, symbol_listing: &[u8], dependency_listing: &[u8]) -> (r: LibDetail)
        ensures
            r.wf(),
            r@.path == path@,
            lists_all(r@.symbols, listed_symbols(lines(symbol_listing@))),
            lists_all(r@.libs, listed_dependencies(lines(dependency_listing@))),
    {
        let found = symbols_in(symbol_listing);
        let symbols = sorted_strings(&as_slices(&found));
        let needed = dependencies_in(dependency_listing);
        let libs = sorted_strings(&as_slices(&needed));
        LibDetail { path: String::from_str(path), libs, symbols }
    }

    /// The path of the file.
    pub fn path(&self) -> (r: &str)
        ensures
            r@ == self@.path,
    {
        self.path.as_str()
    }

    /// The shared libraries that the file needs.
    pub fn libs(&self) -> (r: &Vec<String>)
        ensures
            strings(r@) == self@.libs,
    {
        &self.libs
    }

    /// The global code symbols of the file.
    pub fn symbols(&self) -> (r: &Vec<String>)
        ensures
            strings(r@) == self@.symbols,
    {
        &self.symbols
    }

    /// Whether the library has the C interface of BLAS: a symbol that begins
    /// with `cblas_`.
    pub fn has_cblas(&self) -> (r: bool)
        ensures
            r == any_begins_with(self@.symbols, "cblas_"@),
    {
        any_with_prefix(&self.symbols, "cblas_")
    }

    /// Whether the library has LAPACK, for which the symbol `dsyev_` stands.
    pub fn has_lapack(&self) -> (r: bool)
        ensures
            r == self@.symbols.contains("dsyev_"@),
    {
        let wanted = to_chars("dsyev_");
        let mut i: usize = 0;
        while i < self.symbols.len()
            invariant
                i <= self.symbols.len(),
                wanted@ == "dsyev_"@,
                forall|k: int| 0 <= k < i ==> strings(self.symbols@)[k] != "dsyev_"@,
            decreases self.symbols.len() - i,
        {
            let name = to_chars(self.symbols[i].as_str());
            assert(strings(self.symbols@)[i as int] == name@);
            if same_chars(name.as_slice(), wanted.as_slice()) {
                return true;
            }
            i += 1;
        }
        false
    }

    /// Whether the library has the C interface of LAPACK: a symbol that
    /// begins with `LAPACKE_`.
    pub fn has_lapacke(&self) -> (r: bool)
        ensures
            r == any_begins_with(self@.symbols, "LAPACKE_"@),
    {
        any_with_prefix(&self.symbols, "LAPACKE_")
    }

    /// Whether the library needs the shared library `name`: one of its
    /// dependencies, cut at its first `.`, is `lib` followed by `name`.
    pub fn has_lib(&self, name: &str) -> (r: bool)
        ensures
            r == any_stem_is(self@.libs, "lib"@ + name@),
    {
        let mut wanted = to_chars("lib");
        let mut rest = to_chars(name);
        wanted.append(&mut rest);
        let mut i: usize = 0;
        while i < self.libs.len()
            invariant
                i <= self.libs.len(),
                wanted@ == "lib"@ + name@,
                forall|k: int| 0 <= k < i ==> stem(#[trigger] strings(self.libs@)[k]) != wanted@,
            decreases self.libs.len() - i,
        {
            let lib = to_chars(self.libs[i].as_str());
            assert(strings(self.libs@)[i as int] == lib@);
            let end = find_char(lib.as_slice(), '.');
            proof {
                crate::pieces::lemma_position(lib@, '.');
            }
            if same_chars(slice_subrange(lib.as_slice(), 0, end), wanted.as_slice()) {
                return true;
            }
            i += 1;
        }
        false
    }
}

/// A name that begins with `prefix` in one list is in every list with the
/// same set of names.
proof fn lemma_begins_with_carries(a: Seq<Seq<char>>, b: Seq<Seq<char>>, prefix: Seq<char>)
    requires
        a.to_set() == b.to_set(),
        any_begins_with(a, prefix),
    ensures
        any_begins_with(b, prefix),
{
    let i = choose|i: int| 0 <= i < a.len() && prefix.is_prefix_of(#[trigger] a[i]);
    assert(a.to_set().contains(a[i]));
    let j = choose|j: int| 0 <= j < b.len() && b[j] == a[i];
}

/// A name with the stem `wanted` in one list is in every list with the same
/// set of names.
proof fn lemma_stem_carries(a: Seq<Seq<char>>, b: Seq<Seq<char>>, wanted: Seq<char>)
    requires
        a.to_set() == b.to_set(),
        any_stem_is(a, wanted),
    ensures
        any_stem_is(b, wanted),
{
    let i = choose|i: int| 0 <= i < a.len() && stem(#[trigger] a[i]) == wanted;
    assert(a.to_set().contains(a[i]));
    let j = choose|j: int| 0 <= j < b.len() && b[j] == a[i];
}

/// What is asked of a library is answered by what its listing holds, in
/// whatever order: the names in ascending order give the same answers as the
/// names as listed.
pub proof fn lemma_answers_follow_listing(
    ordered: Seq<Seq<char>>,
    listed: Seq<Seq<char>>,
    probe: Seq<char>,
)
    requires
        lists_all(ordered, listed),
    ensures
        ordered.contains(probe) == listed.contains(probe),
        any_begins_with(ordered, probe) == any_begins_with(listed, probe),
        any_stem_is(ordered, probe) == any_stem_is(listed, probe),
{
    lemma_same_items_same_set(ordered, listed);
    assert(ordered.to_set().contains(probe) == listed.to_set().contains(probe));
    if any_begins_with(ordered, probe) {
        lemma_begins_with_carries(ordered, listed, probe);
    }
    if any_begins_with(listed, probe) {
        lemma_begins_with_carries(listed, ordered, probe);
    }
    if any_stem_is(ordered, probe) {
        lemma_stem_carries(ordered, listed, probe);
    }
    if any_stem_is(listed, probe) {
        lemma_stem_carries(listed, ordered, probe);
    }
}

} // verus!
