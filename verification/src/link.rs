//! Linker flags: the search paths and library names that a flag string
//! gives.

use crate::error::ReadError;
use crate::pieces::split;
use crate::probe::lookup;
use crate::sorting::{
    as_sorted_vec, lemma_lists_set_unique, lemma_strictly_sorted_distinct, lists_set, sorted,
    strictly_sorted, to_strings,
};
use crate::text::{
    as_slices, buffers, from_chars, split_chars, starts_with, strings, texts, to_chars,
};
use vstd::prelude::*;
use vstd::slice::slice_subrange;

verus! {

/// The flag that names a directory to search: `-L`.
pub open spec fn path_flag() -> Seq<char> {
    "-L"@
}

/// The flag that names a library: `-l`.
pub open spec fn lib_flag() -> Seq<char> {
    "-l"@
}

/// The tokens of a flag string: what stands between its single spaces.
pub open spec fn tokens(line: Seq<char>) -> Seq<Seq<char>> {
    split(line, ' ')
}

/// The values of the tokens that begin with `flag`, in the order of the
/// tokens: of each such token what follows the flag, as it stands. The value
/// may be empty, and may itself begin with the flag.
pub open spec fn flag_values(tokens: Seq<Seq<char>>, flag: Seq<char>) -> Seq<Seq<char>>
    decreases tokens.len(),
{
    if tokens.len() == 0 {
        Seq::empty()
    } else if flag.is_prefix_of(tokens.last()) {
        flag_values(tokens.drop_last(), flag).push(tokens.last().skip(flag.len() as int))
    } else {
        flag_values(tokens.drop_last(), flag)
    }
}

/// The directories that a flag string asks to search, as written.
pub open spec fn path_candidates(line: Seq<char>) -> Seq<Seq<char>> {
    flag_values(tokens(line), path_flag())
}

/// The library names that a flag string gives, as often as it gives them.
pub open spec fn lib_names(line: Seq<char>) -> Seq<Seq<char>> {
    flag_values(tokens(line), lib_flag())
}

/// What the file system says of one directory.
#[derive(Debug, Clone)]
pub enum PathLookup {
    /// Nothing of that name exists.
    Missing,
    /// The directory exists, and this is its canonical path.
    Found(String),
    /// The directory exists but has no canonical path that can be had.
    Unresolved,
}

/// What two answers of the file system amount to: whether something of the
/// name exists, and the canonical path that was had of it. Without the first
/// the second does not count.
pub open spec fn answered(exists: bool, canonical: Option<String>) -> PathLookup {
    if !exists {
        PathLookup::Missing
    } else {
        match canonical {
            Some(path) => PathLookup::Found(path),
            None => PathLookup::Unresolved,
        }
    }
}

impl PathLookup {
    /// Puts two answers of the file system together: a directory that does
    /// not exist is missing, whatever `canonical` holds; one that exists is
    /// found under its canonical path, or unresolved where there is none.
    pub fn from_answers(exists: bool, canonical: Option<String>) -> (r: PathLookup)
        ensures
            r == answered(exists, canonical),
    {
        if !exists {
            PathLookup::Missing
        } else {
            match canonical {
                Some(path) => PathLookup::Found(path),
                None => PathLookup::Unresolved,
            }
        }
    }
}

/// Whether one of the lookups found a directory that could not be resolved.
pub open spec fn any_unresolved(lookups: Seq<PathLookup>) -> bool {
    exists|k: int| 0 <= k < lookups.len() && #[trigger] lookups[k] is Unresolved
}

/// The canonical paths of the directories that were found, in order.
pub open spec fn found_paths(lookups: Seq<PathLookup>) -> Seq<Seq<char>>
    decreases lookups.len(),
{
    if lookups.len() == 0 {
        Seq::empty()
    } else {
        match lookups.last() {
            PathLookup::Found(p) => found_paths(lookups.drop_last()).push(p@),
            _ => found_paths(lookups.drop_last()),
        }
    }
}

/// The search paths and libraries of one flag string.
#[derive(Debug, Clone)]
pub struct LinkInfo {
    /// The directories to search that exist, in canonical form, ascending.
    pub search_paths: Vec<String>,
    /// The names of the libraries, ascending.
    pub libs: Vec<String>,
}

/// What a `LinkInfo` holds, as character sequences.
pub struct LinkInfoView {
    pub search_paths: Seq<Seq<char>>,
    pub libs: Seq<Seq<char>>,
}

impl View for LinkInfo {
    type V = LinkInfoView;

    open spec fn view(&self) -> LinkInfoView {
        LinkInfoView { search_paths: strings(self.search_paths@), libs: strings(self.libs@) }
    }
}

/// `r` is what parsing `line` gives when the file system answers `lookups`
/// for the directories found: an error where a directory exists and cannot
/// be resolved, else the set of the canonical paths and the set of the
/// library names, each listed in ascending order.
pub open spec fn parse_outcome(
    line: Seq<char>,
    lookups: Seq<PathLookup>,
    r: Result<LinkInfo, ReadError>,
) -> bool {
    match r {
        Ok(info) => {
            &&& !any_unresolved(lookups)
            &&& lists_set(info@.search_paths, found_paths(lookups).to_set())
            &&& lists_set(info@.libs, lib_names(line).to_set())
        },
        Err(e) => any_unresolved(lookups) && e == ReadError::IOError,
    }
}

/// `r` is what parsing `line` gives for some answers of the file system, one
/// for each directory that `line` names.
pub open spec fn is_parse_of(line: Seq<char>, r: Result<LinkInfo, ReadError>) -> bool {
    exists|lookups: Seq<PathLookup>|
        lookups.len() == path_candidates(line).len() && #[trigger] parse_outcome(line, lookups, r)
}

/// The values of the tokens that begin with `flag`.
fn values_of<'a>(tokens: &Vec<&'a [char]>, flag: &[char]) -> (r: Vec<&'a [char]>)
    ensures
        texts(r@) == flag_values(texts(tokens@), flag@),
{
    let mut out: Vec<&'a [char]> = Vec::new();
    let mut i: usize = 0;
    let ghost all = texts(tokens@);
    while i < tokens.len()
        invariant
            all == texts(tokens@),
            i <= tokens.len(),
            texts(out@) == flag_values(all.take(i as int), flag@),
        decreases tokens.len() - i,
    {
        let token = tokens[i];
        proof {
            assert(all.take(i + 1).drop_last() == all.take(i as int));
        }
        if starts_with(token, flag) {
            out.push(slice_subrange(token, flag.len(), token.len()));
        }
        i += 1;
    }
    assert(all.take(tokens.len() as int) == all);
    out
}

/// The canonical paths that the lookups found, as a set in ascending
/// order, unless one of the directories could not be resolved.
pub fn resolve(lookups: &Vec<PathLookup>) -> (r: Result<Vec<String>, ReadError>)
    ensures
        r is Ok <==> !any_unresolved(lookups@),
        r is Ok ==> lists_set(strings(r.unwrap()@), found_paths(lookups@).to_set()),
        r is Err ==> r.unwrap_err() == ReadError::IOError,
{
    let mut found: Vec<Vec<char>> = Vec::new();
    let mut i: usize = 0;
    while i < lookups.len()
        invariant
            i <= lookups.len(),
            buffers(found@) == found_paths(lookups@.take(i as int)),
            forall|k: int| 0 <= k < i ==> !(#[trigger] lookups@[k] is Unresolved),
        decreases lookups.len() - i,
    {
        proof {
            assert(lookups@.take(i + 1).drop_last() == lookups@.take(i as int));
        }
        match &lookups[i] {
            PathLookup::Missing => {},
            PathLookup::Found(path) => {
                found.push(to_chars(path.as_str()));
            },
            PathLookup::Unresolved => {
                return Err(ReadError::IOError);
            },
        }
        i += 1;
    }
    assert(lookups@.take(lookups.len() as int) == lookups@);
    let names = as_slices(&found);
    Ok(as_sorted_vec(&names))
}

impl Default for LinkInfo {
    /// No search path and no library.
    fn default() -> (r: Self)
        ensures
            r.wf(),
            r@.search_paths.len() == 0,
            r@.libs.len() == 0,
    {
        LinkInfo { search_paths: Vec::new(), libs: Vec::new() }
    }
}

impl LinkInfo {
    /// Both lists are strictly ascending: sorted, and nothing twice.
    pub open spec fn wf(&self) -> bool {
        strictly_sorted(self@.search_paths) && strictly_sorted(self@.libs)
    }

    /// The directories that `line` asks to search, as written, in order: the
    /// paths to look up before `from_lookups` is called.
    pub fn search_path_candidates(line: &str) -> (r: Vec<String>)
        ensures
            strings(r@) == path_candidates(line@),
    {
        let chars = to_chars(line);
        let flag = to_chars("-L");
        let tokens = split_chars(chars.as_slice(), ' ');
        let values = values_of(&tokens, flag.as_slice());
        to_strings(&values)
    }

    /// Parses `line` where the file system has already been asked: `lookups`
    /// holds its answers for the directories that `line` names.
    pub fn from_lookups(line: &str, lookups: &Vec<PathLookup>) -> (r: Result<LinkInfo, ReadError>)
        ensures
            parse_outcome(line@, lookups@, r),
            r is Ok ==> r.unwrap().wf(),
    {
        let chars = to_chars(line);
        let tokens = split_chars(chars.as_slice(), ' ');
        Self::assemble(&tokens, lookups)
    }

    /// Puts the answers of the file system and the libraries among `tokens`
    /// together.
    fn assemble(tokens: &Vec<&[char]>, lookups: &Vec<PathLookup>) -> (r: Result<
        LinkInfo,
        ReadError,
    >)
        ensures
            r is Ok <==> !any_unresolved(lookups@),
            r is Ok ==> lists_set(r.unwrap()@.search_paths, found_paths(lookups@).to_set()),
            r is Ok ==> lists_set(
                r.unwrap()@.libs,
                flag_values(texts(tokens@), lib_flag()).to_set(),
            ),
            r is Err ==> r.unwrap_err() == ReadError::IOError,
    {
        let search_paths = match resolve(lookups) {
            Ok(paths) => paths,
            Err(e) => {
                return Err(e);
            },
        };
        let flag = to_chars("-l");
        let names = values_of(tokens, flag.as_slice());
        let libs = as_sorted_vec(&names);
        Ok(LinkInfo { search_paths, libs })
    }

    /// Parses the linker flags of `line`. A directory given by `-L` that does
    /// not exist is left out; one that exists is kept in canonical form; one
    /// that exists and cannot be resolved fails the call. Libraries given by
    /// `-l` are kept as written. Other tokens are ignored. The result is what
    /// `from_lookups` gives for the answers of the file system, one for each
    /// directory that `line` names.
    pub fn parse(line: &str) -> (r: Result<LinkInfo, ReadError>)
        ensures
            is_parse_of(line@, r),
            r is Ok ==> r.unwrap().wf() && lists_set(r.unwrap()@.libs, lib_names(line@).to_set()),
            r is Ok ==> sorted(r.unwrap()@.libs) && r.unwrap()@.libs.no_duplicates(),
            r is Ok ==> sorted(r.unwrap()@.search_paths)
                && r.unwrap()@.search_paths.no_duplicates(),
            r is Ok ==> r.unwrap()@.search_paths.len() <= path_candidates(line@).len(),
            r is Err ==> r.unwrap_err() == ReadError::IOError && path_candidates(line@).len() > 0,
    {
        let chars = to_chars(line);
        Self::parse_chars(chars.as_slice())
    }

    /// `parse` for a flag string that is at hand as characters.
    pub fn parse_chars(line: &[char]) -> (r: Result<LinkInfo, ReadError>)
        ensures
            is_parse_of(line@, r),
            r is Ok ==> r.unwrap().wf() && lists_set(r.unwrap()@.libs, lib_names(line@).to_set()),
            r is Ok ==> sorted(r.unwrap()@.libs) && r.unwrap()@.libs.no_duplicates(),
            r is Ok ==> sorted(r.unwrap()@.search_paths)
                && r.unwrap()@.search_paths.no_duplicates(),
            r is Ok ==> r.unwrap()@.search_paths.len() <= path_candidates(line@).len(),
            r is Err ==> r.unwrap_err() == ReadError::IOError && path_candidates(line@).len() > 0,
    {
        let tokens = split_chars(line, ' ');
        let flag = to_chars("-L");
        let candidates = values_of(&tokens, flag.as_slice());
        let mut lookups: Vec<PathLookup> = Vec::new();
        let mut i: usize = 0;
        while i < candidates.len()
            invariant
                i <= candidates.len(),
                lookups.len() == i,
            decreases candidates.len() - i,
        {
            let path = from_chars(candidates[i]);
            lookups.push(lookup(path.as_str()));
            i += 1;
        }
        let r = Self::assemble(&tokens, &lookups);
        proof {
            assert(parse_outcome(line@, lookups@, r));
            lemma_parse_facts(line@, r);
        }
        r
    }
}

/// What holds of every result of parsing, whatever the file system answered:
/// the libraries are those of the flag string; both lists are ascending and
/// hold nothing twice; no more search paths come out than directories were
/// named; and the call fails only where a directory was named.
pub proof fn lemma_parse_facts(line: Seq<char>, r: Result<LinkInfo, ReadError>)
    requires
        is_parse_of(line, r),
    ensures
        r is Ok ==> r.unwrap().wf() && lists_set(r.unwrap()@.libs, lib_names(line).to_set()),
        r is Ok ==> sorted(r.unwrap()@.libs) && r.unwrap()@.libs.no_duplicates(),
        r is Ok ==> sorted(r.unwrap()@.search_paths) && r.unwrap()@.search_paths.no_duplicates(),
        r is Ok ==> r.unwrap()@.search_paths.len() <= path_candidates(line).len(),
        r is Err ==> r.unwrap_err() == ReadError::IOError && path_candidates(line).len() > 0,
{
    let lookups = choose|lookups: Seq<PathLookup>|
        lookups.len() == path_candidates(line).len() && #[trigger] parse_outcome(line, lookups, r);
    if r is Ok {
        let info = r.unwrap()@;
        lemma_strictly_sorted_distinct(info.libs);
        lemma_strictly_sorted_distinct(info.search_paths);
        lemma_found_paths_len(lookups);
        info.search_paths.unique_seq_to_set();
        found_paths(lookups).lemma_cardinality_of_set();
    }
}

/// Parsing is determined by the flag string and the answers of the file
/// system: two results for the same string and the same answers are equal,
/// list for list.
pub proof fn lemma_parse_deterministic(
    line: Seq<char>,
    lookups: Seq<PathLookup>,
    a: Result<LinkInfo, ReadError>,
    b: Result<LinkInfo, ReadError>,
)
    requires
        parse_outcome(line, lookups, a),
        parse_outcome(line, lookups, b),
    ensures
        a is Ok <==> b is Ok,
        a is Ok ==> a.unwrap()@ == b.unwrap()@,
        a is Err ==> a.unwrap_err() == b.unwrap_err(),
{
    if a is Ok {
        let x = a.unwrap()@;
        let y = b.unwrap()@;
        lemma_lists_set_unique(x.search_paths, y.search_paths, found_paths(lookups).to_set());
        lemma_lists_set_unique(x.libs, y.libs, lib_names(line).to_set());
    }
}

/// No more paths are found than lookups were made.
pub proof fn lemma_found_paths_len(lookups: Seq<PathLookup>)
    ensures
        found_paths(lookups).len() <= lookups.len(),
    decreases lookups.len(),
{
    if lookups.len() > 0 {
        lemma_found_paths_len(lookups.drop_last());
    }
}

/// Token `k` begins with `flag`, and `value` is what follows the flag.
pub open spec fn token_gives(
    tokens: Seq<Seq<char>>,
    flag: Seq<char>,
    k: int,
    value: Seq<char>,
) -> bool {
    0 <= k < tokens.len() && flag.is_prefix_of(tokens[k]) && value == tokens[k].skip(
        flag.len() as int,
    )
}

/// A value is among the values of a flag exactly if some token gives it.
pub proof fn lemma_flag_values_contains(tokens: Seq<Seq<char>>, flag: Seq<char>, value: Seq<char>)
    ensures
        flag_values(tokens, flag).contains(value) <==> exists|k: int|
            token_gives(tokens, flag, k, value),
    decreases tokens.len(),
{
    if tokens.len() > 0 {
        let init = tokens.drop_last();
        let n = tokens.len() - 1;
        lemma_flag_values_contains(init, flag, value);
        let values = flag_values(tokens, flag);
        let before = flag_values(init, flag);
        assert(forall|k: int| 0 <= k < n ==> token_gives(init, flag, k, value) == token_gives(
            tokens,
            flag,
            k,
            value,
        ));
        if values.contains(value) {
            let i = choose|i: int| 0 <= i < values.len() && values[i] == value;
            if i < before.len() {
                assert(before[i] == value);
            } else {
                assert(token_gives(tokens, flag, n, value));
            }
        }
        if exists|k: int| token_gives(tokens, flag, k, value) {
            let k = choose|k: int| token_gives(tokens, flag, k, value);
            if k < n {
                assert(token_gives(init, flag, k, value));
                let i = choose|i: int| 0 <= i < before.len() && before[i] == value;
                assert(values[i] == value);
            } else {
                assert(values[values.len() - 1] == value);
            }
        }
    }
}

/// The order of the tokens, and how often each occurs, does not matter to
/// the list of libraries: two flag strings with the same tokens, however
/// arranged, give the same list.
pub proof fn lemma_libs_ignore_order(
    line1: Seq<char>,
    line2: Seq<char>,
    libs1: Seq<Seq<char>>,
    libs2: Seq<Seq<char>>,
)
    requires
        tokens(line1).to_set() == tokens(line2).to_set(),
        lists_set(libs1, lib_names(line1).to_set()),
        lists_set(libs2, lib_names(line2).to_set()),
    ensures
        libs1 == libs2,
{
    assert forall|v: Seq<char>| lib_names(line1).contains(v) <==> lib_names(line2).contains(
        v,
    ) by {
        lemma_flag_values_contains(tokens(line1), lib_flag(), v);
        lemma_flag_values_contains(tokens(line2), lib_flag(), v);
        if lib_names(line1).contains(v) {
            lemma_value_carries(tokens(line1), tokens(line2), lib_flag(), v);
        }
        if lib_names(line2).contains(v) {
            lemma_value_carries(tokens(line2), tokens(line1), lib_flag(), v);
        }
    }
    assert(lib_names(line1).to_set() == lib_names(line2).to_set());
    lemma_lists_set_unique(libs1, libs2, lib_names(line1).to_set());
}

/// A value that some token of one list gives is given by a token of every
/// list with the same set of tokens.
proof fn lemma_value_carries(
    a: Seq<Seq<char>>,
    b: Seq<Seq<char>>,
    flag: Seq<char>,
    value: Seq<char>,
)
    requires
        a.to_set() == b.to_set(),
        exists|k: int| token_gives(a, flag, k, value),
    ensures
        exists|k: int| token_gives(b, flag, k, value),
{
    let k = choose|k: int| token_gives(a, flag, k, value);
    assert(a.to_set().contains(a[k]));
    assert(b.contains(a[k]));
    let m = choose|m: int| 0 <= m < b.len() && b[m] == a[k];
    assert(token_gives(b, flag, m, value));
}

} // verus!
