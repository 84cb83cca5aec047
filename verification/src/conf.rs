//! The configuration file that a build of the library leaves behind: lines of
//! the form `KEY=VALUE`.

use crate::error::ReadError;
use crate::lines::{byte_slices, decode_line, line_text, lines, split_lines};
use crate::link::{is_parse_of, path_candidates, LinkInfo};
use crate::pieces::split;
use crate::text::{from_chars, same_chars, split_chars, to_chars};
use vstd::prelude::*;

verus! {

/// The key and the value of a line's text, where it holds `=` exactly once.
pub open spec fn entry_of(text: Seq<char>) -> Option<(Seq<char>, Seq<char>)> {
    let parts = split(text, '=');
    if parts.len() == 2 {
        Some((parts[0], parts[1]))
    } else {
        None
    }
}

/// How a single line reads: as a key with its value, as nothing where the
/// line is empty, or not at all, with the reason: the line is no text, or it
/// holds no `=` or more than one.
pub open spec fn reading(line: Seq<u8>) -> Result<Option<(Seq<char>, Seq<char>)>, ReadError> {
    match line_text(line) {
        None => Err(ReadError::IOError),
        Some(text) => if text.len() == 0 {
            Ok(None)
        } else if entry_of(text) is None {
            Err(ReadError::MalformedConfigLine)
        } else {
            Ok(entry_of(text))
        },
    }
}

/// A reading with its strings as character sequences.
pub open spec fn reading_view(r: Result<Option<(String, String)>, ReadError>) -> Result<
    Option<(Seq<char>, Seq<char>)>,
    ReadError,
> {
    match r {
        Ok(Some((key, value))) => Ok(Some((key@, value@))),
        Ok(None) => Ok(None),
        Err(e) => Err(e),
    }
}

/// The key and the value that a line gives, if it gives any.
pub open spec fn entry(line: Seq<u8>) -> Option<(Seq<char>, Seq<char>)> {
    match reading(line) {
        Ok(Some(e)) => Some(e),
        _ => None,
    }
}

/// Line `k` gives `key`.
pub open spec fn gives(lines: Seq<Seq<u8>>, k: int, key: Seq<char>) -> bool {
    0 <= k < lines.len() && entry(lines[k]) is Some && entry(lines[k]).unwrap().0 == key
}

/// The value of the last of `lines` that gives `key`.
pub open spec fn last_value(lines: Seq<Seq<u8>>, key: Seq<char>) -> Option<Seq<char>>
    decreases lines.len(),
{
    if lines.len() == 0 {
        None
    } else {
        match entry(lines.last()) {
            Some((k, v)) if k == key => Some(v),
            _ => last_value(lines.drop_last(), key),
        }
    }
}

/// The key of the operating system's name.
pub open spec fn os_name_key() -> Seq<char> {
    "OSNAME"@
}

/// The key whose presence says that there is no Fortran.
pub open spec fn no_fortran_key() -> Seq<char> {
    "NOFORTRAN"@
}

/// The key of the linker flags for C.
pub open spec fn c_flags_key() -> Seq<char> {
    "CEXTRALIB"@
}

/// The key of the linker flags for Fortran.
pub open spec fn f_flags_key() -> Seq<char> {
    "FEXTRALIB"@
}

/// `info` is what the last line that gives `key` parses to, or is empty
/// where no line gives `key`.
pub open spec fn flags_read(lines: Seq<Seq<u8>>, key: Seq<char>, info: LinkInfo) -> bool {
    match last_value(lines, key) {
        Some(value) => is_parse_of(value, Ok(info)),
        None => info@.search_paths.len() == 0 && info@.libs.len() == 0,
    }
}

/// Line `k` gives linker flags that name a directory, so that reading it
/// asks the file system.
pub open spec fn names_directory(lines: Seq<Seq<u8>>, k: int) -> bool {
    &&& gives(lines, k, c_flags_key()) || gives(lines, k, f_flags_key())
    &&& path_candidates(entry(lines[k]).unwrap().1).len() > 0
}

/// What a configuration file says of a build.
#[derive(Debug, Clone)]
pub struct MakeConf {
    /// The operating system's name; empty where the file gives none.
    pub os_name: String,
    /// Whether the build is without Fortran.
    pub no_fortran: bool,
    /// What to link a C program with.
    pub c_extra_libs: LinkInfo,
    /// What to link a Fortran program with.
    pub f_extra_libs: LinkInfo,
}

/// The four keys differ from one another.
proof fn lemma_keys_differ()
    ensures
        os_name_key() != no_fortran_key(),
        os_name_key() != c_flags_key(),
        os_name_key() != f_flags_key(),
        no_fortran_key() != c_flags_key(),
        no_fortran_key() != f_flags_key(),
        c_flags_key() != f_flags_key(),
{
    reveal_strlit("OSNAME");
    reveal_strlit("NOFORTRAN");
    reveal_strlit("CEXTRALIB");
    reveal_strlit("FEXTRALIB");
    assert(no_fortran_key()[0] == 'N');
    assert(c_flags_key()[0] == 'C');
    assert(f_flags_key()[0] == 'F');
}

impl Default for MakeConf {
    /// No name, Fortran present, nothing to link with.
    fn default() -> (r: Self)
        ensures
            r.wf(),
            r.os_name@.len() == 0,
            !r.no_fortran,
            r.c_extra_libs@.search_paths.len() == 0,
            r.c_extra_libs@.libs.len() == 0,
            r.f_extra_libs@.search_paths.len() == 0,
            r.f_extra_libs@.libs.len() == 0,
    {
        MakeConf {
            os_name: String::new(),
            no_fortran: false,
            c_extra_libs: LinkInfo::default(),
            f_extra_libs: LinkInfo::default(),
        }
    }
}

impl MakeConf {
    /// `self` is what `lines` say: for each key the last line that gives it
    /// counts; Fortran is absent exactly if a line gives its key, whatever
    /// the value.
    pub open spec fn reads(&self, lines: Seq<Seq<u8>>) -> bool {
        &&& self.os_name@ == match last_value(lines, os_name_key()) {
            Some(value) => value,
            None => Seq::empty(),
        }
        &&& self.no_fortran == last_value(lines, no_fortran_key()) is Some
        &&& flags_read(lines, c_flags_key(), self.c_extra_libs)
        &&& flags_read(lines, f_flags_key(), self.f_extra_libs)
    }

    /// The lists of both sets of linker flags are strictly ascending.
    pub open spec fn wf(&self) -> bool {
        self.c_extra_libs.wf() && self.f_extra_libs.wf()
    }

    /// Whether the build has Fortran.
    pub fn fortran_enabled(&self) -> (r: bool)
        ensures
            r == !self.no_fortran,
    {
        !self.no_fortran
    }

    /// Reads one line of a configuration file: its key and value, nothing for
    /// an empty line, or the reason why the line says nothing.
    pub fn read_line(line: &[u8]) -> (r: Result<Option<(String, String)>, ReadError>)
        ensures
            reading_view(r) == reading(line@),
    {
        match decode_line(line) {
            None => Err(ReadError::IOError),
            Some(text) => {
                if text.len() == 0 {
                    return Ok(None);
                }
                let parts = split_chars(text.as_slice(), '=');
                if parts.len() != 2 {
                    return Err(ReadError::MalformedConfigLine);
                }
                Ok(Some((from_chars(parts[0]), from_chars(parts[1]))))
            },
        }
    }

    /// Reads the content of a configuration file. Lines that are no text,
    /// empty lines, lines that do not hold `=` exactly once and lines with a
    /// key other than the four that count are passed over. The call fails
    /// only where linker flags name a directory that exists and cannot be
    /// resolved.
    pub fn new(content: &[u8]) -> (r: Result<MakeConf, ReadError>)
        ensures
            r is Ok ==> r.unwrap().wf() && r.unwrap().reads(lines(content@)),
            r is Err ==> r.unwrap_err() == ReadError::IOError,
            r is Err ==> exists|k: int| names_directory(lines(content@), k),
    {
        let all = split_lines(content);
        let os_key = to_chars("OSNAME");
        let no_fortran_key = to_chars("NOFORTRAN");
        let c_key = to_chars("CEXTRALIB");
        let f_key = to_chars("FEXTRALIB");
        let mut conf = MakeConf::default();
        let mut i: usize = 0;
        let ghost ls = lines(content@);
        assert(conf.os_name@ == Seq::<char>::empty());
        while i < all.len()
            invariant
                ls == lines(content@),
                ls == byte_slices(all@),
                ls.len() == all.len(),
                i <= all.len(),
                os_key@ == os_name_key(),
                no_fortran_key@ == self::no_fortran_key(),
                c_key@ == c_flags_key(),
                f_key@ == f_flags_key(),
                conf.wf(),
                conf.reads(ls.take(i as int)),
            decreases all.len() - i,
        {
            let line = all[i];
            proof {
                lemma_keys_differ();
                assert(ls.take(i + 1).drop_last() == ls.take(i as int));
            }
            if let Some(text) = decode_line(line) {
                let parts = split_chars(text.as_slice(), '=');
                if parts.len() == 2 {
                    let key = parts[0];
                    let value = parts[1];
                    if same_chars(key, os_key.as_slice()) {
                        conf.os_name = from_chars(value);
                    } else if same_chars(key, no_fortran_key.as_slice()) {
                        conf.no_fortran = true;
                    } else {
                        let for_c = same_chars(key, c_key.as_slice());
                        if for_c || same_chars(key, f_key.as_slice()) {
                            match LinkInfo::parse_chars(value) {
                                Ok(info) => {
                                    if for_c {
                                        conf.c_extra_libs = info;
                                    } else {
                                        conf.f_extra_libs = info;
                                    }
                                },
                                Err(e) => {
                                    assert(names_directory(ls, i as int));
                                    return Err(e);
                                },
                            }
                        }
                    }
                }
            }
            i += 1;
        }
        assert(ls.take(all.len() as int) == ls);
        Ok(conf)
    }
}

/// Line `k` is the last of `lines` that gives `key`.
pub open spec fn gives_last(lines: Seq<Seq<u8>>, k: int, key: Seq<char>) -> bool {
    gives(lines, k, key) && forall|j: int| k < j < lines.len() ==> !gives(lines, j, key)
}

/// A key has a value exactly if some line gives it, and the value is that of
/// the last such line.
pub proof fn lemma_last_value(lines: Seq<Seq<u8>>, key: Seq<char>)
    ensures
        last_value(lines, key) is Some <==> exists|k: int| gives(lines, k, key),
        forall|k: int| #[trigger]
            gives_last(lines, k, key) ==> last_value(lines, key) == Some(
                entry(lines[k]).unwrap().1,
            ),
    decreases lines.len(),
{
    if lines.len() > 0 {
        let init = lines.drop_last();
        let n = lines.len() - 1;
        lemma_last_value(init, key);
        assert(forall|k: int| 0 <= k < n ==> gives(init, k, key) == gives(lines, k, key));
        if last_value(init, key) is Some {
            let k = choose|k: int| gives(init, k, key);
            assert(gives(lines, k, key));
        } else if !gives(lines, n, key) {
            assert(forall|k: int| !gives(init, k, key) ==> !gives(lines, k, key));
        }
        assert forall|k: int| #[trigger] gives_last(lines, k, key) implies last_value(lines, key)
            == Some(entry(lines[k]).unwrap().1) by {
            if k < n {
                assert(!gives(lines, n, key));
                assert(gives_last(init, k, key));
            }
        }
    }
}

/// Fortran is there unless a line says otherwise: a configuration read from
/// lines of which none gives the key `NOFORTRAN` has Fortran, and one read
/// from lines of which one gives it, with whatever value, has none.
pub proof fn lemma_fortran_by_default(lines: Seq<Seq<u8>>, conf: MakeConf)
    requires
        conf.reads(lines),
    ensures
        conf.no_fortran <==> exists|k: int| gives(lines, k, no_fortran_key()),
{
    lemma_last_value(lines, no_fortran_key());
}

} // verus!
