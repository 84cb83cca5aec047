//! The steps of examining a library file. The caller does the outside work,
//! one step at a time: it sees whether the file exists, runs the symbol tool,
//! runs the dependency tool, and reports each outcome here. The types make
//! the order: no tool is asked for before the file is known to exist, and
//! the dependency tool only after the symbol tool has ended well.

use crate::detail::{listed_dependencies, listed_symbols, LibDetail};
use crate::error::ReadError;
use crate::lines::lines;
use crate::sorting::lists_all;
use crate::text::strings;
use vstd::prelude::*;
use vstd::string::StringExecFns;

verus! {

/// How the run of a tool ended.
#[derive(Debug, Clone)]
pub enum ToolRun {
    /// The tool could not be started.
    Unavailable,
    /// The tool ran and reported failure.
    Failed,
    /// The tool ended well and wrote this to its standard output.
    Output(Vec<u8>),
}

/// The error with which a run ends the inspection, if it does.
pub open spec fn tool_failure(run: ToolRun) -> Option<ReadError> {
    match run {
        ToolRun::Unavailable => Some(ReadError::ExternalToolUnavailable),
        ToolRun::Failed => Some(ReadError::ExternalToolFailed),
        ToolRun::Output(_) => None,
    }
}

/// What the tool wrote, where it ended well.
pub open spec fn tool_output(run: ToolRun) -> Seq<u8> {
    match run {
        ToolRun::Output(bytes) => bytes@,
        _ => Seq::empty(),
    }
}

/// The command that lists the symbols of the file at `path`.
pub open spec fn symbol_command(path: Seq<char>) -> Seq<Seq<char>> {
    seq!["nm"@, "-g"@, path]
}

/// The command that lists the dependencies of the file at `path`.
pub open spec fn dependency_command(path: Seq<char>) -> Seq<Seq<char>> {
    seq!["objdump"@, "-p"@, path]
}

/// A command line: the program, its option and the file.
fn command_line(program: &str, option: &str, path: &str) -> (r: Vec<String>)
    ensures
        strings(r@) == seq![program@, option@, path@],
{
    let mut out: Vec<String> = Vec::new();
    out.push(String::from_str(program));
    out.push(String::from_str(option));
    out.push(String::from_str(path));
    out
}

/// An inspection whose file exists and whose symbols are yet to be listed.
#[derive(Debug)]
pub struct Inspection {
    path: String,
}

/// An inspection whose symbols are listed and whose dependencies are not.
#[derive(Debug)]
pub struct SymbolsListed {
    path: String,
    symbol_listing: Vec<u8>,
}

impl Inspection {
    /// The path of the file under inspection.
    pub closed spec fn path(&self) -> Seq<char> {
        self.path@
    }

    /// Begins the inspection of the file at `path`, of which the caller has
    /// found out whether it exists. A file that does not exist ends the
    /// inspection before any tool is asked for.
    pub fn begin(path: &str, exists: bool) -> (r: Result<Inspection, ReadError>)
        ensures
            exists ==> r is Ok && r.unwrap().path() == path@,
            !exists ==> r is Err && r.unwrap_err() == ReadError::FileNotFound,
    {
        if exists {
            Ok(Inspection { path: String::from_str(path) })
        } else {
            Err(ReadError::FileNotFound)
        }
    }

    /// The command to run next: the one that lists the symbols.
    pub fn command(&self) -> (r: Vec<String>)
        ensures
            strings(r@) == symbol_command(self.path()),
    {
        command_line("nm", "-g", self.path.as_str())
    }

    /// Takes the outcome of the symbol tool. A tool that could not be
    /// started or that failed ends the inspection.
    pub fn symbols_listed(self, run: ToolRun) -> (r: Result<SymbolsListed, ReadError>)
        ensures
            tool_failure(run) is None ==> r is Ok && r.unwrap().path() == self.path()
                && r.unwrap().symbol_listing() == tool_output(run),
            tool_failure(run) is Some ==> r is Err && r.unwrap_err() == tool_failure(run).unwrap(),
    {
        match run {
            ToolRun::Unavailable => Err(ReadError::ExternalToolUnavailable),
            ToolRun::Failed => Err(ReadError::ExternalToolFailed),
            ToolRun::Output(symbol_listing) => Ok(
                SymbolsListed { path: self.path, symbol_listing },
            ),
        }
    }
}

impl SymbolsListed {
    /// The path of the file under inspection.
    pub closed spec fn path(&self) -> Seq<char> {
        self.path@
    }

    /// What the symbol tool wrote.
    pub closed spec fn symbol_listing(&self) -> Seq<u8> {
        self.symbol_listing@
    }

    /// The command to run next: the one that lists the dependencies.
    pub fn command(&self) -> (r: Vec<String>)
        ensures
            strings(r@) == dependency_command(self.path()),
    {
        command_line("objdump", "-p", self.path.as_str())
    }

    /// Takes the outcome of the dependency tool and ends the inspection: with
    /// what the two listings say of the file, or with the error of a tool
    /// that could not be started or that failed.
    pub fn dependencies_listed(self, run: ToolRun) -> (r: Result<LibDetail, ReadError>)
        ensures
            tool_failure(run) is None ==> r is Ok && r.unwrap().wf() && r.unwrap()@.path
                == self.path(),
            tool_failure(run) is None ==> lists_all(
                r.unwrap()@.symbols,
                listed_symbols(lines(self.symbol_listing())),
            ),
            tool_failure(run) is None ==> lists_all(
                r.unwrap()@.libs,
                listed_dependencies(lines(tool_output(run))),
            ),
            tool_failure(run) is Some ==> r is Err && r.unwrap_err() == tool_failure(run).unwrap(),
    {
        match run {
            ToolRun::Unavailable => Err(ReadError::ExternalToolUnavailable),
            ToolRun::Failed => Err(ReadError::ExternalToolFailed),
            ToolRun::Output(listing) => Ok(
                LibDetail::new(
                    self.path.as_str(),
                    self.symbol_listing.as_slice(),
                    listing.as_slice(),
                ),
            ),
        }
    }
}

} // verus!
