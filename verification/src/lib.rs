//! What a build of OpenBLAS has produced: the linker flags that its
//! configuration file records, and what a library file that it made holds.
//!
//! - [`LinkInfo`] reads a string of linker flags: the directories to search
//!   and the libraries to link.
//! - [`MakeConf`] reads the configuration file, line by line.
//! - [`LibDetail`] reads what the symbol tool and the dependency tool list of
//!   a library file, and answers whether the library has CBLAS, LAPACK and
//!   LAPACKE and which shared libraries it needs. [`Inspection`] leads
//!   through the steps that get the two listings.
//!
//! All of it works on values at hand, with one exception: `LinkInfo::parse`,
//! and `MakeConf::new` through it, ask the file system about the directories
//! that linker flags name. `LinkInfo::from_lookups` does the same work on
//! answers that the caller has got.

pub mod conf;
pub mod detail;
pub mod error;
pub mod inspect;
pub mod lines;
pub mod link;
pub mod pieces;
mod probe;
pub mod sorting;
pub mod text;

pub use conf::MakeConf;
pub use detail::LibDetail;
pub use error::ReadError;
pub use inspect::{Inspection, SymbolsListed, ToolRun};
pub use link::{LinkInfo, PathLookup};
pub use sorting::as_sorted_vec;
