//! The settings of a run.

use vstd::prelude::*;

verus! {

/// What is done with an image once its orientation is known.
#[derive(Debug, PartialEq, Eq)]
pub enum Mode {
    /// It is moved below `output_dir`, into the directory of its orientation.
    Move { output_dir: String },
    /// It stays in its directory and gets the label of its orientation as a
    /// prefix of its file name.
    Rename,
}

/// The settings of one run. They are made once and only read after that.
#[derive(Debug, PartialEq, Eq)]
pub struct Opt {
    /// Move or rename.
    pub mode: Mode,
    /// Whether directories below the input directory are searched too.
    pub recursive: bool,
    /// Whether a file that is in the way at a destination may be replaced.
    pub overwrite: bool,
}

} // verus!
