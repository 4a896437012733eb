//! Command line data model: the options the surrounding program accepts,
//! and path arguments.  Path resolution that asks the operating system
//! for the current directory is the surrounding program's concern.
use vstd::prelude::*;

verus! {

/// The options of one run.
#[derive(Debug, Clone)]
pub struct Opt {
    /// Paths to the markdown files; `-` for standard input.
    pub inputs: Vec<FileArg>,
    /// Path to the output file, `-` for standard output; `None` updates
    /// the input file in place.
    pub output: Option<FileArg>,
    /// Directory to execute the scripts under; `None` uses the input
    /// file's directory.
    pub work_dir: Option<String>,
    /// Fail if the output differs from the input.
    pub frozen: bool,
    /// Remove all generated blocks instead of processing.
    pub clean: bool,
}

/// Possible file input: either a file name or `-`.
#[derive(Debug, Clone)]
pub enum FileArg {
    /// Equal to `-`, so standard input or standard output.
    StdHandle,
    File(String),
}

impl FileArg {
    /// Return a `FileArg::File`; never parses `-` specially.
    pub fn from_str_unsafe(s: &str) -> (r: Self)
        ensures
            r matches FileArg::File(p) && p@ == s@,
    {
        FileArg::File(s.to_owned())
    }
}

/// Parent path of an input file: the directory scripts run under.
#[derive(Debug, Clone)]
pub struct Parent(String);

impl Parent {
    /// The path the parent holds, as text.
    pub closed spec fn path(&self) -> Seq<char> {
        self.0@
    }

    /// Convert from a path that is already a parent.
    pub fn from_parent_path_buf(buf: String) -> (r: Self)
        ensures
            r.path() == buf@,
    {
        Parent(buf)
    }

    /// The path the parent holds.
    pub fn as_path_buf(&self) -> (r: &String)
        ensures
            r@ == self.path(),
    {
        &self.0
    }
}

} // verus!
