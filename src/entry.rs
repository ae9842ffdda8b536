//! The records read from an archive and the tree built from them.
use vstd::prelude::*;

verus! {

/// A calendar instant in UTC, held as whole seconds since the Unix epoch.
#[derive(Clone, Copy, Debug, PartialEq, Eq, Structural)]
pub struct Timestamp {
    pub secs: u64,
}

/// What an archive record's own type tag says it is.
#[derive(Clone, Copy, Debug, PartialEq, Eq, Structural)]
pub enum EntryKind {
    File,
    Directory,
}

/// One kept archive record: its normalized path (no trailing `/`), size and
/// modification time.
#[derive(Clone, Debug, PartialEq, Eq)]
pub struct RawEntry {
    pub kind: EntryKind,
    pub path: String,
    pub size: u64,
    pub modified: Timestamp,
}

/// What a raw entry holds, with its path as characters.
pub struct RawView {
    pub kind: EntryKind,
    pub path: Seq<char>,
    pub size: u64,
    pub modified: Timestamp,
}

impl View for RawEntry {
    type V = RawView;

    open spec fn view(&self) -> RawView {
        RawView { kind: self.kind, path: self.path@, size: self.size, modified: self.modified }
    }
}

/// The views of a list of raw entries.
pub open spec fn raw_views(raws: Seq<RawEntry>) -> Seq<RawView> {
    raws.map_values(|r: RawEntry| r@)
}

/// A node of the archive tree. A directory holds the entries one level below
/// it, in archive order.
#[derive(Debug, PartialEq, Eq)]
pub enum FileOrDir {
    Dir { path: String, expanded: bool, children: Vec<FileOrDir> },
    File { path: String, size: u64, modified: Timestamp },
}

/// What the program is started with: the archive to open, whether indicator
/// files are listed, and whether diagnostics are written.
#[derive(Clone, Debug, PartialEq, Eq)]
pub struct Args {
    pub tar_file: String,
    pub show_indicator: bool,
    pub debug: bool,
}

/// The path of a node, directory or file.
pub open spec fn entry_path(e: FileOrDir) -> Seq<char> {
    match e {
        FileOrDir::Dir { path, .. } => path@,
        FileOrDir::File { path, .. } => path@,
    }
}

impl FileOrDir {
    /// The node's path from the archive root.
    pub fn path(&self) -> (r: &str)
        ensures
            r@ == entry_path(*self),
    {
        match self {
            FileOrDir::Dir { path, .. } => path.as_str(),
            FileOrDir::File { path, .. } => path.as_str(),
        }
    }

    /// Whether the node is a directory.
    pub fn is_dir(&self) -> (r: bool)
        ensures
            r == (*self is Dir),
    {
        match self {
            FileOrDir::Dir { .. } => true,
            FileOrDir::File { .. } => false,
        }
    }
}

} // verus!
