//! Browse the contents of a tar archive as a tree of directories and files.
pub mod archive;
pub mod entry;
pub mod path;
pub mod tree;
pub mod nav;
pub mod app;
