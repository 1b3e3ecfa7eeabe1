//! A reader for branching stories: a story is a directory of node files; each node file
//! holds a header of branches and, after a `+++` line, the node's text. The library
//! parses node files, builds the stories from a listing of the stories root, and moves a
//! cursor through them along the branches.
pub mod number;
pub mod text;
pub mod story;
pub mod parse;
pub mod load;
pub mod navigator;
