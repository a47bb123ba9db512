//! Work on the file system that the library decides and its caller does.
use vstd::prelude::*;

verus! {

/// Write `content` to the file at `path`.
#[derive(Debug)]
pub struct FileWrite {
    pub path: String,
    pub content: String,
}

/// The view of a write: its path and its content.
pub open spec fn write_view(w: FileWrite) -> (Seq<char>, Seq<char>) {
    (w.path@, w.content@)
}

pub open spec fn writes_view(ws: Seq<FileWrite>) -> Seq<(Seq<char>, Seq<char>)> {
    ws.map_values(|w: FileWrite| write_view(w))
}

} // verus!
