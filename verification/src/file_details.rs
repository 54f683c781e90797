use vstd::prelude::*;

verus! {

/// A symbol of an indexed file, with its line range.
pub struct FileSymbol {
    pub name: String,
    pub kind: String,
    pub start_line: i64,
    pub end_line: i64,
}

/// What the index holds about one file: its size, its line count and its
/// symbols in order of their first line.
pub struct FileDetails {
    pub relative_path: String,
    pub size_bytes: i64,
    pub line_count: i64,
    pub symbols: Vec<FileSymbol>,
}

} // verus!
