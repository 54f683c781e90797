use vstd::prelude::*;
use vstd::string::*;
use crate::digest::{content_hash, content_hash_spec, file_id_for, file_id_spec};
use crate::text::{
    contains_str, line_count, lines, lines_spec, remove_all, remove_char, seq_contains, trim, trim_spec,
    views, words, words_spec,
};

verus! {

broadcast use vstd::string::group_string_axioms;

/// What the index records of a file: its identifier, its size in bytes,
/// its number of lines and the digest of its content.
pub struct FileRecord {
    pub file_id: String,
    pub size_bytes: i64,
    pub line_count: i64,
    pub content_hash: String,
}

/// The record of the file at `rel_path` in the project `project_id` whose
/// content is `content`.
pub fn file_record(project_id: &str, rel_path: &str, content: &str) -> (r: FileRecord)
    ensures
        r.file_id@ == file_id_spec(project_id@, rel_path@),
        r.size_bytes == content.len() as i64,
        r.line_count == lines_spec(content@).len() as i64,
        r.content_hash@ == content_hash_spec(content@),
{
    let size = content.len();
    let lines = line_count(content);
    FileRecord {
        file_id: file_id_for(project_id, rel_path),
        size_bytes: #[verifier::truncate] (size as i64),
        line_count: #[verifier::truncate] (lines as i64),
        content_hash: content_hash(content),
    }
}

/// A file whose stored digest equals its current one is skipped.
pub open spec fn is_unchanged_spec(stored_hash: Option<Seq<char>>, current_hash: Seq<char>) -> bool {
    stored_hash == Some(current_hash)
}

/// Whether the file of `record` is already indexed with the same content;
/// `stored_hash` is the digest the index holds for it, if any.
pub fn is_unchanged(stored_hash: &Option<String>, record: &FileRecord) -> (b: bool)
    ensures
        b == is_unchanged_spec(
            match stored_hash {
                Some(h) => Some(h@),
                None => None,
            },
            record.content_hash@,
        ),
{
    match stored_hash {
        Some(h) => *h == record.content_hash,
        None => false,
    }
}

} // verus!

verus! {

/// Files larger than this many bytes (500 KB) are not indexed.
pub const MAX_INDEXED_BYTES: usize = 512000;

/// `std::str::from_utf8`, made owned: the contract claims what its
/// documentation states, success exactly on valid UTF-8, with the text
/// that the bytes encode.
#[verifier::external_body]
fn utf8_text(bytes: &[u8]) -> (s: Option<String>)
    ensures
        s is Some <==> vstd::utf8::valid_utf8(bytes@),
        s matches Some(t) ==> t@ == vstd::utf8::decode_utf8(bytes@),
{
    match std::str::from_utf8(bytes) {
        Ok(t) => Some(t.to_string()),
        Err(_) => None,
    }
}

/// A binary file: one holding a NUL byte or bytes that are not UTF-8.
pub open spec fn is_binary_spec(bytes: Seq<u8>) -> bool {
    bytes.contains(0u8) || !vstd::utf8::valid_utf8(bytes)
}

/// The text of a file that is indexed: files larger than
/// `MAX_INDEXED_BYTES` and binary files are skipped.
pub open spec fn indexable_spec(bytes: Seq<u8>) -> Option<Seq<char>> {
    if bytes.len() > MAX_INDEXED_BYTES || is_binary_spec(bytes) {
        None
    } else {
        Some(vstd::utf8::decode_utf8(bytes))
    }
}

/// The text to index for a file with content `bytes`, or `None` when the
/// file is skipped (see `indexable_spec`).
pub fn indexable_content(bytes: &[u8]) -> (text: Option<String>)
    ensures
        match text {
            Some(t) => indexable_spec(bytes@) == Some(t@),
            None => indexable_spec(bytes@) is None,
        },
{
    if bytes.len() > MAX_INDEXED_BYTES {
        return None;
    }
    let mut i: usize = 0;
    while i < bytes.len()
        invariant
            i <= bytes@.len(),
            forall|j: int| 0 <= j < i ==> bytes@[j] != 0u8,
        decreases bytes@.len() - i,
    {
        if bytes[i] == 0u8 {
            assert(bytes@.contains(0u8)) by {
                assert(bytes@[i as int] == 0u8);
            }
            return None;
        }
        i = i + 1;
    }
    assert(!bytes@.contains(0u8));
    utf8_text(bytes)
}

/// Every text file of at most 512,000 bytes is indexed as its text: a
/// file is skipped only for its size, a NUL byte, or bytes that are not
/// UTF-8. Tabs and other control characters do not make a file binary.
pub proof fn lemma_text_files_indexed(bytes: Seq<u8>)
    requires
        bytes.len() <= 512_000,
        !bytes.contains(0u8),
        vstd::utf8::valid_utf8(bytes),
    ensures
        indexable_spec(bytes) == Some(vstd::utf8::decode_utf8(bytes)),
{
}

/// A file over 512,000 bytes, or one holding a NUL byte, is never indexed.
pub proof fn lemma_skipped_files(bytes: Seq<u8>)
    requires
        bytes.len() > 512_000 || bytes.contains(0u8) || !vstd::utf8::valid_utf8(bytes),
    ensures
        indexable_spec(bytes) is None,
{
}

/// A marker comment found in a file: the line (from 1) and its trimmed
/// text.
pub struct TodoItem {
    pub line_number: usize,
    pub content: String,
}

/// A line that holds a `TODO`, `FIXME` or `HACK` marker.
pub open spec fn has_marker(line: Seq<char>) -> bool {
    seq_contains(line, "TODO"@) || seq_contains(line, "FIXME"@) || seq_contains(line, "HACK"@)
}

/// The marker lines among `ls`, each with its number (counted from 1) and
/// its trimmed text.
pub open spec fn todos_spec(ls: Seq<Seq<char>>) -> Seq<(int, Seq<char>)>
    decreases ls.len(),
{
    if ls.len() == 0 {
        seq![]
    } else {
        let rest = todos_spec(ls.drop_last());
        if has_marker(ls.last()) {
            rest.push((ls.len() as int, trim_spec(ls.last())))
        } else {
            rest
        }
    }
}

/// Line number and text of each marker.
pub open spec fn todo_views(v: Seq<TodoItem>) -> Seq<(int, Seq<char>)> {
    v.map_values(|t: TodoItem| (t.line_number as int, t.content@))
}

/// The `TODO`, `FIXME` and `HACK` markers of `content`, line by line.
pub fn extract_todos(content: &str) -> (todos: Vec<TodoItem>)
    ensures
        todo_views(todos@) == todos_spec(lines_spec(content@)),
{
    let ls = lines(content);
    let mut todos: Vec<TodoItem> = Vec::new();
    let mut i: usize = 0;
    assert(views(ls@).take(0) =~= Seq::<Seq<char>>::empty());
    while i < ls.len()
        invariant
            i <= ls@.len(),
            views(ls@) == lines_spec(content@),
            todo_views(todos@) == todos_spec(views(ls@).take(i as int)),
        decreases ls@.len() - i,
    {
        assert(views(ls@).take(i + 1).drop_last() =~= views(ls@).take(i as int));
        assert(views(ls@).take(i + 1).last() == ls@[i as int]@);
        let line = ls[i].as_str();
        if contains_str(line, "TODO") || contains_str(line, "FIXME") || contains_str(line, "HACK") {
            let ghost prev = todos@;
            todos.push(TodoItem { line_number: i + 1, content: trim(line) });
            assert(todo_views(todos@) =~= todo_views(prev).push(((i + 1) as int, trim_spec(line@))));
        }
        i = i + 1;
    }
    assert(views(ls@).take(ls@.len() as int) =~= views(ls@));
    todos
}

/// An import statement found in a file: the line (from 1), the keyword
/// that opens it (`use`, `import` or `from`) and the module or path it
/// names.
pub struct ImportRef {
    pub line_number: usize,
    pub kind: String,
    pub target: String,
}

/// A word without semicolons and quotes.
pub open spec fn bare_spec(w: Seq<char>) -> Seq<char> {
    remove_all(remove_all(remove_all(w, ';'), '\''), '"')
}

/// The import of a line, as keyword and target: a line whose first word
/// is `use` (Rust) or `from` (Python) names its target in its second word;
/// a line whose first word is `import` (Python, TypeScript) names it in its
/// last word (`import os`, `import { a } from './b';`). The target is taken
/// without semicolons and quotes; a line with fewer than two words, or
/// whose target is then empty, imports nothing.
pub open spec fn import_of(line: Seq<char>) -> Option<(Seq<char>, Seq<char>)> {
    let ws = words_spec(line);
    if ws.len() < 2 {
        None
    } else {
        let t = if ws[0] == "import"@ {
            bare_spec(ws.last())
        } else {
            bare_spec(ws[1])
        };
        if t.len() == 0 {
            None
        } else if ws[0] == "use"@ || ws[0] == "import"@ || ws[0] == "from"@ {
            Some((ws[0], t))
        } else {
            None
        }
    }
}

/// The imports among the lines `ls`, each with its line number (from 1).
pub open spec fn imports_spec(ls: Seq<Seq<char>>) -> Seq<(int, Seq<char>, Seq<char>)>
    decreases ls.len(),
{
    if ls.len() == 0 {
        seq![]
    } else {
        let rest = imports_spec(ls.drop_last());
        match import_of(ls.last()) {
            Some((k, t)) => rest.push((ls.len() as int, k, t)),
            None => rest,
        }
    }
}

/// Line number, keyword and target of each import.
pub open spec fn import_views(v: Seq<ImportRef>) -> Seq<(int, Seq<char>, Seq<char>)> {
    v.map_values(|r: ImportRef| (r.line_number as int, r.kind@, r.target@))
}

fn same_text(s: &str, t: &str) -> (b: bool)
    ensures
        b == (s@ == t@),
{
    s.to_owned() == t.to_owned()
}

/// The import of one line (see `import_of`).
pub fn import_in_line(line: &str) -> (r: Option<(String, String)>)
    ensures
        match r {
            Some((k, t)) => import_of(line@) == Some((k@, t@)),
            None => import_of(line@) is None,
        },
{
    let ws = words(line);
    if ws.len() < 2 {
        return None;
    }
    let first = ws[0].as_str();
    let is_import = same_text(first, "import");
    let w = if is_import {
        ws[ws.len() - 1].as_str()
    } else {
        ws[1].as_str()
    };
    let a = remove_char(w, ';');
    let b = remove_char(a.as_str(), '\'');
    let t = remove_char(b.as_str(), '"');
    if t.as_str().unicode_len() == 0 {
        return None;
    }
    if same_text(first, "use") || is_import || same_text(first, "from") {
        proof {
            reveal_strlit("use");
            reveal_strlit("import");
            reveal_strlit("from");
        }
        Some((first.to_owned(), t))
    } else {
        None
    }
}

/// The import statements of `content`, line by line.
pub fn extract_imports(content: &str) -> (imports: Vec<ImportRef>)
    ensures
        import_views(imports@) == imports_spec(lines_spec(content@)),
{
    let ls = lines(content);
    let mut imports: Vec<ImportRef> = Vec::new();
    let mut i: usize = 0;
    assert(views(ls@).take(0) =~= Seq::<Seq<char>>::empty());
    while i < ls.len()
        invariant
            i <= ls@.len(),
            views(ls@) == lines_spec(content@),
            import_views(imports@) == imports_spec(views(ls@).take(i as int)),
        decreases ls@.len() - i,
    {
        assert(views(ls@).take(i + 1).drop_last() =~= views(ls@).take(i as int));
        assert(views(ls@).take(i + 1).last() == ls@[i as int]@);
        match import_in_line(ls[i].as_str()) {
            Some((kind, target)) => {
                let ghost prev = imports@;
                imports.push(ImportRef { line_number: i + 1, kind, target });
                assert(import_views(imports@) =~= import_views(prev).push(
                    ((i + 1) as int, imports@.last().kind@, imports@.last().target@),
                ));
            },
            None => {},
        }
        i = i + 1;
    }
    assert(views(ls@).take(ls@.len() as int) =~= views(ls@));
    imports
}

} // verus!
