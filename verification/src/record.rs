//! File records: a name and, where it is known, the text stored under it.

use vstd::prelude::*;

verus! {

/// A named blob of text.
///
/// `content` is absent where only the name matters (a listing), and for a
/// file found on disk whose bytes are not text.
#[derive(Debug, PartialEq, Eq)]
pub struct FileRecord {
    pub name: String,
    pub content: Option<String>,
}

/// The mathematical value of a [`FileRecord`].
pub struct FileRecordView {
    pub name: Seq<char>,
    pub content: Option<Seq<char>>,
}

/// The view of an optional text.
pub open spec fn text_view(text: Option<String>) -> Option<Seq<char>> {
    match text {
        Some(t) => Some(t@),
        None => None,
    }
}

impl View for FileRecord {
    type V = FileRecordView;

    open spec fn view(&self) -> FileRecordView {
        FileRecordView { name: self.name@, content: text_view(self.content) }
    }
}

/// The views of a sequence of records, in order.
pub open spec fn views(records: Seq<FileRecord>) -> Seq<FileRecordView> {
    Seq::new(records.len(), |i: int| records[i]@)
}

/// Copies an optional text.
pub fn clone_text(text: &Option<String>) -> (out: Option<String>)
    ensures
        text_view(out) == text_view(*text),
{
    match text {
        Some(t) => Some(t.clone()),
        None => None,
    }
}

impl Clone for FileRecord {
    fn clone(&self) -> (out: Self)
        ensures
            out@ == self@,
    {
        FileRecord { name: self.name.clone(), content: clone_text(&self.content) }
    }
}

impl FileRecord {
    /// A record that carries its content.
    pub fn new(name: String, content: String) -> (out: Self)
        ensures
            out@ == (FileRecordView { name: name@, content: Some(content@) }),
    {
        FileRecord { name, content: Some(content) }
    }

    /// A record that carries a name only, as a listing shows it.
    pub fn name_only(name: String) -> (out: Self)
        ensures
            out@ == (FileRecordView { name: name@, content: None }),
    {
        FileRecord { name, content: None }
    }
}

} // verus!
