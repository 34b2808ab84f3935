//! Building the index from what a scan of the storage directory found.

use vstd::prelude::*;
use vstd::utf8::decode_utf8;
use vstd::utf8::encode_utf8;
use vstd::utf8::encode_utf8_decode_utf8;
use vstd::utf8::valid_utf8;

use crate::record::text_view;
use crate::record::views;
use crate::record::FileRecord;
use crate::record::FileRecordView;
use crate::store::put_name;
use crate::store::FileStore;

verus! {

/// An entry of the storage directory as the scan read it. Each part is
/// absent where it could not be read: the name where it is not text,
/// `is_dir` where the kind of the entry is not known, the bytes where the
/// content could not be read.
#[derive(Debug, PartialEq, Eq)]
pub struct ScannedEntry {
    pub name: Option<String>,
    pub is_dir: Option<bool>,
    pub bytes: Option<Vec<u8>>,
}

/// The mathematical value of a [`ScannedEntry`].
pub struct ScannedEntryView {
    pub name: Option<Seq<char>>,
    pub is_dir: Option<bool>,
    pub bytes: Option<Seq<u8>>,
}

impl View for ScannedEntry {
    type V = ScannedEntryView;

    open spec fn view(&self) -> ScannedEntryView {
        ScannedEntryView {
            name: text_view(self.name),
            is_dir: self.is_dir,
            bytes: match self.bytes {
                Some(bytes) => Some(bytes@),
                None => None,
            },
        }
    }
}

/// The views of a sequence of entries, in order.
pub open spec fn entry_views(entries: Seq<ScannedEntry>) -> Seq<ScannedEntryView> {
    Seq::new(entries.len(), |i: int| entries[i]@)
}

/// Whether `entry` counts as a stored file: its name is text, and it is
/// known to be no directory.
pub open spec fn is_regular(entry: ScannedEntryView) -> bool {
    entry.name is Some && entry.is_dir == Some(false)
}

/// The files among `entries`, in order. An entry that is a directory, or
/// whose kind or name could not be read, is left out.
pub open spec fn kept(entries: Seq<ScannedEntryView>) -> Seq<ScannedFileView>
    decreases entries.len(),
{
    if entries.len() == 0 {
        Seq::empty()
    } else if is_regular(entries.last()) {
        kept(entries.drop_last()).push(
            ScannedFileView { name: entries.last().name->0, bytes: entries.last().bytes },
        )
    } else {
        kept(entries.drop_last())
    }
}

/// A regular file that the scan came across: its name, and its bytes where
/// they could be read.
#[derive(Debug, PartialEq, Eq)]
pub struct ScannedFile {
    pub name: String,
    pub bytes: Option<Vec<u8>>,
}

/// The mathematical value of a [`ScannedFile`].
pub struct ScannedFileView {
    pub name: Seq<char>,
    pub bytes: Option<Seq<u8>>,
}

impl View for ScannedFile {
    type V = ScannedFileView;

    open spec fn view(&self) -> ScannedFileView {
        ScannedFileView {
            name: self.name@,
            bytes: match self.bytes {
                Some(bytes) => Some(bytes@),
                None => None,
            },
        }
    }
}

/// The views of a sequence of scanned files, in order.
pub open spec fn scanned_views(files: Seq<ScannedFile>) -> Seq<ScannedFileView> {
    Seq::new(files.len(), |i: int| files[i]@)
}

/// The text that `bytes` encode, where they encode one.
pub open spec fn decoded(bytes: Seq<u8>) -> Option<Seq<char>> {
    if valid_utf8(bytes) {
        Some(decode_utf8(bytes))
    } else {
        None
    }
}

/// The records that the scanned `files` are loaded as: a file that could
/// not be read is left out, and a file whose bytes are not text keeps its
/// name and has no content.
pub open spec fn loaded(files: Seq<ScannedFileView>) -> Seq<FileRecordView>
    decreases files.len(),
{
    if files.len() == 0 {
        Seq::empty()
    } else {
        match files.last().bytes {
            Some(bytes) => loaded(files.drop_last()).push(
                FileRecordView { name: files.last().name, content: decoded(bytes) },
            ),
            None => loaded(files.drop_last()),
        }
    }
}

/// The index that holds `records`, a later record overriding an earlier
/// one of the same name.
pub open spec fn index_of(records: Seq<FileRecordView>) -> Map<Seq<char>, Option<Seq<char>>>
    decreases records.len(),
{
    if records.len() == 0 {
        Map::empty()
    } else {
        index_of(records.drop_last()).insert(records.last().name, records.last().content)
    }
}

/// The listing order of the index that holds `records`: each name where it
/// first occurs.
pub open spec fn order_of(records: Seq<FileRecordView>) -> Seq<Seq<char>>
    decreases records.len(),
{
    if records.len() == 0 {
        Seq::empty()
    } else {
        put_name(order_of(records.drop_last()), records.last().name)
    }
}

/// Calls `String::from_utf8` on `bytes`.
///
/// Trusted: the call succeeds exactly on valid UTF-8, and the text it then
/// returns is the one that `bytes` encode.
#[verifier::external_body]
pub(crate) fn decode_text(bytes: Vec<u8>) -> (text: Option<String>)
    ensures
        text is Some <==> valid_utf8(bytes@),
        text matches Some(t) ==> encode_utf8(t@) == bytes@,
{
    match String::from_utf8(bytes) {
        Ok(text) => Some(text),
        Err(_) => None,
    }
}

/// Picks the files out of the entries that the scan read. No entry stops
/// the scan: one that cannot be told to be a file is passed over.
pub fn regular_files(entries: Vec<ScannedEntry>) -> (files: Vec<ScannedFile>)
    ensures
        scanned_views(files@) == kept(entry_views(entries@)),
{
    let ghost all = entry_views(entries@);
    let mut files: Vec<ScannedFile> = Vec::new();
    for entry in it: entries
        invariant
            it.seq() == entries@,
            all == entry_views(entries@),
            scanned_views(files@) == kept(all.take(it.index())),
    {
        assert(all.take(it.index() + 1).drop_last() =~= all.take(it.index()));
        let ScannedEntry { name, is_dir, bytes } = entry;
        match (name, is_dir) {
            (Some(name), Some(false)) => {
                files.push(ScannedFile { name, bytes });
            },
            _ => {},
        }
    }
    assert(all.take(all.len() as int) =~= all);
    files
}

/// Turns what the scan found into records.
pub fn load_all(files: Vec<ScannedFile>) -> (records: Vec<FileRecord>)
    ensures
        views(records@) == loaded(scanned_views(files@)),
{
    let ghost all = scanned_views(files@);
    let mut records: Vec<FileRecord> = Vec::new();
    for file in it: files
        invariant
            it.seq() == files@,
            all == scanned_views(files@),
            views(records@) == loaded(all.take(it.index())),
    {
        assert(all.take(it.index() + 1).drop_last() =~= all.take(it.index()));
        let ScannedFile { name, bytes } = file;
        if let Some(bytes) = bytes {
            let content = decode_text(bytes);
            proof {
                if content is Some {
                    encode_utf8_decode_utf8(content->0@);
                }
            }
            records.push(FileRecord { name, content });
        }
    }
    assert(all.take(all.len() as int) =~= all);
    records
}

/// Builds the index from the records loaded at startup.
pub fn init_store(records: Vec<FileRecord>) -> (store: FileStore)
    ensures
        store@ == index_of(views(records@)),
        store.names() == order_of(views(records@)),
{
    let ghost all = views(records@);
    let mut store = FileStore::new();
    for record in it: records
        invariant
            it.seq() == records@,
            all == views(records@),
            store@ == index_of(all.take(it.index())),
            store.names() == order_of(all.take(it.index())),
    {
        assert(all.take(it.index() + 1).drop_last() =~= all.take(it.index()));
        store.insert(record);
    }
    assert(all.take(all.len() as int) =~= all);
    store
}

} // verus!
