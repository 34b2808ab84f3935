//! The in-memory index of stored files.
//!
//! The index maps each stored name to the content last put under it. It is
//! the only thing that reads are served from; whoever owns the durable copy
//! writes that first and updates the index afterwards.

use vstd::prelude::*;

use crate::record::views;
use crate::record::FileRecord;
use crate::record::FileRecordView;

verus! {

/// The index: one record per stored name.
pub struct FileStore {
    files: Vec<FileRecord>,
}

/// The names of `records`, in order.
pub open spec fn names_of(records: Seq<FileRecordView>) -> Seq<Seq<char>> {
    Seq::new(records.len(), |i: int| records[i].name)
}

/// The listing order after `name` was put: a new name goes to the end, a
/// known name stays where it is.
pub open spec fn put_name(names: Seq<Seq<char>>, name: Seq<char>) -> Seq<Seq<char>> {
    if names.contains(name) {
        names
    } else {
        names.push(name)
    }
}

/// What a listing shows for `names`: one record per name, without content.
pub open spec fn listing(names: Seq<Seq<char>>) -> Seq<FileRecordView> {
    Seq::new(names.len(), |i: int| FileRecordView { name: names[i], content: None })
}

/// Some position at which `records` holds `name`.
spec fn position(records: Seq<FileRecordView>, name: Seq<char>) -> int {
    choose|i: int| 0 <= i < records.len() && records[i].name == name
}

/// The mapping that `records` stand for.
spec fn mapping(records: Seq<FileRecordView>) -> Map<Seq<char>, Option<Seq<char>>> {
    Map::new(
        |name: Seq<char>| names_of(records).contains(name),
        |name: Seq<char>| records[position(records, name)].content,
    )
}

/// Where names are distinct, a name is found only at its own position.
proof fn lemma_position(records: Seq<FileRecordView>, i: int)
    requires
        names_of(records).no_duplicates(),
        0 <= i < records.len(),
    ensures
        position(records, records[i].name) == i,
{
    let p = position(records, records[i].name);
    assert(names_of(records)[p] == names_of(records)[i]);
}

/// Replacing the record at `i` by one of the same name changes the mapping
/// at that name only.
proof fn lemma_mapping_replace(records: Seq<FileRecordView>, i: int, record: FileRecordView)
    requires
        names_of(records).no_duplicates(),
        0 <= i < records.len(),
        records[i].name == record.name,
    ensures
        names_of(records.update(i, record)) == names_of(records),
        mapping(records.update(i, record)) == mapping(records).insert(record.name, record.content),
{
    let after = records.update(i, record);
    assert(names_of(after) =~= names_of(records));
    assert(names_of(records)[i] == record.name);
    assert forall|name: Seq<char>| names_of(records).contains(name) implies #[trigger] mapping(
        after,
    )[name] == mapping(records).insert(record.name, record.content)[name] by {
        let p = position(records, name);
        lemma_position(after, p);
        if name == record.name {
            lemma_position(after, i);
        }
    }
}

/// Appending a record with a new name adds that name to the mapping.
proof fn lemma_mapping_push(records: Seq<FileRecordView>, record: FileRecordView)
    requires
        names_of(records).no_duplicates(),
        !names_of(records).contains(record.name),
    ensures
        names_of(records.push(record)) == names_of(records).push(record.name),
        names_of(records.push(record)).no_duplicates(),
        mapping(records.push(record)) == mapping(records).insert(record.name, record.content),
{
    let after = records.push(record);
    assert(names_of(after) =~= names_of(records).push(record.name));
    assert forall|name: Seq<char>| names_of(after).contains(name) implies #[trigger] mapping(
        after,
    )[name] == mapping(records).insert(record.name, record.content)[name] by {
        if name == record.name {
            lemma_position(after, records.len() as int);
        } else {
            let p = position(records, name);
            lemma_position(after, p);
        }
    }
    assert forall|name: Seq<char>| names_of(after).contains(name) <==> names_of(records).contains(
        name,
    ) || name == record.name by {
        if names_of(records).contains(name) {
            let p = position(records, name);
            assert(names_of(after)[p] == name);
        }
        if name == record.name {
            assert(names_of(after)[records.len() as int] == name);
        }
    }
}

impl View for FileStore {
    type V = Map<Seq<char>, Option<Seq<char>>>;

    /// The content stored under each name.
    closed spec fn view(&self) -> Map<Seq<char>, Option<Seq<char>>> {
        mapping(views(self.files@))
    }
}

impl FileStore {
    /// The stored names, in the order in which a listing shows them.
    pub closed spec fn names(&self) -> Seq<Seq<char>> {
        names_of(views(self.files@))
    }

    #[verifier::type_invariant]
    spec fn distinct_names(&self) -> bool {
        names_of(views(self.files@)).no_duplicates()
    }

    /// The stored names are exactly the keys of the mapping.
    pub proof fn lemma_names_are_keys(&self)
        ensures
            self.names().to_set() == self@.dom(),
    {
    }

    /// An empty index.
    pub fn new() -> (store: Self)
        ensures
            store@ == Map::<Seq<char>, Option<Seq<char>>>::empty(),
            store.names() == Seq::<Seq<char>>::empty(),
    {
        FileStore { files: Vec::new() }
    }

    /// The number of stored files.
    pub fn len(&self) -> (n: usize)
        ensures
            n == self.names().len(),
            n == self@.dom().len(),
            self@.dom().finite(),
            self.names().no_duplicates(),
    {
        proof {
            use_type_invariant(self);
            self.lemma_names_are_keys();
            self.names().unique_seq_to_set();
        }
        self.files.len()
    }

    /// The position of `name` among the records, if it is stored.
    fn find(&self, name: &String) -> (found: Option<usize>)
        ensures
            match found {
                Some(i) => i < self.files.len() && self.files[i as int].name@ == name@,
                None => !self.names().contains(name@),
            },
    {
        let mut i: usize = 0;
        while i < self.files.len()
            invariant
                i <= self.files.len(),
                forall|j: int| 0 <= j < i ==> self.files[j].name@ != name@,
            decreases self.files.len() - i,
        {
            if self.files[i].name == *name {
                return Some(i);
            }
            i += 1;
        }
        None
    }

    /// Looks `name` up: the stored record, content included, or `None`
    /// where nothing is stored under that name.
    pub fn get(&self, name: &str) -> (found: Option<&FileRecord>)
        ensures
            match found {
                Some(record) => self@.contains_key(name@) && record@ == (FileRecordView {
                    name: name@,
                    content: self@[name@],
                }),
                None => !self@.contains_key(name@),
            },
    {
        proof {
            use_type_invariant(self);
        }
        let key = name.to_owned();
        match self.find(&key) {
            Some(i) => {
                proof {
                    assert(names_of(views(self.files@))[i as int] == name@);
                    lemma_position(views(self.files@), i as int);
                }
                Some(&self.files[i])
            },
            None => None,
        }
    }

    /// Stores `record` under its name, in place of whatever was stored under
    /// that name before. Every other name keeps its content.
    pub fn insert(&mut self, record: FileRecord)
        ensures
            final(self)@ == old(self)@.insert(record@.name, record@.content),
            final(self).names() == put_name(old(self).names(), record@.name),
    {
        proof {
            use_type_invariant(&*self);
        }
        let found = self.find(&record.name);
        let ghost before = views(self.files@);
        // The records are taken out, changed and put back: the index is
        // never seen with a name twice.
        let mut files: Vec<FileRecord> = Vec::new();
        std::mem::swap(&mut self.files, &mut files);
        match found {
            Some(i) => {
                proof {
                    assert(names_of(before)[i as int] == record@.name);
                    lemma_mapping_replace(before, i as int, record@);
                }
                files.set(i, record);
                assert(views(files@) =~= before.update(i as int, record@));
            },
            None => {
                proof {
                    lemma_mapping_push(before, record@);
                }
                files.push(record);
                assert(views(files@) =~= before.push(record@));
            },
        }
        self.files = files;
    }

    /// Stores `content` under `name`, in place of whatever was stored under
    /// that name before. Every other name keeps its content.
    pub fn put(&mut self, name: String, content: String)
        ensures
            final(self)@ == old(self)@.insert(name@, Some(content@)),
            final(self).names() == put_name(old(self).names(), name@),
    {
        self.insert(FileRecord::new(name, content));
    }

    /// The stored names as records without content, in listing order.
    pub fn list_all(&self) -> (records: Vec<FileRecord>)
        ensures
            views(records@) == listing(self.names()),
            self.names().no_duplicates(),
            self.names().to_set() == self@.dom(),
    {
        proof {
            use_type_invariant(self);
            self.lemma_names_are_keys();
        }
        let mut records: Vec<FileRecord> = Vec::new();
        let mut i: usize = 0;
        while i < self.files.len()
            invariant
                i <= self.files.len(),
                records.len() == i,
                forall|j: int| 0 <= j < i ==> records[j]@ == (FileRecordView {
                    name: self.files[j].name@,
                    content: None,
                }),
            decreases self.files.len() - i,
        {
            records.push(FileRecord::name_only(self.files[i].name.clone()));
            i += 1;
        }
        records
    }
}

} // verus!
