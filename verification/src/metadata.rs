//! What is recorded of a file, and the store of these records by path.

use vstd::prelude::*;
use crate::clock::current_timestamp;
use crate::table::Table;
use crate::text::{join, join_path};

verus! {

/// The record of one file: where it is, who may do what, when it was made and
/// last changed, how many bytes it holds and in which blocks, in order.
#[derive(Debug)]
pub struct FileMetadata {
    pub path: String,
    pub permissions: String,
    pub created_at: String,
    pub modified_at: String,
    pub size: u64,
    pub block_indices: Vec<usize>,
}

/// A file record as plain values.
pub struct FileMetadataView {
    pub path: Seq<char>,
    pub permissions: Seq<char>,
    pub created_at: Seq<char>,
    pub modified_at: Seq<char>,
    pub size: u64,
    pub block_indices: Seq<usize>,
}

impl View for FileMetadata {
    type V = FileMetadataView;

    open spec fn view(&self) -> FileMetadataView {
        FileMetadataView {
            path: self.path@,
            permissions: self.permissions@,
            created_at: self.created_at@,
            modified_at: self.modified_at@,
            size: self.size,
            block_indices: self.block_indices@,
        }
    }
}

impl Clone for FileMetadata {
    fn clone(&self) -> (copy: FileMetadata)
        ensures
            copy@ == self@,
    {
        FileMetadata {
            path: self.path.clone(),
            permissions: self.permissions.clone(),
            created_at: self.created_at.clone(),
            modified_at: self.modified_at.clone(),
            size: self.size,
            block_indices: self.block_indices.clone(),
        }
    }
}

impl FileMetadataView {
    /// The record of a file that was just created at time `now`: no blocks
    /// yet, made and changed at the same moment.
    pub open spec fn created(
        file_name: Seq<char>,
        directory_path: Seq<char>,
        permissions: Seq<char>,
        size: u64,
        now: Seq<char>,
    ) -> FileMetadataView {
        FileMetadataView {
            path: join(directory_path, file_name),
            permissions,
            created_at: now,
            modified_at: now,
            size,
            block_indices: Seq::empty(),
        }
    }

    /// The record after a change of size at time `now`.
    pub open spec fn resized(self, size: u64, now: Seq<char>) -> FileMetadataView {
        FileMetadataView { modified_at: now, size, ..self }
    }
}

/// The records of a table, as plain values.
pub open spec fn file_views(files: Map<Seq<char>, FileMetadata>) -> Map<
    Seq<char>,
    FileMetadataView,
> {
    files.map_values(|f: FileMetadata| f@)
}

/// A new record for the file `file_name` in the directory `directory_path`,
/// stamped with the time `now`.
pub fn create_file_metadata_at(
    file_name: &str,
    directory_path: &str,
    permissions: &str,
    size: u64,
    now: &str,
) -> (metadata: FileMetadata)
    ensures
        metadata@ == FileMetadataView::created(
            file_name@,
            directory_path@,
            permissions@,
            size,
            now@,
        ),
{
    FileMetadata {
        path: join_path(directory_path, file_name),
        permissions: permissions.to_owned(),
        created_at: now.to_owned(),
        modified_at: now.to_owned(),
        size,
        block_indices: Vec::new(),
    }
}

/// A new record for the file `file_name` in the directory `directory_path`,
/// stamped with the current time, which can be read from the record.
pub fn create_file_metadata(
    file_name: &str,
    directory_path: &str,
    permissions: &str,
    size: u64,
) -> (metadata: FileMetadata)
    ensures
        metadata@ == FileMetadataView::created(
            file_name@,
            directory_path@,
            permissions@,
            size,
            metadata@.modified_at,
        ),
{
    let now = current_timestamp();
    create_file_metadata_at(file_name, directory_path, permissions, size, now.as_str())
}

/// Records a new size, and `now` as the time of the change.
pub fn update_file_metadata_at(metadata: &mut FileMetadata, size: u64, now: &str)
    ensures
        final(metadata)@ == old(metadata)@.resized(size, now@),
{
    metadata.modified_at = now.to_owned();
    metadata.size = size;
}

/// Records a new size, and the current time as the time of the change.
pub fn update_file_metadata(metadata: &mut FileMetadata, size: u64)
    ensures
        final(metadata)@ == old(metadata)@.resized(size, final(metadata)@.modified_at),
{
    let now = current_timestamp();
    update_file_metadata_at(metadata, size, now.as_str());
}

/// The file records of a store, by path.
#[derive(Debug)]
pub struct MetadataStore {
    files: Table<FileMetadata>,
}

impl View for MetadataStore {
    type V = Map<Seq<char>, FileMetadataView>;

    closed spec fn view(&self) -> Map<Seq<char>, FileMetadataView> {
        file_views(self.files@)
    }
}

impl MetadataStore {
    /// The paths of the store in the order in which they were first added.
    pub closed spec fn paths(&self) -> Seq<Seq<char>> {
        self.files.key_seq()
    }

    /// A store without records.
    pub fn new() -> (store: MetadataStore)
        ensures
            store@ == Map::<Seq<char>, FileMetadataView>::empty(),
            store.paths() == Seq::<Seq<char>>::empty(),
    {
        let store = MetadataStore { files: Table::new() };
        assert(store@ =~= Map::<Seq<char>, FileMetadataView>::empty());
        store
    }

    /// Records `metadata` under `name`, in place of any record under that
    /// name.
    pub fn add_file(&mut self, name: &str, metadata: FileMetadata)
        ensures
            final(self)@ == old(self)@.insert(name@, metadata@),
    {
        self.files.insert(name.to_owned(), metadata);
        assert(self@ =~= old(self)@.insert(name@, metadata@));
    }

    /// The record under `name`, if there is one.
    pub fn get_file_metadata(&self, name: &str) -> (r: Option<&FileMetadata>)
        ensures
            match r {
                Some(metadata) => self@.contains_key(name@) && metadata@ == self@[name@],
                None => !self@.contains_key(name@),
            },
    {
        self.files.get(name)
    }

    /// Records `metadata` under `name`, in place of any record under that
    /// name.
    pub fn update_file_metadata(&mut self, name: &str, metadata: FileMetadata)
        ensures
            final(self)@ == old(self)@.insert(name@, metadata@),
    {
        self.files.insert(name.to_owned(), metadata);
        assert(self@ =~= old(self)@.insert(name@, metadata@));
    }

    /// Drops the record under `name`, if there is one.
    pub fn remove_file_metadata(&mut self, name: &str)
        ensures
            final(self)@ == old(self)@.remove(name@),
    {
        let _ = self.files.remove(name);
        assert(self@ =~= old(self)@.remove(name@));
    }

    /// The number of records.
    pub fn len(&self) -> (n: usize)
        ensures
            n == self.paths().len(),
            self.paths().no_duplicates(),
            self@.dom().finite(),
            n == self@.dom().len(),
    {
        assert(self@.dom() =~= self.files@.dom());
        self.files.len()
    }

    /// The path of record `i`, in the order in which paths were first added.
    pub fn path_at(&self, i: usize) -> (path: &String)
        requires
            i < self.paths().len(),
        ensures
            path@ == self.paths()[i as int],
            self@.contains_key(path@),
    {
        self.files.key_at(i)
    }

    /// Record `i`, in the order in which paths were first added.
    pub fn metadata_at(&self, i: usize) -> (metadata: &FileMetadata)
        requires
            i < self.paths().len(),
        ensures
            self@.contains_key(self.paths()[i as int]),
            metadata@ == self@[self.paths()[i as int]],
    {
        self.files.value_at(i)
    }
}

} // verus!
