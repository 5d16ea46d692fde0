//! Directories: named containers of file records and of further directories.

use vstd::prelude::*;
use crate::clock::current_timestamp;
use crate::error::VfsError;
use crate::metadata::{file_views, FileMetadata, FileMetadataView};
use crate::text::{
    components, is_absolute, join, join_path, separator, split_path, starts_with_separator,
    str_eq,
};
use crate::table::{
    distinct, entry_key, entry_names, entry_value, get_entry, has_entry, lemma_name_position,
    lemma_names, lemma_no_entries, lemma_value_decreases, lookup, names, put_entry, take_entry,
    views, without, Entry, Table,
};

verus! {

/// The subdirectories of one directory, by name. No name occurs twice.
///
/// This is a [`Table`] of directories in all but name. A directory that held
/// a `Table<DirectoryMetadata>` would contain itself through a type
/// parameter, which Verus does not accept; it does accept a type that
/// contains itself through a `Vec`, so the entries are held here directly.
#[derive(Debug)]
pub struct Subdirectories {
    entries: Vec<Entry<DirectoryMetadata>>,
}

/// A directory: its name, when it was made and last changed, its files and
/// its subdirectories, each by name.
#[derive(Debug)]
pub struct DirectoryMetadata {
    pub name: String,
    pub created_at: String,
    pub modified_at: String,
    pub files: Table<FileMetadata>,
    pub subdirectories: Subdirectories,
}

impl View for Subdirectories {
    type V = Map<Seq<char>, DirectoryMetadata>;

    closed spec fn view(&self) -> Map<Seq<char>, DirectoryMetadata> {
        lookup(self.entries@)
    }
}

impl Subdirectories {
    #[verifier::type_invariant]
    closed spec fn inv(self) -> bool {
        distinct(self.entries@)
    }

    /// The names in the order of the entries.
    pub closed spec fn key_seq(&self) -> Seq<Seq<char>> {
        names(self.entries@)
    }

    /// The names in `key_seq` are the names that are mapped.
    pub proof fn lemma_key_seq_is_domain(&self)
        ensures
            forall|k: Seq<char>| self.key_seq().contains(k) <==> self@.contains_key(k),
    {
        lemma_names(self.entries@);
    }

    /// Where a mapped name stands in `key_seq`.
    pub proof fn lemma_position(&self, k: Seq<char>) -> (i: int)
        requires
            self@.contains_key(k),
        ensures
            0 <= i < self.key_seq().len(),
            self.key_seq()[i] == k,
    {
        lemma_name_position(self.entries@, k)
    }

    /// A directory is larger than each of its subdirectories.
    pub proof fn lemma_subdirectory_decreases(&self, k: Seq<char>)
        requires
            self@.contains_key(k),
        ensures
            decreases_to!(*self => self@[k]),
    {
        lemma_value_decreases(self.entries, k);
    }

    /// No subdirectories.
    pub fn new() -> (table: Subdirectories)
        ensures
            table@ == Map::<Seq<char>, DirectoryMetadata>::empty(),
            table.key_seq() == Seq::<Seq<char>>::empty(),
    {
        proof {
            lemma_no_entries::<DirectoryMetadata>();
        }
        Subdirectories { entries: Vec::new() }
    }

    /// The number of subdirectories.
    pub fn len(&self) -> (n: usize)
        ensures
            n == self.key_seq().len(),
            self.key_seq().no_duplicates(),
            self@.dom().finite(),
            n == self@.dom().len(),
    {
        proof {
            use_type_invariant(self);
            lemma_names(self.entries@);
        }
        self.entries.len()
    }

    /// Whether there is no subdirectory.
    pub fn is_empty(&self) -> (b: bool)
        ensures
            b == (self.key_seq().len() == 0),
            b == (self@ == Map::<Seq<char>, DirectoryMetadata>::empty()),
    {
        proof {
            lemma_names(self.entries@);
        }
        self.entries.len() == 0
    }

    /// Whether a subdirectory is named `key`.
    pub fn contains_key(&self, key: &str) -> (b: bool)
        ensures
            b == self@.contains_key(key@),
    {
        proof {
            use_type_invariant(self);
        }
        has_entry(&self.entries, key)
    }

    /// The subdirectory named `key`, if there is one.
    pub fn get(&self, key: &str) -> (r: Option<&DirectoryMetadata>)
        ensures
            match r {
                Some(v) => self@.contains_key(key@) && *v == self@[key@],
                None => !self@.contains_key(key@),
            },
    {
        proof {
            use_type_invariant(self);
        }
        get_entry(&self.entries, key)
    }

    /// The name of entry `i`.
    pub fn key_at(&self, i: usize) -> (key: &String)
        requires
            i < self.key_seq().len(),
        ensures
            key@ == self.key_seq()[i as int],
            self@.contains_key(key@),
    {
        proof {
            lemma_names(self.entries@);
        }
        entry_key(&self.entries, i)
    }

    /// The subdirectory of entry `i`.
    pub fn value_at(&self, i: usize) -> (value: &DirectoryMetadata)
        requires
            i < self.key_seq().len(),
        ensures
            self@.contains_key(self.key_seq()[i as int]),
            *value == self@[self.key_seq()[i as int]],
    {
        proof {
            use_type_invariant(self);
            lemma_names(self.entries@);
        }
        entry_value(&self.entries, i)
    }

    /// The names of the subdirectories in the order of the entries: each
    /// name once.
    pub fn keys(&self) -> (out: Vec<String>)
        ensures
            views(out@) == self.key_seq(),
            self.key_seq().no_duplicates(),
            forall|k: Seq<char>| self.key_seq().contains(k) <==> self@.contains_key(k),
    {
        proof {
            use_type_invariant(self);
            lemma_names(self.entries@);
        }
        entry_names(&self.entries)
    }

    /// Puts `value` under `key`. A name that is already there keeps its place
    /// in the order and gets the new value; a new name goes to the end.
    pub fn insert(&mut self, key: String, value: DirectoryMetadata)
        ensures
            final(self)@ == old(self)@.insert(key@, value),
            final(self).key_seq() == if old(self)@.contains_key(key@) {
                old(self).key_seq()
            } else {
                old(self).key_seq().push(key@)
            },
    {
        proof {
            use_type_invariant(&*self);
            lemma_no_entries::<DirectoryMetadata>();
        }
        let mut entries: Vec<Entry<DirectoryMetadata>> = Vec::new();
        core::mem::swap(&mut entries, &mut self.entries);
        put_entry(&mut entries, key, value);
        self.entries = entries;
    }

    /// Takes the subdirectory named `key` out and returns it, if there is
    /// one. The others keep their order.
    pub fn remove(&mut self, key: &str) -> (r: Option<DirectoryMetadata>)
        ensures
            final(self)@ == old(self)@.remove(key@),
            match r {
                Some(v) => old(self)@.contains_key(key@) && v == old(self)@[key@],
                None => !old(self)@.contains_key(key@),
            },
            final(self).key_seq() == without(old(self).key_seq(), key@),
    {
        proof {
            use_type_invariant(&*self);
            lemma_no_entries::<DirectoryMetadata>();
        }
        let mut entries: Vec<Entry<DirectoryMetadata>> = Vec::new();
        core::mem::swap(&mut entries, &mut self.entries);
        let r = take_entry(&mut entries, key);
        self.entries = entries;
        r
    }
}

/// A directory as plain values, all the way down.
pub struct DirectoryView {
    pub name: Seq<char>,
    pub created_at: Seq<char>,
    pub modified_at: Seq<char>,
    pub files: Map<Seq<char>, FileMetadataView>,
    pub subdirectories: Map<Seq<char>, DirectoryView>,
}

impl View for DirectoryMetadata {
    type V = DirectoryView;

    open spec fn view(&self) -> DirectoryView {
        directory_view(*self)
    }
}

/// The view of a directory; the views of its subdirectories are taken the
/// same way.
pub open spec fn directory_view(directory: DirectoryMetadata) -> DirectoryView
    decreases directory,
{
    DirectoryView {
        name: directory.name@,
        created_at: directory.created_at@,
        modified_at: directory.modified_at@,
        files: file_views(directory.files@),
        subdirectories: Map::new(
            |k: Seq<char>| directory.subdirectories@.contains_key(k),
            |k: Seq<char>|
                if directory.subdirectories@.contains_key(k) {
                    proof {
                        directory.subdirectories.lemma_subdirectory_decreases(k);
                    }
                    directory_view(directory.subdirectories@[k])
                } else {
                    arbitrary()
                },
        ),
    }
}

impl DirectoryView {
    /// A directory that was just made at time `now`: nothing in it.
    pub open spec fn empty(name: Seq<char>, now: Seq<char>) -> DirectoryView {
        DirectoryView {
            name,
            created_at: now,
            modified_at: now,
            files: Map::empty(),
            subdirectories: Map::empty(),
        }
    }

    /// The directory with `now` recorded as the time of its last change.
    pub open spec fn touched(self, now: Seq<char>) -> DirectoryView {
        DirectoryView { modified_at: now, ..self }
    }

    /// The directory after an empty subdirectory `name` was made in it at
    /// time `now`; a name that is taken is refused.
    pub open spec fn create_directory(self, name: Seq<char>, now: Seq<char>) -> Result<
        DirectoryView,
        VfsError,
    > {
        if self.subdirectories.contains_key(name) {
            Err(VfsError::DirectoryAlreadyExists)
        } else {
            Ok(
                DirectoryView {
                    modified_at: now,
                    subdirectories: self.subdirectories.insert(
                        name,
                        DirectoryView::empty(name, now),
                    ),
                    ..self
                },
            )
        }
    }

    /// Whether the directory holds neither file nor subdirectory.
    pub open spec fn is_empty(self) -> bool {
        self.files == Map::<Seq<char>, FileMetadataView>::empty() && self.subdirectories
            == Map::<Seq<char>, DirectoryView>::empty()
    }

    /// The directory after its subdirectory `name` was removed. The
    /// subdirectory must exist and be empty.
    pub open spec fn remove_directory(self, name: Seq<char>) -> Result<DirectoryView, VfsError> {
        if !self.subdirectories.contains_key(name) {
            Err(VfsError::DirectoryNotFound)
        } else if !self.subdirectories[name].is_empty() {
            Err(VfsError::DirectoryNotEmpty)
        } else {
            Ok(DirectoryView { subdirectories: self.subdirectories.remove(name), ..self })
        }
    }
}

/// A relative path is put behind the name of the current directory, an
/// absolute path stands as it is.
pub open spec fn resolved(directory_name: Seq<char>, path: Seq<char>) -> Seq<char> {
    if is_absolute(path) {
        path
    } else {
        join(directory_name, path)
    }
}

/// The full path that `path` means when `current_directory` is the current
/// directory.
pub fn resolve_path(current_directory: &DirectoryMetadata, path: &str) -> (full: String)
    ensures
        full@ == resolved(current_directory@.name, path@),
{
    if starts_with_separator(path) {
        path.to_owned()
    } else {
        join_path(current_directory.name.as_str(), path)
    }
}

/// Records `now` as the time of the last change of the directory.
pub fn update_directory_modified_time_at(directory: &mut DirectoryMetadata, now: &str)
    ensures
        final(directory)@ == old(directory)@.touched(now@),
        final(directory).files == old(directory).files,
        final(directory).subdirectories == old(directory).subdirectories,
{
    directory.modified_at = now.to_owned();
    assert(directory@.subdirectories =~= old(directory)@.subdirectories);
}

/// Records the current time as the time of the last change of the directory.
pub fn update_directory_modified_time(directory: &mut DirectoryMetadata)
    ensures
        final(directory)@ == old(directory)@.touched(final(directory)@.modified_at),
        final(directory).files == old(directory).files,
        final(directory).subdirectories == old(directory).subdirectories,
{
    let now = current_timestamp();
    update_directory_modified_time_at(directory, now.as_str());
}

/// Makes an empty subdirectory `name` in `parent_directory` and records
/// `now` as the time of creation and as the time of the parent's last
/// change. A name that is taken fails with `DirectoryAlreadyExists` and
/// changes nothing.
pub fn create_directory_at(name: &str, parent_directory: &mut DirectoryMetadata, now: &str) -> (r:
    Result<(), VfsError>)
    ensures
        match old(parent_directory)@.create_directory(name@, now@) {
            Ok(after) => {
                &&& r is Ok
                &&& final(parent_directory)@ == after
                &&& final(parent_directory).files == old(parent_directory).files
                &&& final(parent_directory).subdirectories.key_seq()
                    == old(parent_directory).subdirectories.key_seq().push(name@)
            },
            Err(e) => {
                &&& r == Err::<(), VfsError>(e)
                &&& *final(parent_directory) == *old(parent_directory)
            },
        },
{
    if parent_directory.subdirectories.contains_key(name) {
        return Err(VfsError::DirectoryAlreadyExists);
    }
    let new_directory = DirectoryMetadata {
        name: name.to_owned(),
        created_at: now.to_owned(),
        modified_at: now.to_owned(),
        files: Table::new(),
        subdirectories: Subdirectories::new(),
    };
    proof {
        assert(new_directory@.files =~= Map::<Seq<char>, FileMetadataView>::empty());
        assert(new_directory@.subdirectories =~= Map::<Seq<char>, DirectoryView>::empty());
        assert(new_directory@ == DirectoryView::empty(name@, now@));
    }
    parent_directory.subdirectories.insert(name.to_owned(), new_directory);
    parent_directory.modified_at = now.to_owned();
    proof {
        assert(parent_directory@.subdirectories =~= old(parent_directory)@.subdirectories.insert(
            name@,
            DirectoryView::empty(name@, now@),
        ));
    }
    Ok(())
}

/// Makes an empty subdirectory `name` in `parent_directory`, stamped with the
/// current time, which can be read from the parent afterwards.
pub fn create_directory(name: &str, parent_directory: &mut DirectoryMetadata) -> (r: Result<
    (),
    VfsError,
>)
    ensures
        match old(parent_directory)@.create_directory(name@, final(parent_directory)@.modified_at) {
            Ok(after) => {
                &&& r is Ok
                &&& final(parent_directory)@ == after
                &&& final(parent_directory).files == old(parent_directory).files
                &&& final(parent_directory).subdirectories.key_seq()
                    == old(parent_directory).subdirectories.key_seq().push(name@)
            },
            Err(e) => {
                &&& r == Err::<(), VfsError>(e)
                &&& *final(parent_directory) == *old(parent_directory)
            },
        },
{
    let now = current_timestamp();
    create_directory_at(name, parent_directory, now.as_str())
}

/// Removes the subdirectory `name` of `parent_directory`. It fails with
/// `DirectoryNotFound` if there is none, with `DirectoryNotEmpty` if it still
/// holds a file or a subdirectory; both change nothing.
pub fn remove_directory(name: &str, parent_directory: &mut DirectoryMetadata) -> (r: Result<
    (),
    VfsError,
>)
    ensures
        match old(parent_directory)@.remove_directory(name@) {
            Ok(after) => {
                &&& r is Ok
                &&& final(parent_directory)@ == after
                &&& final(parent_directory).files == old(parent_directory).files
                &&& final(parent_directory).subdirectories.key_seq() == without(
                    old(parent_directory).subdirectories.key_seq(),
                    name@,
                )
            },
            Err(e) => {
                &&& r == Err::<(), VfsError>(e)
                &&& *final(parent_directory) == *old(parent_directory)
            },
        },
{
    match parent_directory.subdirectories.get(name) {
        Some(directory) => {
            proof {
                lemma_view_is_empty(*directory);
            }
            if !directory.files.is_empty() || !directory.subdirectories.is_empty() {
                return Err(VfsError::DirectoryNotEmpty);
            }
        },
        None => {
            return Err(VfsError::DirectoryNotFound);
        },
    }
    let _ = parent_directory.subdirectories.remove(name);
    proof {
        assert(parent_directory@.subdirectories =~= old(parent_directory)@.subdirectories.remove(
            name@,
        ));
    }
    Ok(())
}

/// A directory's view is empty exactly when both of its tables are.
pub proof fn lemma_view_is_empty(directory: DirectoryMetadata)
    ensures
        directory@.is_empty() <==> directory.files@ == Map::<Seq<char>, FileMetadata>::empty()
            && directory.subdirectories@ == Map::<Seq<char>, DirectoryMetadata>::empty(),
{
    let files = directory.files@;
    let subs = directory.subdirectories@;
    if files == Map::<Seq<char>, FileMetadata>::empty() {
        assert(directory@.files =~= Map::<Seq<char>, FileMetadataView>::empty());
    }
    if directory@.files == Map::<Seq<char>, FileMetadataView>::empty() {
        assert(files.dom() =~= directory@.files.dom());
        assert(files =~= Map::<Seq<char>, FileMetadata>::empty());
    }
    if subs == Map::<Seq<char>, DirectoryMetadata>::empty() {
        assert(directory@.subdirectories =~= Map::<Seq<char>, DirectoryView>::empty());
    }
    if directory@.subdirectories == Map::<Seq<char>, DirectoryView>::empty() {
        assert(subs.dom() =~= directory@.subdirectories.dom());
        assert(subs =~= Map::<Seq<char>, DirectoryMetadata>::empty());
    }
}

/// A copy of a table of file records: the same names in the same order,
/// each with an equal record.
pub fn clone_files(files: &Table<FileMetadata>) -> (copy: Table<FileMetadata>)
    ensures
        file_views(copy@) == file_views(files@),
        copy.key_seq() == files.key_seq(),
{
    let n = files.len();
    let mut copy: Table<FileMetadata> = Table::new();
    let mut i: usize = 0;
    while i < n
        invariant
            i <= n,
            n == files.key_seq().len(),
            files.key_seq().no_duplicates(),
            copy.key_seq() == files.key_seq().subrange(0, i as int),
            forall|j: int|
                0 <= j < i ==> copy@.contains_key(#[trigger] files.key_seq()[j])
                    && copy@[files.key_seq()[j]]@ == files@[files.key_seq()[j]]@,
        decreases n - i,
    {
        let key = files.key_at(i).clone();
        let value = files.value_at(i).clone();
        proof {
            if copy@.contains_key(key@) {
                let j = copy.lemma_position(key@);
                assert(files.key_seq()[j] == files.key_seq()[i as int]);
            }
        }
        let ghost before = copy@;
        copy.insert(key, value);
        proof {
            assert(copy.key_seq() =~= files.key_seq().subrange(0, i + 1));
            assert forall|j: int| 0 <= j < i + 1 implies copy@.contains_key(
                #[trigger] files.key_seq()[j],
            ) && copy@[files.key_seq()[j]]@ == files@[files.key_seq()[j]]@ by {
                if j < i {
                    assert(before.contains_key(files.key_seq()[j]));
                }
            }
        }
        i += 1;
    }
    proof {
        assert(files.key_seq().subrange(0, n as int) =~= files.key_seq());
        assert forall|k: Seq<char>| files@.contains_key(k) implies copy@.contains_key(k)
            && copy@[k]@ == files@[k]@ by {
            let j = files.lemma_position(k);
            assert(copy@.contains_key(files.key_seq()[j]));
        }
        assert forall|k: Seq<char>| copy@.contains_key(k) implies files@.contains_key(k) by {
            let j = copy.lemma_position(k);
            assert(copy@.contains_key(files.key_seq()[j]));
            files.lemma_key_seq_is_domain();
            assert(files.key_seq().contains(files.key_seq()[j]));
        }
        assert(file_views(copy@) =~= file_views(files@));
    }
    copy
}

/// A copy of a directory with everything in it.
pub fn clone_directory(directory: &DirectoryMetadata) -> (copy: DirectoryMetadata)
    ensures
        copy@ == directory@,
        copy.files.key_seq() == directory.files.key_seq(),
        copy.subdirectories.key_seq() == directory.subdirectories.key_seq(),
    decreases *directory,
{
    let source = &directory.subdirectories;
    let n = source.len();
    let mut subdirectories = Subdirectories::new();
    let mut i: usize = 0;
    while i < n
        invariant
            i <= n,
            source == &directory.subdirectories,
            n == source.key_seq().len(),
            source.key_seq().no_duplicates(),
            subdirectories.key_seq() == source.key_seq().subrange(0, i as int),
            forall|j: int|
                0 <= j < i ==> subdirectories@.contains_key(#[trigger] source.key_seq()[j])
                    && subdirectories@[source.key_seq()[j]]@ == source@[source.key_seq()[j]]@,
        decreases n - i,
    {
        let key = source.key_at(i).clone();
        let child = source.value_at(i);
        proof {
            source.lemma_subdirectory_decreases(key@);
        }
        let value = clone_directory(child);
        proof {
            if subdirectories@.contains_key(key@) {
                let j = subdirectories.lemma_position(key@);
                assert(source.key_seq()[j] == source.key_seq()[i as int]);
            }
        }
        let ghost before = subdirectories@;
        subdirectories.insert(key, value);
        proof {
            assert(subdirectories.key_seq() =~= source.key_seq().subrange(0, i + 1));
            assert forall|j: int| 0 <= j < i + 1 implies subdirectories@.contains_key(
                #[trigger] source.key_seq()[j],
            ) && subdirectories@[source.key_seq()[j]]@ == source@[source.key_seq()[j]]@ by {
                if j < i {
                    assert(before.contains_key(source.key_seq()[j]));
                }
            }
        }
        i += 1;
    }
    let copy = DirectoryMetadata {
        name: directory.name.clone(),
        created_at: directory.created_at.clone(),
        modified_at: directory.modified_at.clone(),
        files: clone_files(&directory.files),
        subdirectories,
    };
    proof {
        assert(source.key_seq().subrange(0, n as int) =~= source.key_seq());
        assert forall|k: Seq<char>| source@.contains_key(k) implies copy.subdirectories@.contains_key(
            k,
        ) && copy.subdirectories@[k]@ == source@[k]@ by {
            let j = source.lemma_position(k);
            assert(copy.subdirectories@.contains_key(source.key_seq()[j]));
        }
        assert forall|k: Seq<char>| copy.subdirectories@.contains_key(k) implies source@.contains_key(
            k,
        ) by {
            let j = copy.subdirectories.lemma_position(k);
            assert(copy.subdirectories@.contains_key(source.key_seq()[j]));
            source.lemma_key_seq_is_domain();
            assert(source.key_seq().contains(source.key_seq()[j]));
        }
        assert(copy@.subdirectories =~= directory@.subdirectories);
    }
    copy
}

impl Clone for DirectoryMetadata {
    fn clone(&self) -> (copy: DirectoryMetadata)
        ensures
            copy@ == self@,
    {
        clone_directory(self)
    }
}

/// The component that would mean the parent directory.
pub open spec fn parent_marker() -> Seq<char> {
    seq!['.', '.']
}

impl DirectoryView {
    /// The directory reached from this one by following `parts`, one
    /// subdirectory per part. A part `..` is refused, and so is a part that
    /// names no subdirectory.
    pub open spec fn descend(self, parts: Seq<Seq<char>>) -> Result<DirectoryView, VfsError>
        decreases parts.len(),
    {
        if parts.len() == 0 {
            Ok(self)
        } else if parts[0] == parent_marker() {
            Err(VfsError::ParentNavigation)
        } else if self.subdirectories.contains_key(parts[0]) {
            self.subdirectories[parts[0]].descend(parts.drop_first())
        } else {
            Err(VfsError::DirectoryNotFound)
        }
    }
}

/// Where a change of directory leads: the path `/` to the root, any other
/// path to what its components reach, from the root if the path is absolute
/// and from the current directory if it is not.
pub open spec fn change_target(current: DirectoryView, root: DirectoryView, path: Seq<char>)
    -> Result<DirectoryView, VfsError> {
    if path == seq![separator()] {
        Ok(root)
    } else if is_absolute(path) {
        root.descend(components(path))
    } else {
        current.descend(components(path))
    }
}

/// Follows `parts` down from `start`.
pub fn descend<'a>(start: &'a DirectoryMetadata, parts: &Vec<String>) -> (r: Result<
    &'a DirectoryMetadata,
    VfsError,
>)
    ensures
        match start@.descend(views(parts@)) {
            Ok(found) => r is Ok && r->Ok_0@ == found,
            Err(e) => r is Err && r->Err_0 == e,
        },
{
    let mut target: &DirectoryMetadata = start;
    let mut i: usize = 0;
    assert(views(parts@).skip(0) =~= views(parts@));
    while i < parts.len()
        invariant
            i <= parts@.len(),
            start@.descend(views(parts@)) == target@.descend(views(parts@).skip(i as int)),
        decreases parts@.len() - i,
    {
        let part = parts[i].as_str();
        let ghost rest = views(parts@).skip(i as int);
        proof {
            reveal_strlit("..");
            assert(".."@ =~= parent_marker());
            assert(rest[0] == part@);
            assert(rest.drop_first() =~= views(parts@).skip(i + 1));
        }
        if str_eq(part, "..") {
            return Err(VfsError::ParentNavigation);
        }
        match target.subdirectories.get(part) {
            Some(directory) => {
                target = directory;
            },
            None => {
                return Err(VfsError::DirectoryNotFound);
            },
        }
        i += 1;
    }
    Ok(target)
}

/// Makes the directory that `path` leads to the current directory, as a
/// copy. The path `/` leads to the root. Any other path is followed component
/// by component, from the root if it is absolute, else from the current
/// directory; it fails with `ParentNavigation` at a component `..` and with
/// `DirectoryNotFound` at a component that names no subdirectory. On failure
/// the current directory stays as it was.
pub fn change_directory(
    current_directory: &mut DirectoryMetadata,
    root_directory: &DirectoryMetadata,
    path: &str,
) -> (r: Result<(), VfsError>)
    ensures
        match change_target(old(current_directory)@, root_directory@, path@) {
            Ok(target) => r is Ok && final(current_directory)@ == target,
            Err(e) => {
                &&& r == Err::<(), VfsError>(e)
                &&& *final(current_directory) == *old(current_directory)
            },
        },
{
    proof {
        reveal_strlit("/");
        assert("/"@ =~= seq![separator()]);
    }
    if str_eq(path, "/") {
        *current_directory = clone_directory(root_directory);
        return Ok(());
    }
    let parts = split_path(path);
    let target = {
        let start: &DirectoryMetadata = if starts_with_separator(path) {
            root_directory
        } else {
            &*current_directory
        };
        match descend(start, &parts) {
            Ok(found) => clone_directory(found),
            Err(e) => {
                return Err(e);
            },
        }
    };
    *current_directory = target;
    Ok(())
}

/// What a directory shows when it is listed: its name, the names of its
/// files and the names of its subdirectories.
#[derive(Debug)]
pub struct DirectoryListing {
    pub name: String,
    pub files: Vec<String>,
    pub subdirectories: Vec<String>,
}

/// Lists a directory: its name, then each file name once and each
/// subdirectory name once, in the order in which the names were first
/// inserted.
pub fn list_directory(directory: &DirectoryMetadata) -> (listing: DirectoryListing)
    ensures
        listing.name@ == directory@.name,
        views(listing.files@) == directory.files.key_seq(),
        views(listing.subdirectories@) == directory.subdirectories.key_seq(),
        views(listing.files@).no_duplicates(),
        views(listing.subdirectories@).no_duplicates(),
        forall|k: Seq<char>| views(listing.files@).contains(k) <==> directory@.files.contains_key(k),
        forall|k: Seq<char>|
            views(listing.subdirectories@).contains(k) <==> directory@.subdirectories.contains_key(
                k,
            ),
{
    DirectoryListing {
        name: directory.name.clone(),
        files: directory.files.keys(),
        subdirectories: directory.subdirectories.keys(),
    }
}

} // verus!
