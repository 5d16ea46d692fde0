//! Files: records in the metadata store, and content in the blocks of the
//! block manager.

use vstd::prelude::*;
use vstd::slice::slice_subrange;
use vstd::utf8::{decode_utf8, encode_utf8, encode_utf8_decode_utf8, valid_utf8};
use crate::block::{BlockManager, StoreState};
use crate::clock::current_timestamp;
use crate::directory::{resolve_path, resolved, DirectoryMetadata, DirectoryView};
use crate::error::VfsError;
use crate::layout::Geometry;
use crate::metadata::{create_file_metadata_at, FileMetadata, FileMetadataView, MetadataStore};
use crate::table::without;

verus! {

/// The error of `String::from_utf8`, carried through and never looked into.
#[verifier::external_type_specification]
#[verifier::external_body]
pub struct ExFromUtf8Error(std::string::FromUtf8Error);

/// `String::from_utf8` of the standard library. Taken on trust, as its
/// documentation states it: the call succeeds exactly when the bytes are
/// well-formed UTF-8, and the string it then returns is made of the bytes it
/// was given, so its characters encode to them.
pub assume_specification[ String::from_utf8 ](vec: Vec<u8>) -> (r: Result<
    String,
    std::string::FromUtf8Error,
>)
    ensures
        r is Ok <==> valid_utf8(vec@),
        r is Ok ==> encode_utf8(r->Ok_0@) == vec@,
;

/// The length of the next chunk when `remaining` bytes are still to be
/// stored: a whole block, or what is left if that is less.
pub open spec fn chunk_len(geometry: Geometry, remaining: int) -> int {
    if remaining > geometry.block_size {
        geometry.block_size as int
    } else {
        remaining
    }
}

/// Storing `data` chunk by chunk: for each chunk a block is allocated and the
/// chunk written to it. The result is the state afterwards and the blocks
/// used, in order, or the error of the allocation that failed; blocks that
/// were allocated before the failure stay allocated.
pub open spec fn store_chunks(state: StoreState, data: Seq<u8>) -> (
    StoreState,
    Result<Seq<usize>, VfsError>,
)
    decreases data.len(),
{
    if data.len() == 0 || state.geometry.block_size == 0 {
        (state, Ok(Seq::empty()))
    } else {
        let (allocated, r) = state.allocate_block();
        match r {
            Err(e) => (allocated, Err(e)),
            Ok(index) => {
                let n = chunk_len(state.geometry, data.len() as int);
                let written = allocated.write_block(index as int, data.subrange(0, n)).0;
                let (after, rest) = store_chunks(written, data.subrange(n, data.len() as int));
                match rest {
                    Ok(indices) => (after, Ok(seq![index] + indices)),
                    Err(e) => (after, Err(e)),
                }
            },
        }
    }
}

/// The outcome of storing the rest of the data, seen from the start: the
/// blocks used so far come first.
pub open spec fn after_blocks(
    used: Seq<usize>,
    outcome: (StoreState, Result<Seq<usize>, VfsError>),
) -> (StoreState, Result<Seq<usize>, VfsError>) {
    match outcome.1 {
        Ok(indices) => (outcome.0, Ok(used + indices)),
        Err(e) => (outcome.0, Err(e)),
    }
}

/// The bytes of the given blocks, one block after the other. The first index
/// outside the store makes the whole reading fail.
pub open spec fn read_blocks(state: StoreState, indices: Seq<usize>) -> Result<Seq<u8>, VfsError>
    decreases indices.len(),
{
    if indices.len() == 0 {
        Ok(Seq::empty())
    } else {
        match read_blocks(state, indices.drop_last()) {
            Err(e) => Err(e),
            Ok(front) => match state.read_block(indices.last() as int) {
                Ok(block) => Ok(front + block),
                Err(e) => Err(e),
            },
        }
    }
}

/// `bytes` cut down to `size` bytes, if it is longer.
pub open spec fn truncated(bytes: Seq<u8>, size: u64) -> Seq<u8> {
    if size < bytes.len() {
        bytes.subrange(0, size as int)
    } else {
        bytes
    }
}

/// What reading a file gives: the bytes of its blocks, cut down to its
/// recorded size, taken as UTF-8.
pub open spec fn read_file_spec(
    files: Map<Seq<char>, FileMetadataView>,
    state: StoreState,
    path: Seq<char>,
) -> Result<Seq<char>, VfsError> {
    if !files.contains_key(path) {
        Err(VfsError::FileNotFound)
    } else {
        match read_blocks(state, files[path].block_indices) {
            Err(e) => Err(e),
            Ok(bytes) => {
                let content = truncated(bytes, files[path].size);
                if valid_utf8(content) {
                    Ok(decode_utf8(content))
                } else {
                    Err(VfsError::InvalidUtf8)
                }
            },
        }
    }
}

/// Freeing blocks one after the other. The first index outside the store
/// stops the freeing with an error; blocks freed before it stay free.
pub open spec fn free_blocks(state: StoreState, indices: Seq<usize>) -> (
    StoreState,
    Result<(), VfsError>,
)
    decreases indices.len(),
{
    if indices.len() == 0 {
        (state, Ok(()))
    } else {
        let (freed, r) = state.free_block(indices[0] as int);
        match r {
            Err(e) => (freed, Err(e)),
            Ok(_) => free_blocks(freed, indices.drop_first()),
        }
    }
}

/// What writing to a file does to the records, to the store, and what it
/// returns. The record is looked up under the resolved path. The data is
/// stored in newly allocated blocks, which are added behind the blocks that
/// the record already lists; the size becomes the length of the data. The
/// new record goes under `path` as it was given. When the file is unknown
/// nothing changes; when the blocks run out the records stay as they were.
pub open spec fn write_to_file_spec(
    files: Map<Seq<char>, FileMetadataView>,
    state: StoreState,
    directory_name: Seq<char>,
    path: Seq<char>,
    data: Seq<u8>,
    now: Seq<char>,
) -> (Map<Seq<char>, FileMetadataView>, StoreState, Result<(), VfsError>) {
    let full = resolved(directory_name, path);
    if !files.contains_key(full) {
        (files, state, Err(VfsError::FileNotFound))
    } else {
        let (after, r) = store_chunks(state, data);
        match r {
            Err(e) => (files, after, Err(e)),
            Ok(indices) => (
                files.insert(
                    path,
                    FileMetadataView {
                        block_indices: files[full].block_indices + indices,
                        size: data.len() as u64,
                        modified_at: now,
                        ..files[full]
                    },
                ),
                after,
                Ok(()),
            ),
        }
    }
}

/// What removing a file does to the records and to the store. The blocks of
/// the file are freed in order and its record is dropped; when a block index
/// lies outside the store the record stays. An unknown path changes nothing
/// and is no error.
pub open spec fn remove_file_spec(
    files: Map<Seq<char>, FileMetadataView>,
    state: StoreState,
    path: Seq<char>,
) -> (Map<Seq<char>, FileMetadataView>, StoreState, Result<(), VfsError>) {
    if !files.contains_key(path) {
        (files, state, Ok(()))
    } else {
        let (after, r) = free_blocks(state, files[path].block_indices);
        match r {
            Err(e) => (files, after, Err(e)),
            Ok(_) => (files.remove(path), after, Ok(())),
        }
    }
}

/// Records a new, empty file under the resolved path, made at `created_at`
/// and last changed at `modified_at`. A record already under that path is
/// replaced.
pub fn create_file_at(
    path: &str,
    metadata_store: &mut MetadataStore,
    current_directory: &DirectoryMetadata,
    permissions: &str,
    created_at: &str,
    modified_at: &str,
) -> (r: Result<(), VfsError>)
    ensures
        r is Ok,
        final(metadata_store)@ == old(metadata_store)@.insert(
            resolved(current_directory@.name, path@),
            FileMetadataView {
                path: resolved(current_directory@.name, path@),
                permissions: permissions@,
                created_at: created_at@,
                modified_at: modified_at@,
                size: 0,
                block_indices: Seq::empty(),
            },
        ),
{
    let resolved_path = resolve_path(current_directory, path);
    let metadata = FileMetadata {
        path: resolved_path.clone(),
        permissions: permissions.to_owned(),
        created_at: created_at.to_owned(),
        modified_at: modified_at.to_owned(),
        size: 0,
        block_indices: Vec::new(),
    };
    metadata_store.add_file(resolved_path.as_str(), metadata);
    Ok(())
}

/// Records a new, empty file under the resolved path, stamped with the
/// current time, read once for the creation and once for the last change.
pub fn create_file(
    path: &str,
    metadata_store: &mut MetadataStore,
    current_directory: &DirectoryMetadata,
    permissions: &str,
) -> (r: Result<(), VfsError>)
    ensures
        r is Ok,
        ({
            let full = resolved(current_directory@.name, path@);
            &&& final(metadata_store)@.contains_key(full)
            &&& final(metadata_store)@ == old(metadata_store)@.insert(
                full,
                FileMetadataView {
                    path: full,
                    permissions: permissions@,
                    created_at: final(metadata_store)@[full].created_at,
                    modified_at: final(metadata_store)@[full].modified_at,
                    size: 0,
                    block_indices: Seq::empty(),
                },
            )
        }),
{
    let created_at = current_timestamp();
    let modified_at = current_timestamp();
    create_file_at(
        path,
        metadata_store,
        current_directory,
        permissions,
        created_at.as_str(),
        modified_at.as_str(),
    )
}

/// What creating a file in a directory does to the directory and to the
/// records: the new record goes into the directory under the file's name and
/// into the records under its path, and the directory is marked as changed
/// at `touched`. A name that the directory already holds is refused.
pub open spec fn create_file_in_directory_spec(
    directory: DirectoryView,
    files: Map<Seq<char>, FileMetadataView>,
    file_name: Seq<char>,
    permissions: Seq<char>,
    now: Seq<char>,
    touched: Seq<char>,
) -> Result<(DirectoryView, Map<Seq<char>, FileMetadataView>), VfsError> {
    if directory.files.contains_key(file_name) {
        Err(VfsError::FileAlreadyExists)
    } else {
        let record = FileMetadataView::created(file_name, directory.name, permissions, 0, now);
        Ok(
            (
                DirectoryView {
                    files: directory.files.insert(file_name, record),
                    modified_at: touched,
                    ..directory
                },
                files.insert(record.path, record),
            ),
        )
    }
}

/// What removing a file from a directory does to the directory and to the
/// records: the file leaves the directory, the record under the file's name
/// leaves the records, and the directory is marked as changed at `touched`.
/// A name that the directory does not hold is refused.
pub open spec fn remove_file_from_directory_spec(
    directory: DirectoryView,
    files: Map<Seq<char>, FileMetadataView>,
    file_name: Seq<char>,
    touched: Seq<char>,
) -> Result<(DirectoryView, Map<Seq<char>, FileMetadataView>), VfsError> {
    if !directory.files.contains_key(file_name) {
        Err(VfsError::FileNotInDirectory)
    } else {
        Ok(
            (
                DirectoryView {
                    files: directory.files.remove(file_name),
                    modified_at: touched,
                    ..directory
                },
                files.remove(file_name),
            ),
        )
    }
}

/// Creates the empty file `file_name` in `directory`, made at `now`, and
/// marks the directory as changed at `touched`. A name that the directory
/// already holds fails with `FileAlreadyExists` and changes nothing.
pub fn create_file_in_directory_at(
    file_name: &str,
    directory: &mut DirectoryMetadata,
    metadata_store: &mut MetadataStore,
    permissions: &str,
    now: &str,
    touched: &str,
) -> (r: Result<(), VfsError>)
    ensures
        match create_file_in_directory_spec(
            old(directory)@,
            old(metadata_store)@,
            file_name@,
            permissions@,
            now@,
            touched@,
        ) {
            Ok(after) => {
                &&& r is Ok
                &&& final(directory)@ == after.0
                &&& final(metadata_store)@ == after.1
                &&& final(directory).subdirectories == old(directory).subdirectories
                &&& final(directory).files.key_seq()
                    == old(directory).files.key_seq().push(file_name@)
            },
            Err(e) => {
                &&& r == Err::<(), VfsError>(e)
                &&& *final(directory) == *old(directory)
                &&& final(metadata_store)@ == old(metadata_store)@
            },
        },
{
    if directory.files.contains_key(file_name) {
        return Err(VfsError::FileAlreadyExists);
    }
    let metadata = create_file_metadata_at(
        file_name,
        directory.name.as_str(),
        permissions,
        0,
        now,
    );
    directory.files.insert(file_name.to_owned(), metadata.clone());
    metadata_store.add_file(metadata.path.as_str(), metadata.clone());
    directory.modified_at = touched.to_owned();
    proof {
        assert(directory@.files =~= old(directory)@.files.insert(file_name@, metadata@));
        assert(directory@.subdirectories =~= old(directory)@.subdirectories);
    }
    Ok(())
}

/// Creates the empty file `file_name` in `directory`. The current time is
/// read once for the record and once for the directory; both can be read
/// from the results.
pub fn create_file_in_directory(
    file_name: &str,
    directory: &mut DirectoryMetadata,
    metadata_store: &mut MetadataStore,
    permissions: &str,
) -> (r: Result<(), VfsError>)
    ensures
        old(directory)@.files.contains_key(file_name@) ==> {
            &&& r == Err::<(), VfsError>(VfsError::FileAlreadyExists)
            &&& *final(directory) == *old(directory)
            &&& final(metadata_store)@ == old(metadata_store)@
        },
        !old(directory)@.files.contains_key(file_name@) ==> {
            &&& r is Ok
            &&& final(directory)@.files.contains_key(file_name@)
            &&& create_file_in_directory_spec(
                old(directory)@,
                old(metadata_store)@,
                file_name@,
                permissions@,
                final(directory)@.files[file_name@].modified_at,
                final(directory)@.modified_at,
            ) == Ok::<(DirectoryView, Map<Seq<char>, FileMetadataView>), VfsError>(
                (final(directory)@, final(metadata_store)@),
            )
            &&& final(directory).subdirectories == old(directory).subdirectories
        },
{
    let now = current_timestamp();
    let touched = current_timestamp();
    create_file_in_directory_at(
        file_name,
        directory,
        metadata_store,
        permissions,
        now.as_str(),
        touched.as_str(),
    )
}

/// Removes the file `file_name` from `directory` and the record under that
/// name from the records, and marks the directory as changed at `touched`.
/// A name that the directory does not hold fails with `FileNotInDirectory`
/// and changes nothing.
pub fn remove_file_from_directory_at(
    file_name: &str,
    directory: &mut DirectoryMetadata,
    metadata_store: &mut MetadataStore,
    touched: &str,
) -> (r: Result<(), VfsError>)
    ensures
        match remove_file_from_directory_spec(
            old(directory)@,
            old(metadata_store)@,
            file_name@,
            touched@,
        ) {
            Ok(after) => {
                &&& r is Ok
                &&& final(directory)@ == after.0
                &&& final(metadata_store)@ == after.1
                &&& final(directory).subdirectories == old(directory).subdirectories
                &&& final(directory).files.key_seq() == without(
                    old(directory).files.key_seq(),
                    file_name@,
                )
            },
            Err(e) => {
                &&& r == Err::<(), VfsError>(e)
                &&& *final(directory) == *old(directory)
                &&& final(metadata_store)@ == old(metadata_store)@
            },
        },
{
    if !directory.files.contains_key(file_name) {
        return Err(VfsError::FileNotInDirectory);
    }
    let _ = directory.files.remove(file_name);
    metadata_store.remove_file_metadata(file_name);
    directory.modified_at = touched.to_owned();
    proof {
        assert(directory@.files =~= old(directory)@.files.remove(file_name@));
        assert(directory@.subdirectories =~= old(directory)@.subdirectories);
    }
    Ok(())
}

/// Removes the file `file_name` from `directory` and the record under that
/// name from the records, and marks the directory as changed at the current
/// time, which can be read from it.
pub fn remove_file_from_directory(
    file_name: &str,
    directory: &mut DirectoryMetadata,
    metadata_store: &mut MetadataStore,
) -> (r: Result<(), VfsError>)
    ensures
        match remove_file_from_directory_spec(
            old(directory)@,
            old(metadata_store)@,
            file_name@,
            final(directory)@.modified_at,
        ) {
            Ok(after) => {
                &&& r is Ok
                &&& final(directory)@ == after.0
                &&& final(metadata_store)@ == after.1
                &&& final(directory).subdirectories == old(directory).subdirectories
                &&& final(directory).files.key_seq() == without(
                    old(directory).files.key_seq(),
                    file_name@,
                )
            },
            Err(e) => {
                &&& r == Err::<(), VfsError>(e)
                &&& *final(directory) == *old(directory)
                &&& final(metadata_store)@ == old(metadata_store)@
            },
        },
{
    let touched = current_timestamp();
    remove_file_from_directory_at(file_name, directory, metadata_store, touched.as_str())
}

/// Reads a file: the bytes of its blocks in order, cut down to the recorded
/// size, as a string. It fails with `FileNotFound` when no record stands
/// under `path`, with `InvalidBlockIndex` when the record lists a block
/// outside the store, and with `InvalidUtf8` when the bytes are no UTF-8.
pub fn read_file(path: &str, metadata_store: &MetadataStore, block_manager: &BlockManager) -> (r:
    Result<String, VfsError>)
    requires
        block_manager.wf(),
    ensures
        match read_file_spec(metadata_store@, block_manager@, path@) {
            Ok(text) => r is Ok && r->Ok_0@ == text,
            Err(e) => r is Err && r->Err_0 == e,
        },
{
    let metadata = match metadata_store.get_file_metadata(path) {
        Some(metadata) => metadata,
        None => {
            return Err(VfsError::FileNotFound);
        },
    };
    let mut content: Vec<u8> = Vec::new();
    let mut i: usize = 0;
    assert(metadata.block_indices@.subrange(0, 0) =~= Seq::<usize>::empty());
    while i < metadata.block_indices.len()
        invariant
            i <= metadata.block_indices@.len(),
            block_manager.wf(),
            metadata_store@.contains_key(path@),
            metadata@ == metadata_store@[path@],
            read_blocks(block_manager@, metadata.block_indices@.subrange(0, i as int)) == Ok::<
                Seq<u8>,
                VfsError,
            >(content@),
        decreases metadata.block_indices@.len() - i,
    {
        let ghost taken = metadata.block_indices@.subrange(0, i + 1);
        proof {
            assert(taken.drop_last() =~= metadata.block_indices@.subrange(0, i as int));
            assert(taken.last() == metadata.block_indices@[i as int]);
        }
        let mut block = match block_manager.read_block(metadata.block_indices[i]) {
            Ok(block) => block,
            Err(e) => {
                proof {
                    lemma_read_blocks_prefix(block_manager@, metadata.block_indices@, i + 1);
                }
                return Err(e);
            },
        };
        content.append(&mut block);
        i += 1;
    }
    assert(metadata.block_indices@.subrange(0, i as int) =~= metadata.block_indices@);
    if metadata.size < content.len() as u64 {
        content.truncate(metadata.size as usize);
    }
    match String::from_utf8(content) {
        Ok(text) => {
            proof {
                encode_utf8_decode_utf8(text@);
            }
            Ok(text)
        },
        Err(_) => Err(VfsError::InvalidUtf8),
    }
}

/// When reading a prefix of the blocks fails, reading all of them fails the
/// same way.
pub proof fn lemma_read_blocks_prefix(state: StoreState, indices: Seq<usize>, n: int)
    requires
        0 <= n <= indices.len(),
        read_blocks(state, indices.subrange(0, n)) is Err,
    ensures
        read_blocks(state, indices) == read_blocks(state, indices.subrange(0, n)),
    decreases indices.len() - n,
{
    if n == indices.len() {
        assert(indices.subrange(0, n) =~= indices);
    } else {
        let next = indices.subrange(0, n + 1);
        assert(next.drop_last() =~= indices.subrange(0, n));
        lemma_read_blocks_prefix(state, indices, n + 1);
    }
}

/// Writes `data` to a file and records `now` as the time of the change.
///
/// The record is looked up under the resolved path; without one the call
/// fails with `FileNotFound` and changes nothing. The bytes of `data` are cut
/// into chunks of one block; for each chunk the lowest free block is
/// allocated and the chunk written to it. The new blocks are added behind
/// those that the record already lists, the size becomes the number of bytes
/// of `data`, and the record is put under `path` as it was given. When the
/// blocks run out the call fails with `NoFreeBlocks`: the blocks taken so far
/// stay allocated and the records stay as they were.
#[verifier::loop_isolation(false)]
pub fn write_to_file_at(
    path: &str,
    data: &str,
    metadata_store: &mut MetadataStore,
    block_manager: &mut BlockManager,
    current_directory: &DirectoryMetadata,
    now: &str,
) -> (r: Result<(), VfsError>)
    requires
        old(block_manager).wf(),
    ensures
        final(block_manager).wf(),
        (final(metadata_store)@, final(block_manager)@, r) == write_to_file_spec(
            old(metadata_store)@,
            old(block_manager)@,
            current_directory@.name,
            path@,
            encode_utf8(data@),
            now@,
        ),
{
    let resolved_path = resolve_path(current_directory, path);
    let mut updated_metadata = match metadata_store.get_file_metadata(resolved_path.as_str()) {
        Some(metadata) => metadata.clone(),
        None => {
            return Err(VfsError::FileNotFound);
        },
    };
    let bytes = data.as_bytes();
    let block_size = block_manager.geometry().block_size;
    let ghost start = block_manager@;
    let ghost found = updated_metadata@;
    let ghost used = Seq::<usize>::empty();
    let mut pos: usize = 0;
    proof {
        assert(bytes@.subrange(0, bytes@.len() as int) =~= bytes@);
        assert(used + store_chunks(start, bytes@).1->Ok_0 =~= store_chunks(start, bytes@).1->Ok_0);
    }
    while pos < bytes.len()
        invariant
            pos <= bytes@.len(),
            block_manager.wf(),
            block_manager@.geometry == start.geometry,
            block_size == start.geometry.block_size,
            *metadata_store == *old(metadata_store),
            updated_metadata@ == (FileMetadataView {
                block_indices: found.block_indices + used,
                ..found
            }),
            store_chunks(start, bytes@) == after_blocks(
                used,
                store_chunks(block_manager@, bytes@.subrange(pos as int, bytes@.len() as int)),
            ),
        decreases bytes@.len() - pos,
    {
        let ghost rest = bytes@.subrange(pos as int, bytes@.len() as int);
        let ghost before = block_manager@;
        let block_index = match block_manager.allocate_block() {
            Ok(index) => index,
            Err(e) => {
                return Err(e);
            },
        };
        let end = if bytes.len() - pos > block_size {
            pos + block_size
        } else {
            bytes.len()
        };
        let chunk = slice_subrange(bytes, pos, end);
        proof {
            assert(chunk@ =~= rest.subrange(0, chunk_len(start.geometry, rest.len() as int)));
            assert(bytes@.subrange(end as int, bytes@.len() as int) =~= rest.subrange(
                chunk_len(start.geometry, rest.len() as int),
                rest.len() as int,
            ));
        }
        block_manager.write_block(block_index, chunk)?;
        updated_metadata.block_indices.push(block_index);
        proof {
            let tail = store_chunks(
                block_manager@,
                bytes@.subrange(end as int, bytes@.len() as int),
            );
            assert(store_chunks(before, rest) == after_blocks(seq![block_index], tail));
            if tail.1 is Ok {
                assert((used + seq![block_index]) + tail.1->Ok_0 =~= used + (seq![block_index]
                    + tail.1->Ok_0));
            }
            assert(found.block_indices + (used + seq![block_index]) =~= (found.block_indices
                + used).push(block_index));
            used = used + seq![block_index];
        }
        pos = end;
    }
    proof {
        assert(bytes@.subrange(pos as int, bytes@.len() as int) =~= Seq::<u8>::empty());
        assert(used + Seq::<usize>::empty() =~= used);
    }
    updated_metadata.size = data.len() as u64;
    updated_metadata.modified_at = now.to_owned();
    metadata_store.update_file_metadata(path, updated_metadata);
    Ok(())
}

/// Writes `data` to a file and records the current time as the time of the
/// change; that time can be read from the record under `path` afterwards.
/// See [`write_to_file_at`] for what is written where.
pub fn write_to_file(
    path: &str,
    data: &str,
    metadata_store: &mut MetadataStore,
    block_manager: &mut BlockManager,
    current_directory: &DirectoryMetadata,
) -> (r: Result<(), VfsError>)
    requires
        old(block_manager).wf(),
    ensures
        final(block_manager).wf(),
        (final(metadata_store)@, final(block_manager)@, r) == write_to_file_spec(
            old(metadata_store)@,
            old(block_manager)@,
            current_directory@.name,
            path@,
            encode_utf8(data@),
            final(metadata_store)@[path@].modified_at,
        ),
{
    let now = current_timestamp();
    write_to_file_at(
        path,
        data,
        metadata_store,
        block_manager,
        current_directory,
        now.as_str(),
    )
}

/// Removes a file: frees its blocks in the order in which the record lists
/// them, then drops the record. With no record under `path` nothing happens
/// and the call succeeds. When the record lists a block outside the store
/// the call fails with `InvalidBlockIndex`: the blocks before it stay freed
/// and the record stays.
#[verifier::loop_isolation(false)]
pub fn remove_file(
    path: &str,
    metadata_store: &mut MetadataStore,
    block_manager: &mut BlockManager,
) -> (r: Result<(), VfsError>)
    requires
        old(block_manager).wf(),
    ensures
        final(block_manager).wf(),
        (final(metadata_store)@, final(block_manager)@, r) == remove_file_spec(
            old(metadata_store)@,
            old(block_manager)@,
            path@,
        ),
{
    let ghost start = block_manager@;
    match metadata_store.get_file_metadata(path) {
        Some(metadata) => {
            let mut i: usize = 0;
            assert(metadata.block_indices@.skip(0) =~= metadata.block_indices@);
            while i < metadata.block_indices.len()
                invariant
                    i <= metadata.block_indices@.len(),
                    block_manager.wf(),
                    free_blocks(start, metadata.block_indices@) == free_blocks(
                        block_manager@,
                        metadata.block_indices@.skip(i as int),
                    ),
                decreases metadata.block_indices@.len() - i,
            {
                proof {
                    let rest = metadata.block_indices@.skip(i as int);
                    assert(rest[0] == metadata.block_indices@[i as int]);
                    assert(rest.drop_first() =~= metadata.block_indices@.skip(i + 1));
                }
                block_manager.free_block(metadata.block_indices[i])?;
                i += 1;
            }
        },
        None => {
            return Ok(());
        },
    }
    metadata_store.remove_file_metadata(path);
    Ok(())
}

} // verus!
