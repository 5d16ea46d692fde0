use vstd::prelude::*;

verus! {

/// Every way an operation of this crate can fail.
///
/// The first five variants belong to the block layer, the others to the
/// file and directory layer built on top of it.
#[derive(Clone, Copy, Debug, PartialEq, Eq, Structural)]
pub enum VfsError {
    /// The medium under the store could not be read or written.
    IoError,
    /// A block index at or beyond the number of blocks of the store.
    InvalidBlockIndex,
    /// A payload longer than one block.
    DataTooLarge,
    /// An allocation was asked for while every block is occupied.
    NoFreeBlocks,
    /// The bytes offered as a store do not have the length or the signature
    /// of a formatted store.
    CorruptStore,
    /// No file is recorded under the path.
    FileNotFound,
    /// The directory already holds a file of that name.
    FileAlreadyExists,
    /// The directory holds no file of that name.
    FileNotInDirectory,
    /// The directory already holds a subdirectory of that name.
    DirectoryAlreadyExists,
    /// No subdirectory of that name.
    DirectoryNotFound,
    /// The directory still holds files or subdirectories.
    DirectoryNotEmpty,
    /// A path component `..`, which is not supported.
    ParentNavigation,
    /// The stored bytes of a file are not UTF-8.
    InvalidUtf8,
}

impl VfsError {
    /// The sentence that describes the error.
    pub open spec fn text(self) -> Seq<char> {
        match self {
            VfsError::IoError => "Store could not be read or written"@,
            VfsError::InvalidBlockIndex => "Invalid block index"@,
            VfsError::DataTooLarge => "Data exceeds block size"@,
            VfsError::NoFreeBlocks => "No free blocks available"@,
            VfsError::CorruptStore => "Not a formatted store"@,
            VfsError::FileNotFound => "File not found"@,
            VfsError::FileAlreadyExists => "File already exists in this directory"@,
            VfsError::FileNotInDirectory => "File not found in this directory"@,
            VfsError::DirectoryAlreadyExists => "Directory already exists"@,
            VfsError::DirectoryNotFound => "Directory not found"@,
            VfsError::DirectoryNotEmpty => "Directory is not empty"@,
            VfsError::ParentNavigation => "Parent navigation not implemented"@,
            VfsError::InvalidUtf8 => "File contains invalid UTF-8 data"@,
        }
    }

    /// The sentence that describes the error, as a string.
    pub fn message(&self) -> (message: String)
        ensures
            message@ == self.text(),
    {
        let text = match self {
            VfsError::IoError => "Store could not be read or written",
            VfsError::InvalidBlockIndex => "Invalid block index",
            VfsError::DataTooLarge => "Data exceeds block size",
            VfsError::NoFreeBlocks => "No free blocks available",
            VfsError::CorruptStore => "Not a formatted store",
            VfsError::FileNotFound => "File not found",
            VfsError::FileAlreadyExists => "File already exists in this directory",
            VfsError::FileNotInDirectory => "File not found in this directory",
            VfsError::DirectoryAlreadyExists => "Directory already exists",
            VfsError::DirectoryNotFound => "Directory not found",
            VfsError::DirectoryNotEmpty => "Directory is not empty",
            VfsError::ParentNavigation => "Parent navigation not implemented",
            VfsError::InvalidUtf8 => "File contains invalid UTF-8 data",
        };
        text.to_owned()
    }
}

} // verus!
