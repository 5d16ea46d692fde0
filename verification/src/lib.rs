//! A small disk-backed file store: a fixed-size image split into equal
//! blocks, a bitmap of free blocks, and a metadata layer that maps paths to
//! lists of blocks.
//!
//! The block layer ([`BlockManager`]) works on the bytes of a store image
//! held in memory; reading the image from a file and writing it back is left
//! to the caller. The metadata layer ([`MetadataStore`],
//! [`DirectoryMetadata`] and the functions on files and directories) is
//! built on the block layer.

pub mod block;
pub mod clock;
pub mod directory;
pub mod error;
pub mod file;
pub mod layout;
pub mod metadata;
pub mod store;
pub mod table;
pub mod text;

pub use block::{BlockManager, StoreState};
pub use directory::{
    change_directory, clone_directory, create_directory, create_directory_at, list_directory,
    remove_directory, resolve_path, update_directory_modified_time,
    update_directory_modified_time_at, DirectoryListing, DirectoryMetadata, DirectoryView,
    Subdirectories,
};
pub use error::VfsError;
pub use file::{
    create_file, create_file_at, create_file_in_directory, create_file_in_directory_at, read_file,
    remove_file, remove_file_from_directory, remove_file_from_directory_at, write_to_file,
    write_to_file_at,
};
pub use layout::{
    Geometry, BLOCK_SIZE, FREE_FLAG, HEADER_SIZE, MAGIC_NUMBER, OCCUPIED_FLAG, TOTAL_BLOCKS,
};
pub use metadata::{
    create_file_metadata, create_file_metadata_at, update_file_metadata, update_file_metadata_at,
    FileMetadata, FileMetadataView, MetadataStore,
};
pub use store::BackingStore;
pub use table::Table;
