use disco::directory::descend;
use disco::layout::signature;
use disco::text::{join_path, split_path, starts_with_separator, str_eq, trim_trailing};
use disco::{DirectoryMetadata, Subdirectories, Table, VfsError};

fn directory(name: &str) -> DirectoryMetadata {
    DirectoryMetadata {
        name: name.to_string(),
        created_at: "t".to_string(),
        modified_at: "t".to_string(),
        files: Table::new(),
        subdirectories: Subdirectories::new(),
    }
}

#[test]
fn signature_is_the_magic_number_least_significant_byte_first() {
    assert_eq!(signature(), vec![0xEF, 0xBE, 0xAD, 0xDE]);
    assert_eq!(disco::MAGIC_NUMBER, 0xDEADBEEF);
    assert_eq!(disco::HEADER_SIZE, 4);
    assert_eq!(disco::FREE_FLAG, 1);
    assert_eq!(disco::OCCUPIED_FLAG, 0);
}

#[test]
fn strings_are_equal_when_their_characters_are() {
    assert!(str_eq("", ""));
    assert!(str_eq("abc", "abc"));
    assert!(str_eq("añ𝄞", "añ𝄞"));
    assert!(!str_eq("abc", "abd"));
    assert!(!str_eq("abc", "ab"));
    assert!(!str_eq("", "a"));
    assert!(!str_eq("é", "e\u{301}"));
}

#[test]
fn only_a_leading_separator_makes_a_path_absolute() {
    assert!(starts_with_separator("/"));
    assert!(starts_with_separator("/a"));
    assert!(starts_with_separator("//"));
    assert!(!starts_with_separator(""));
    assert!(!starts_with_separator("a/"));
    assert!(!starts_with_separator("é/"));
}

#[test]
fn trailing_separators_are_all_removed() {
    assert_eq!(trim_trailing(""), "");
    assert_eq!(trim_trailing("/"), "");
    assert_eq!(trim_trailing("///"), "");
    assert_eq!(trim_trailing("a"), "a");
    assert_eq!(trim_trailing("a/"), "a");
    assert_eq!(trim_trailing("/a//b///"), "/a//b");
    assert_eq!(trim_trailing("ü/é//"), "ü/é");
}

#[test]
fn join_puts_one_separator_between() {
    assert_eq!(join_path("/", "f"), "/f");
    assert_eq!(join_path("", "f"), "/f");
    assert_eq!(join_path("/a/", "f"), "/a/f");
    assert_eq!(join_path("a", "b/c"), "a/b/c");
    assert_eq!(join_path("a//", "/b"), "a//b");
    assert_eq!(join_path("a", ""), "a/");
}

#[test]
fn split_keeps_empty_components() {
    assert_eq!(split_path(""), vec![""]);
    assert_eq!(split_path("a"), vec!["a"]);
    assert_eq!(split_path("a/b"), vec!["a", "b"]);
    assert_eq!(split_path("/a"), vec!["", "a"]);
    assert_eq!(split_path("a/"), vec!["a", ""]);
    assert_eq!(split_path("/"), vec!["", ""]);
    assert_eq!(split_path("a//b"), vec!["a", "", "b"]);
    assert_eq!(split_path("é/𝄞x/.."), vec!["é", "𝄞x", ".."]);
}

#[test]
fn descend_follows_parts_in_order() {
    let mut root = directory("/");
    let mut a = directory("a");
    a.subdirectories.insert("b".to_string(), directory("b"));
    root.subdirectories.insert("a".to_string(), a);

    assert_eq!(descend(&root, &vec![]).unwrap().name, "/");
    assert_eq!(descend(&root, &vec!["a".to_string()]).unwrap().name, "a");
    assert_eq!(
        descend(&root, &vec!["a".to_string(), "b".to_string()]).unwrap().name,
        "b"
    );
    assert_eq!(
        descend(&root, &vec!["b".to_string()]).err(),
        Some(VfsError::DirectoryNotFound)
    );
    assert_eq!(
        descend(&root, &vec!["a".to_string(), "..".to_string()]).err(),
        Some(VfsError::ParentNavigation)
    );
    assert_eq!(
        descend(&root, &vec!["x".to_string(), "..".to_string()]).err(),
        Some(VfsError::DirectoryNotFound)
    );
}

#[test]
fn subdirectories_behave_like_a_table() {
    let mut subs = Subdirectories::new();
    assert!(subs.is_empty());
    assert_eq!(subs.len(), 0);
    subs.insert("y".to_string(), directory("first"));
    subs.insert("x".to_string(), directory("second"));
    subs.insert("y".to_string(), directory("third"));
    assert_eq!(subs.len(), 2);
    assert!(!subs.is_empty());
    assert_eq!(subs.keys(), vec!["y", "x"]);
    assert_eq!(subs.key_at(0), "y");
    assert_eq!(subs.value_at(0).name, "third");
    assert_eq!(subs.value_at(1).name, "second");
    assert_eq!(subs.get("x").unwrap().name, "second");
    assert!(subs.get("z").is_none());
    assert!(subs.contains_key("y"));
    assert!(!subs.contains_key("z"));
    assert_eq!(subs.remove("y").unwrap().name, "third");
    assert!(subs.remove("y").is_none());
    assert_eq!(subs.keys(), vec!["x"]);
}

#[test]
fn every_error_has_its_sentence() {
    assert_eq!(VfsError::NoFreeBlocks.message(), "No free blocks available");
    assert_eq!(VfsError::InvalidBlockIndex.message(), "Invalid block index");
    assert_eq!(VfsError::DataTooLarge.message(), "Data exceeds block size");
    assert_eq!(VfsError::CorruptStore.message(), "Not a formatted store");
    assert_eq!(
        VfsError::IoError.message(),
        "Store could not be read or written"
    );
    assert_eq!(VfsError::FileNotFound.message(), "File not found");
    assert_eq!(
        VfsError::FileAlreadyExists.message(),
        "File already exists in this directory"
    );
    assert_eq!(
        VfsError::FileNotInDirectory.message(),
        "File not found in this directory"
    );
    assert_eq!(
        VfsError::DirectoryAlreadyExists.message(),
        "Directory already exists"
    );
    assert_eq!(VfsError::DirectoryNotFound.message(), "Directory not found");
    assert_eq!(VfsError::DirectoryNotEmpty.message(), "Directory is not empty");
    assert_eq!(
        VfsError::ParentNavigation.message(),
        "Parent navigation not implemented"
    );
    assert_eq!(
        VfsError::InvalidUtf8.message(),
        "File contains invalid UTF-8 data"
    );
}
