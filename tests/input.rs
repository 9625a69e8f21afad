use anot::input::{determine_file_type, determine_file_type_of_text, file_type_for_extension};
use anot::input::{FileType, FileTypeError, Registry};
use std::path::PathBuf;

#[test]
fn test_file_type_detection() {
    assert_eq!(
        determine_file_type(&PathBuf::from("test.py")).unwrap(),
        FileType::Python
    );
    assert_eq!(
        determine_file_type(&PathBuf::from("test.rs")).unwrap(),
        FileType::Rust
    );
    assert_eq!(
        determine_file_type(&PathBuf::from("test.js")).unwrap(),
        FileType::JavaScript
    );
    assert!(determine_file_type(&PathBuf::from("test.txt")).is_err());
}

#[test]
fn extension_table_is_exact() {
    assert_eq!(file_type_for_extension(Some("py")), Some(FileType::Python));
    assert_eq!(file_type_for_extension(Some("rs")), Some(FileType::Rust));
    assert_eq!(file_type_for_extension(Some("js")), Some(FileType::JavaScript));
    assert_eq!(file_type_for_extension(Some("PY")), None);
    assert_eq!(file_type_for_extension(Some("pyc")), None);
    assert_eq!(file_type_for_extension(Some("")), None);
    assert_eq!(file_type_for_extension(None), None);
}

#[test]
fn unsupported_paths_are_errors() {
    assert_eq!(
        determine_file_type(&PathBuf::from("Makefile")),
        Err(FileTypeError::InvalidExtension)
    );
    assert_eq!(
        determine_file_type(&PathBuf::from("src/main.RS")),
        Err(FileTypeError::InvalidExtension)
    );
    assert_eq!(
        determine_file_type(&PathBuf::from(".py")),
        Err(FileTypeError::InvalidExtension)
    );
    assert_eq!(
        determine_file_type(&PathBuf::from("dir.js/notes")),
        Err(FileTypeError::InvalidExtension)
    );
}

#[test]
fn extension_is_the_last_one() {
    assert_eq!(
        determine_file_type_of_text("archive.tar.py"),
        Ok(FileType::Python)
    );
    assert_eq!(
        determine_file_type(&PathBuf::from("a/b.c/lib.rs")),
        Ok(FileType::Rust)
    );
    assert_eq!(
        determine_file_type_of_text("script.py.txt"),
        Err(FileTypeError::InvalidExtension)
    );
}

#[test]
fn try_from_matches_determine() {
    let p = PathBuf::from("x.js");
    assert_eq!(FileType::try_from(&p), Ok(FileType::JavaScript));
    assert!(FileType::try_from(&PathBuf::from("x.md")).is_err());
}

#[test]
fn query_sources_name_comment_nodes() {
    assert_eq!(FileType::Python.comment_query_source(), "(comment) @comment");
    assert_eq!(
        FileType::Rust.comment_query_source(),
        "(line_comment) @comment\n(block_comment) @comment"
    );
    assert_eq!(FileType::JavaScript.comment_query_source(), "(comment) @comment");
}

#[test]
fn registry_builds() {
    assert!(Registry::new().is_ok());
}
