use gravity_core::{Filename, GravityError, IoFailure};

fn parse(path: &str) -> Filename {
    Filename::from_path(path).expect("the path has a file name")
}

#[test]
fn from_path_splits_the_final_component() {
    assert_eq!(
        parse("/photos/2024/beach.JPG"),
        Filename { base: "beach".to_string(), extension: Some("JPG".to_string()) }
    );
    assert_eq!(parse("notes"), Filename { base: "notes".to_string(), extension: None });
    assert_eq!(
        parse("a/archive.tar.gz"),
        Filename { base: "archive.tar".to_string(), extension: Some("gz".to_string()) }
    );
    assert_eq!(parse(".bashrc"), Filename { base: ".bashrc".to_string(), extension: None });
    assert_eq!(
        parse("dir/trailing."),
        Filename { base: "trailing".to_string(), extension: Some("".to_string()) }
    );
    assert_eq!(parse("dir/sub/"), Filename { base: "sub".to_string(), extension: None });
}

#[test]
fn from_path_normalizes_to_nfc() {
    // "e" followed by a combining acute accent becomes the single character.
    let name = parse("docs/cafe\u{301}.txt");
    assert_eq!(name.base, "caf\u{e9}");
    assert_eq!(name.extension, Some("txt".to_string()));
    // Already composed text stays as it is.
    assert_eq!(parse("docs/caf\u{e9}.txt").base, "caf\u{e9}");
}

#[test]
fn from_path_refuses_a_path_without_a_file_name() {
    for path in ["", "/", "..", "dir/.."] {
        match Filename::from_path(path) {
            Err(GravityError::RuleError(reason)) => assert_eq!(reason, "Invalid path"),
            other => panic!("{:?} for {:?}", other, path),
        }
    }
}

#[test]
fn to_string_joins_base_and_extension() {
    let with = Filename { base: "beach".to_string(), extension: Some("jpg".to_string()) };
    assert_eq!(with.to_string(), "beach.jpg");
    let without = Filename { base: "beach".to_string(), extension: None };
    assert_eq!(without.to_string(), "beach");
    let empty = Filename { base: "beach".to_string(), extension: Some("".to_string()) };
    assert_eq!(empty.to_string(), "beach.");
}

#[test]
fn normalized_names_round_trip() {
    for path in ["beach.jpg", "notes", ".hidden", "archive.tar.gz", "cafe\u{301}.txt"] {
        let first = parse(path);
        let second = parse(&first.to_string());
        assert_eq!(first, second);
    }
}

#[test]
fn error_messages() {
    assert_eq!(GravityError::Normalization.message(), "Normalization error");
    assert_eq!(
        GravityError::RuleError("Invalid path".to_string()).message(),
        "Rule execution failed: Invalid path"
    );
    assert_eq!(
        GravityError::Io(IoFailure { message: "disk full".to_string() }).message(),
        "IO error: disk full"
    );
}

#[test]
fn from_file_name_splits_at_the_last_dot() {
    let split = |name: &str| {
        let parts = Filename::from_file_name(name);
        (parts.base, parts.extension)
    };
    assert_eq!(split("archive.tar.gz"), ("archive.tar".to_string(), Some("gz".to_string())));
    assert_eq!(split("beach.JPG"), ("beach".to_string(), Some("JPG".to_string())));
    assert_eq!(split("notes"), ("notes".to_string(), None));
    assert_eq!(split(".bashrc"), (".bashrc".to_string(), None));
    assert_eq!(split(".bashrc.bak"), (".bashrc".to_string(), Some("bak".to_string())));
    assert_eq!(split("trailing."), ("trailing".to_string(), Some("".to_string())));
    assert_eq!(split("."), (".".to_string(), None));
    assert_eq!(split(""), ("".to_string(), None));
    assert_eq!(split("日本.語"), ("日本".to_string(), Some("語".to_string())));
}

#[test]
fn from_file_name_agrees_with_the_standard_library() {
    for name in
        ["archive.tar.gz", "notes", ".bashrc", ".a.b", "a.", "a..b", "x.y.z.", "né.é", "a b.c d"]
    {
        let parts = Filename::from_file_name(name);
        let path = std::path::Path::new(name);
        assert_eq!(Some(parts.base.as_str()), path.file_stem().and_then(|s| s.to_str()), "{}", name);
        assert_eq!(parts.extension.as_deref(), path.extension().and_then(|s| s.to_str()), "{}", name);
    }
}
