use capabara::rust_path::RustPath;

#[test]
fn test_new_and_as_str() {
    let path = RustPath::new("std::collections::Vec");
    assert_eq!(path.as_str(), "std::collections::Vec");
}

#[test]
fn rust_path_test_new_and_as_str() {
    let path = RustPath::new("std::io::cursor::Cursor<T>");
    assert_eq!(path.as_str(), "std::io::cursor::Cursor<T>");
    let path = RustPath::new("std::collections::Vec");
    assert_eq!(path.as_str(), "std::collections::Vec");
}

#[test]
fn test_segments() {
    let path = RustPath::new("std::collections::Vec");
    assert_eq!(path.segments(), vec!["std", "collections", "Vec"]);

    let empty = RustPath::new("");
    assert_eq!(empty.segments(), Vec::<&str>::new());

    let single = RustPath::new("Vec");
    assert_eq!(single.segments(), vec!["Vec"]);
}

#[test]
fn rust_path_test_segments() {
    let path = RustPath::new("std::collections::Vec");
    assert_eq!(path.segments(), vec!["std", "collections", "Vec"]);

    let empty = RustPath::new("");
    assert_eq!(empty.segments(), Vec::<&str>::new());

    let single = RustPath::new("Vec");
    assert_eq!(single.segments(), vec!["Vec"]);
}

#[test]
fn test_display() {
    let path = RustPath::new("std::collections::Vec");
    assert_eq!(path.to_string(), "std::collections::Vec");
}

#[test]
fn rust_path_test_display() {
    let path = RustPath::new("std::collections::Vec");
    assert_eq!(path.to_string(), "std::collections::Vec");
}

#[test]
fn test_debug() {
    let path = RustPath::new("std::collections::Vec");
    assert_eq!(format!("{path:?}"), "RustPath(\"std::collections::Vec\")");
}

#[test]
fn rust_path_test_debug() {
    let path = RustPath::new("std::collections::Vec");
    assert_eq!(format!("{:?}", path), "RustPath(\"std::collections::Vec\")");
}

#[test]
fn test_deref() {
    let path = RustPath::new("std::collections::Vec");
    assert_eq!(&*path, "std::collections::Vec");
    assert_eq!(path.len(), 21); // String length via Deref
}

#[test]
fn rust_path_test_deref() {
    let path = RustPath::new("std::collections::Vec");
    assert_eq!(&*path, "std::collections::Vec");
    assert_eq!(path.len(), 21); // String length via Deref
}

#[test]
fn test_partial_eq_with_str() {
    let path = RustPath::new("std::collections::Vec");

    // RustPath == str
    assert_eq!(path, *"std::collections::Vec");
    assert_ne!(path, *"different::path");

    // RustPath == &str
    assert_eq!(path, "std::collections::Vec");
    assert_ne!(path, "different::path");

    // str == RustPath
    assert_eq!(*"std::collections::Vec", path);
    assert_ne!(*"different::path", path);

    // &str == RustPath
    assert_eq!("std::collections::Vec", path);
    assert_ne!("different::path", path);
}

#[test]
fn rust_path_test_partial_eq_with_str() {
    let path = RustPath::new("std::collections::Vec");

    // RustPath == str
    assert_eq!(path, *"std::collections::Vec");
    assert_ne!(path, *"different::path");

    // RustPath == &str
    assert_eq!(path, "std::collections::Vec");
    assert_ne!(path, "different::path");

    // str == RustPath
    assert_eq!(*"std::collections::Vec", path);
    assert_ne!(*"different::path", path);

    // &str == RustPath
    assert_eq!("std::collections::Vec", path);
    assert_ne!("different::path", path);
}

#[test]
fn from_segments_joins_with_separator() {
    let path = RustPath::from_segments(vec!["std".to_owned(), "fs".to_owned(), "read".to_owned()]);
    assert_eq!(path.as_str(), "std::fs::read");
    assert_eq!(RustPath::from_segments(vec![]).as_str(), "");
}

#[test]
fn push_segment_on_empty_and_nonempty_path() {
    let mut path = RustPath::new("");
    path.push_segment("std");
    assert_eq!(path.as_str(), "std");
    path.push_segment("fs");
    assert_eq!(path.as_str(), "std::fs");
    let longer = path.with_segment("File");
    assert_eq!(longer.as_str(), "std::fs::File");
}

#[test]
fn segments_of_odd_separators() {
    assert_eq!(RustPath::new(":::").segments(), vec!["", ":"]);
    assert_eq!(RustPath::new("a::").segments(), vec!["a", ""]);
    assert_eq!(RustPath::new("::a").segments(), vec!["", "a"]);
    assert_eq!(RustPath::new("é::ü").segments(), vec!["é", "ü"]);
}
