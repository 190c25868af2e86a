use capabara::rust_path::RustPath;
use capabara::symbol::{filter_symbols, FunctionOrPath, Symbol, SymbolKind, SymbolScope};
use capabara::print::PrintOptions;

#[test]
fn test_paths() {
    let symbol = Symbol::with_metadata(
        "parking_lot::raw_rwlock::RawRwLock::lock_shared_slow".to_owned(),
        SymbolScope::Dynamic,
        SymbolKind::Data,
    );
    assert_eq!(
        symbol.paths(),
        vec![FunctionOrPath::RustPath(RustPath::new(
            "parking_lot::raw_rwlock::RawRwLock::lock_shared_slow"
        ))]
    );
}

#[test]
fn symbol_test_paths() {
    let symbol = Symbol::with_metadata(
        "parking_lot::raw_rwlock::RawRwLock::lock_shared_slow".to_owned(),
        SymbolScope::Dynamic,
        SymbolKind::Data,
    );
    assert_eq!(
        symbol.paths(),
        vec![FunctionOrPath::RustPath(RustPath::new(
            "parking_lot::raw_rwlock::RawRwLock::lock_shared_slow"
        ))]
    )
}

#[test]
fn test_filter_symbols() {
    let symbols = vec![
        Symbol::with_metadata("func1".to_string(), SymbolScope::Linkage, SymbolKind::Text),
        Symbol::with_metadata(
            "local_func".to_string(),
            SymbolScope::Compilation,
            SymbolKind::Text,
        ),
        Symbol::with_metadata(
            "data_var".to_string(),
            SymbolScope::Linkage,
            SymbolKind::Data,
        ),
        Symbol::with_metadata(
            "label1".to_string(),
            SymbolScope::Dynamic,
            SymbolKind::Label,
        ),
        Symbol::with_metadata(
            "unknown_sym".to_string(),
            SymbolScope::Linkage,
            SymbolKind::Unknown,
        ),
    ];

    // Default filtering: exclude local compilation and non-executable (except unknown)
    let filtered = filter_symbols(symbols.clone(), false, false);
    assert_eq!(filtered.len(), 3); // func1, label1, unknown_sym

    // Include local symbols
    let filtered = filter_symbols(symbols.clone(), true, false);
    assert_eq!(filtered.len(), 4); // func1, local_func, label1, unknown_sym

    // Include all kinds
    let filtered = filter_symbols(symbols.clone(), false, true);
    assert_eq!(filtered.len(), 4); // func1, data_var, label1, unknown_sym

    // Include everything
    let filtered = filter_symbols(symbols, true, true);
    assert_eq!(filtered.len(), 5); // all symbols
}

#[test]
fn filter_keeps_order_and_names() {
    let symbols = vec![
        Symbol::with_metadata("second".to_string(), SymbolScope::Linkage, SymbolKind::Text),
        Symbol::with_metadata("section".to_string(), SymbolScope::Linkage, SymbolKind::Section),
        Symbol::with_metadata("first".to_string(), SymbolScope::Unknown, SymbolKind::Label),
        Symbol::with_metadata("tls".to_string(), SymbolScope::Linkage, SymbolKind::Tls),
        Symbol::with_metadata("file".to_string(), SymbolScope::Linkage, SymbolKind::File),
    ];
    let filtered = filter_symbols(symbols, false, false);
    let names: Vec<&str> = filtered.iter().map(|s| s.demangled.as_str()).collect();
    assert_eq!(names, vec!["second", "first"]);
}

#[test]
fn format_with_and_without_mangled() {
    let symbol = Symbol::with_metadata(
        "__ZN4test5hello17hef349e8e72b897f3E".to_owned(),
        SymbolScope::Linkage,
        SymbolKind::Text,
    );
    assert_eq!(symbol.demangled, "test::hello");
    assert_eq!(symbol.format(false), "test::hello");
    assert_eq!(
        symbol.format(true),
        "test::hello (__ZN4test5hello17hef349e8e72b897f3E)"
    );
    let plain = Symbol::with_metadata("main".to_owned(), SymbolScope::Dynamic, SymbolKind::Tls);
    assert_eq!(plain.format(true), "main");
    let options = PrintOptions {
        depth: 2,
        filter: None,
        include_mangled: false,
        show_metadata: true,
    };
    assert_eq!(symbol.format_with_metadata(&options), "test::hello [static/function]");
    assert_eq!(plain.format_with_metadata(&options), "main [dynamic/tls]");
}

#[test]
fn names_of_decoded_symbols() {
    assert_eq!(
        FunctionOrPath::from_demangled("rustc[5224e6b81cd82a8f]::__rust_alloc"),
        vec![FunctionOrPath::Function("__rust_alloc".to_owned())]
    );
    assert_eq!(
        FunctionOrPath::from_demangled("rustc[5224e6b81cd82a8f]::alloc::raw_vec::finish_grow"),
        vec![FunctionOrPath::RustPath(RustPath::new("alloc::raw_vec::finish_grow"))]
    );
    assert_eq!(
        FunctionOrPath::from_demangled("rustc[no end"),
        vec![FunctionOrPath::Function("rustc[no end".to_owned())]
    );
    assert_eq!(
        FunctionOrPath::from_demangled("memcpy"),
        vec![FunctionOrPath::Function("memcpy".to_owned())]
    );
    assert_eq!(
        FunctionOrPath::from_demangled("<i32 as core::fmt::Display>::fmt"),
        vec![FunctionOrPath::RustPath(RustPath::new("core::fmt::Display"))]
    );
    // Text behind the closing bracket makes the type unreadable: the whole text is one path.
    assert_eq!(
        FunctionOrPath::from_demangled("<a>x>::f"),
        vec![FunctionOrPath::RustPath(RustPath::new("<a>x>::f"))]
    );
    assert_eq!(
        FunctionOrPath::from_demangled("<a::b>::c"),
        vec![FunctionOrPath::RustPath(RustPath::new("a::b"))]
    );
}

#[test]
fn symbols_from_raw_names() {
    let symbol = Symbol::from_mangled("_ZN5space3fooEibc".to_owned());
    assert!(symbol.is_demangled());
    assert_eq!(symbol.scope, SymbolScope::Unknown);
    assert_eq!(symbol.kind, SymbolKind::Unknown);
    assert!(!Symbol::from_mangled("main".to_owned()).is_demangled());
}
