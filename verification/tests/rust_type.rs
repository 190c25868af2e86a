use capabara::demangle::demangle_symbol;
use capabara::rust_path::RustPath;
use capabara::rust_type::{ParseError, TraitFnImpl, TypeName};
use capabara::symbol::FunctionOrPath;

fn path(text: &str) -> TypeName {
    TypeName::RustPath(RustPath::new(text))
}

#[test]
fn test_path_finding() {
    let tests = vec![
        (
            "__ZN66_$LT$std..io..cursor..Cursor$LT$T$GT$$u20$as$u20$std..io..Read$GT$4read17h3955760825c0713eE",
            vec!["std::io::cursor::Cursor", "std::io::Read"],
        ),
        (
            "_<dyn core..any..Any>::is::h10782f44127ca60f",
            vec!["core::any::Any"],
        ),
        (
            "<T as <std::OsString as core::From<&T>>::SpecToOsString>::spec_to_os_string",
            vec!["std::OsString", "core::From"],
        ),
        (
            "<std..io..cursor..Cursor<T> as std..io..Read>::read_exact",
            vec!["std::io::cursor::Cursor", "std::io::Read"],
        ),
        (
            "<<alloc..btree..map..IntoIter<K,V,A> as core..Drop>..drop..DropGuard<K,V,A> as core..Drop>::drop",
            vec!["alloc::btree::map::IntoIter", "core::Drop", "core::Drop"],
        ),
        (
            "<<alloc..collections..btree..map..IntoIter<K,V,A> as core..ops..drop..Drop>..drop..DropGuard<K,V,A> as core..ops..drop..Drop>::drop",
            vec![
                "alloc::collections::btree::map::IntoIter",
                "core::ops::drop::Drop",
                "core::ops::drop::Drop",
            ],
        ),
        (
            "<(A,B) as core::ops::range::RangeBounds<T>>::start_bound",
            vec!["core::ops::range::RangeBounds"],
        ),
        (
            "<[core::mem::maybe_uninit::MaybeUninit<T>] as core::array::iter::iter_inner::PartialDrop>::partial_drop",
            vec![
                "core::mem::maybe_uninit::MaybeUninit",
                "core::array::iter::iter_inner::PartialDrop",
            ],
        ),
        (
            "__ZN77_$LT$$RF$$u5b$syn..attr..Attribute$u5d$$u20$as$u20$syn..attr..FilterAttrs$GT$5outer17h1d80fb5ca49672feE",
            vec!["syn::attr::Attribute", "syn::attr::FilterAttrs"],
        ),
        (
            r#"<extern "C" fn(&T,objc::runtime::Sel) -> R as objc::declare::MethodImplementation>::imp"#,
            vec!["objc::runtime::Sel", "objc::declare::MethodImplementation"],
        ),
        (
            "<[(K,V); N] as axum_core::response::into_response::IntoResponse>::into_response",
            vec!["axum_core::response::into_response::IntoResponse"],
        ),
    ];

    for (mangled, expected_paths) in tests {
        let demangled = demangle_symbol(mangled);
        let paths = RustPath::find_all_with_at_least_two_segments_in(&demangled);
        assert_eq!(paths, expected_paths, "{demangled} ({mangled})");
    }
}

#[test]
fn rust_type_test_parse_trait_impl() {
    let tests = vec![
        (
            "__ZN66_$LT$std..io..cursor..Cursor$LT$T$GT$$u20$as$u20$std..io..Read$GT$4read17h3955760825c0713eE",
            vec!["std::io::cursor::Cursor", "std::io::Read"],
        ),
        (
            "_<dyn core..any..Any>::is::h10782f44127ca60f",
            vec!["core::any::Any"],
        ),
        (
            "<T as <std::OsString as core::From<&T>>::SpecToOsString>::spec_to_os_string",
            vec!["std::OsString", "core::From"],
        ),
        (
            "<std..io..cursor..Cursor<T> as std..io..Read>::read_exact",
            vec!["std::io::cursor::Cursor", "std::io::Read"],
        ),
        (
            "<<alloc..btree..map..IntoIter<K,V,A> as core..Drop>..drop..DropGuard<K,V,A> as core..Drop>::drop",
            vec!["alloc::btree::map::IntoIter", "core::Drop", "core::Drop"],
        ),
        (
            "<<alloc..collections..btree..map..IntoIter<K,V,A> as core..ops..drop..Drop>..drop..DropGuard<K,V,A> as core..ops..drop..Drop>::drop",
            vec![
                "alloc::collections::btree::map::IntoIter",
                "core::ops::drop::Drop",
                "core::ops::drop::Drop",
            ],
        ),
        (
            "<(A,B) as core::ops::range::RangeBounds<T>>::start_bound",
            vec!["core::ops::range::RangeBounds"],
        ),
        (
            "<[core::mem::maybe_uninit::MaybeUninit<T>] as core::array::iter::iter_inner::PartialDrop>::partial_drop",
            vec![
                "core::mem::maybe_uninit::MaybeUninit",
                "core::array::iter::iter_inner::PartialDrop",
            ],
        ),
        (
            "__ZN77_$LT$$RF$$u5b$syn..attr..Attribute$u5d$$u20$as$u20$syn..attr..FilterAttrs$GT$5outer17h1d80fb5ca49672feE",
            vec!["syn::attr::Attribute", "syn::attr::FilterAttrs"],
        ),
        (
            r#"<extern "C" fn(&T,objc::runtime::Sel) -> R as objc::declare::MethodImplementation>::imp"#,
            vec!["objc::runtime::Sel", "objc::declare::MethodImplementation"],
        ),
        (
            "<[(K,V); N] as axum_core::response::into_response::IntoResponse>::into_response",
            vec!["axum_core::response::into_response::IntoResponse"],
        ),
    ];

    for (mangled, expected_paths) in tests {
        let demangled = demangle_symbol(mangled);
        let paths = FunctionOrPath::from_demangled(&demangled);
        let paths: Vec<_> = paths.into_iter().map(|p| p.to_string()).collect();
        assert_eq!(paths, expected_paths, "{demangled} ({mangled})");
    }
}

#[test]
fn trait_impl_with_generics() {
    let parsed =
        TraitFnImpl::parse("<std::io::cursor::Cursor<T> as std::io::Read>::read_exact").unwrap();
    assert_eq!(parsed.function_name, "read_exact");
    assert_eq!(
        parsed.self_type,
        TypeName::TypeAsTrait {
            self_type: Box::new(path("std::io::cursor::Cursor<T>")),
            trait_name: Box::new(path("std::io::Read")),
        }
    );
    let paths: Vec<String> = parsed.paths().iter().map(|p| p.to_string()).collect();
    assert_eq!(paths, vec!["std::io::cursor::Cursor", "std::io::Read"]);
}

#[test]
fn parse_the_forms_of_types() {
    assert_eq!(TypeName::parse("a::b"), Ok(path("a::b")));
    assert_eq!(TypeName::parse(""), Ok(path("")));
    assert_eq!(TypeName::parse("_<dyn a::B>"), Ok(path("a::B")));
    assert_eq!(
        TypeName::parse("&mut T"),
        Ok(TypeName::Prefixed {
            prefix: "&".to_owned(),
            typ: Box::new(TypeName::Prefixed {
                prefix: "mut".to_owned(),
                typ: Box::new(TypeName::Prefixed {
                    prefix: " ".to_owned(),
                    typ: Box::new(path("T")),
                }),
            }),
        })
    );
    assert_eq!(
        TypeName::parse("(A,(B,C))"),
        Ok(TypeName::Tuple(vec![path("A"), TypeName::Tuple(vec![path("B"), path("C")])]))
    );
    assert_eq!(TypeName::parse("()"), Ok(TypeName::Tuple(vec![path("")])));
    assert_eq!(TypeName::parse("[T]"), Ok(TypeName::Slice(Box::new(path("T")))));
    assert_eq!(TypeName::parse("[T; 3]"), Ok(TypeName::Slice(Box::new(path("T")))));
    assert_eq!(
        TypeName::parse("fn(A,B) -> C"),
        Ok(TypeName::Fn { params: vec![path("A"), path("B")], ret: Some(Box::new(path("C"))) })
    );
    assert_eq!(
        TypeName::parse("fn(A)"),
        Ok(TypeName::Fn { params: vec![path("A")], ret: None })
    );
    assert_eq!(
        TypeName::parse("<A as B>"),
        Ok(TypeName::TypeAsTrait {
            self_type: Box::new(path("A")),
            trait_name: Box::new(path("B")),
        })
    );
    assert_eq!(
        TypeName::parse("<A as B>::C::D"),
        Ok(TypeName::AssociatedPath {
            self_type: Box::new(path("A")),
            trait_name: Box::new(path("B")),
            associated_type: RustPath::new("C::D"),
        })
    );
    // The first ` as ` at depth one splits.
    assert_eq!(
        TypeName::parse("<A as B as C>"),
        Ok(TypeName::TypeAsTrait {
            self_type: Box::new(path("A")),
            trait_name: Box::new(path("B as C")),
        })
    );
    // An arrow closes no bracket.
    assert_eq!(
        TypeName::parse("<fn(A) -> B as C>"),
        Ok(TypeName::TypeAsTrait {
            self_type: Box::new(TypeName::Fn {
                params: vec![path("A")],
                ret: Some(Box::new(path("B"))),
            }),
            trait_name: Box::new(path("C")),
        })
    );
}

#[test]
fn parse_errors() {
    assert_eq!(TypeName::parse("<A"), Err(ParseError::BadTypeName));
    assert_eq!(TypeName::parse("<"), Err(ParseError::BadTypeName));
    assert_eq!(TypeName::parse("<A>B"), Err(ParseError::UnexpectedTrailing));
    assert_eq!(TypeName::parse("(A,B"), Err(ParseError::MisalignedParenthesis));
    assert_eq!(TypeName::parse("(A)B"), Err(ParseError::TrailingAfterTuple));
    assert_eq!(TypeName::parse("[A"), Err(ParseError::BadTypeName));
    assert_eq!(TypeName::parse("["), Err(ParseError::BadTypeName));
    assert_eq!(TypeName::parse("fn(A"), Err(ParseError::MisalignedParenthesis));
    assert_eq!(TypeName::parse("(<A,B)"), Err(ParseError::BadTypeName));
    assert_eq!(TraitFnImpl::parse("a::b::c").err(), Some(ParseError::NotATraitImpl));
    assert_eq!(TraitFnImpl::parse("<a>x>::f").err(), Some(ParseError::UnexpectedTrailing));
    assert_eq!(ParseError::BadTypeName.message(), "Bad type name");
}

#[test]
fn parser_is_total_on_odd_text() {
    for text in ["<é as ü>::ß", "<<<<", ">>>>", "(((", ")))", "fn(", "fn()->", "<a as >", "[; ]", "[]", "é", "<->", "< as >::"] {
        let _ = TypeName::parse(text);
        let _ = TraitFnImpl::parse(text);
        let _ = FunctionOrPath::from_demangled(text);
        let _ = RustPath::find_all_with_at_least_two_segments_in(text);
    }
    assert_eq!(
        TypeName::parse("<é as ü>"),
        Ok(TypeName::TypeAsTrait {
            self_type: Box::new(path("é")),
            trait_name: Box::new(path("ü")),
        })
    );
}

#[test]
fn path_finding_edge_cases() {
    let find = |text: &str| -> Vec<String> {
        RustPath::find_all_with_at_least_two_segments_in(text)
            .iter()
            .map(|p| p.to_string())
            .collect()
    };
    assert_eq!(find("plain"), Vec::<String>::new());
    assert_eq!(find("a::b"), vec!["a::b"]);
    assert_eq!(find("a::b::"), vec!["a::b"]);
    assert_eq!(find("a::9b"), Vec::<String>::new());
    // A path starts where no identifier character stands before it.
    assert_eq!(find("9abc::d"), Vec::<String>::new());
    assert_eq!(find("9 abc::d"), vec!["abc::d"]);
    assert_eq!(find("x>::a::b c::d"), vec!["c::d"]);
    assert_eq!(find("_a::_b1,c::d"), vec!["_a::_b1", "c::d"]);
    assert_eq!(find("a:::b::c"), vec!["b::c"]);
}

#[test]
fn nesting_is_limited() {
    let deep = format!("{}T", "&".repeat(255));
    assert!(TypeName::parse(&deep).is_ok());
    let too_deep = format!("{}T", "&".repeat(256));
    assert_eq!(TypeName::parse(&too_deep), Err(ParseError::TooDeep));
    let huge = format!("{}T", "(".repeat(100_000));
    assert_eq!(TypeName::parse(&huge), Err(ParseError::MisalignedParenthesis));
    let huge = format!("{}T{}", "(".repeat(1_000), ")".repeat(1_000));
    assert_eq!(TypeName::parse(&huge), Err(ParseError::TooDeep));
    // A symbol that cannot be read as a trait implementation is one path.
    let symbol = format!("<{}T as a::B>::f", "&".repeat(300));
    assert_eq!(
        FunctionOrPath::from_demangled(&symbol),
        vec![FunctionOrPath::RustPath(RustPath::new(&symbol))]
    );
    assert_eq!(ParseError::TooDeep.message(), "Type is nested too deeply");
}

#[test]
fn a_prefix_is_a_whole_token() {
    // `dyn` is a prefix only as a whole word: the owning crate is `dynamo`.
    let paths: Vec<String> =
        FunctionOrPath::from_demangled("<dynamo::Client as core::ops::Drop>::drop")
            .into_iter()
            .map(|p| p.to_string())
            .collect();
    assert_eq!(paths, vec!["dynamo::Client", "core::ops::Drop"]);

    let paths_of = |text: &str| -> Vec<String> {
        let mut paths = Vec::new();
        TypeName::parse(text).unwrap().collect_path(&mut paths);
        paths.iter().map(|p| p.to_string()).collect()
    };
    assert_eq!(paths_of("mutex::Guard"), vec!["mutex::Guard"]);
    assert_eq!(paths_of("constants::PI"), vec!["constants::PI"]);
    assert_eq!(paths_of("unsafe_cell::Cell"), vec!["unsafe_cell::Cell"]);
    assert_eq!(paths_of("dyn_clone::DynClone"), vec!["dyn_clone::DynClone"]);
    assert_eq!(paths_of("&mutex::Guard"), vec!["mutex::Guard"]);
    // As whole words the tokens are taken, one after the other.
    assert_eq!(paths_of("dyn core::any::Any"), vec!["core::any::Any"]);
    assert_eq!(paths_of("&mut dynamo::Client"), vec!["dynamo::Client"]);
    assert_eq!(paths_of("*const constants::PI"), vec!["constants::PI"]);
    assert_eq!(
        TypeName::parse("dynamo::Client").unwrap(),
        TypeName::RustPath(RustPath::new("dynamo::Client"))
    );
    assert_eq!(
        TypeName::parse("dyn a::B").unwrap(),
        TypeName::Prefixed {
            prefix: "dyn".to_owned(),
            typ: Box::new(TypeName::Prefixed {
                prefix: " ".to_owned(),
                typ: Box::new(TypeName::RustPath(RustPath::new("a::B"))),
            }),
        }
    );
}
