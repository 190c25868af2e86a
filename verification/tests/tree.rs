use capabara::build_graph_analysis::{DepGraph, Dependency, GraphError};
use capabara::classify::{classify_symbol, SymbolCategory, SystemSymbolType};
use capabara::dep_kind::{DepKind, DepKindSet};
use capabara::rust_type::{TraitFnImpl, TypeName};
use capabara::symbol::{Symbol, SymbolKind, SymbolScope};
use capabara::tree::{
    filter_tree_by_path, get_or_create_category, group_symbols_by_prefix, insert_leaf,
    insert_symbol_into_tree, tree_from_symbols, Tree,
};

fn symbol(name: &str) -> Symbol {
    Symbol {
        mangled: name.to_owned(),
        demangled: name.to_owned(),
        scope: SymbolScope::Linkage,
        kind: SymbolKind::Text,
    }
}

fn leaf(name: &str) -> Tree {
    Tree::Leaf(symbol(name))
}

fn node(children: Vec<(&str, Tree)>) -> Tree {
    Tree::Node(children.into_iter().map(|(name, tree)| (name.to_owned(), tree)).collect())
}

#[test]
fn tree_of_symbols() {
    let symbols = vec![
        symbol("std::fs::read"),
        symbol("serde::de::Error"),
        symbol("std::fs::write"),
        symbol("malloc"),
        symbol("ltmp12"),
        symbol("GCC_except_table7"),
        symbol("foo.cold.1"),
        symbol("__rustc[abc]::__rust_alloc"),
        symbol("<serde::Foo as std::fmt::Debug>::fmt"),
    ];
    let tree = tree_from_symbols(&symbols);
    let mut renamed = symbol("__rustc[abc]::__rust_alloc");
    renamed.demangled = "__rust_alloc".to_owned();
    let trait_impl = symbol("<serde::Foo as std::fmt::Debug>::fmt");
    let expected = node(vec![
        (
            "std",
            node(vec![
                (
                    "fs",
                    node(vec![
                        ("std::fs::read", leaf("std::fs::read")),
                        ("std::fs::write", leaf("std::fs::write")),
                    ]),
                ),
                (
                    "fmt",
                    node(vec![(
                        "<serde::Foo as std::fmt::Debug>::fmt",
                        Tree::Leaf(trait_impl.clone()),
                    )]),
                ),
            ]),
        ),
        (
            "crates",
            node(vec![(
                "serde",
                node(vec![
                    ("de", node(vec![("serde::de::Error", leaf("serde::de::Error"))])),
                    ("<serde::Foo as std::fmt::Debug>::fmt", Tree::Leaf(trait_impl)),
                ]),
            )]),
        ),
        (
            "system",
            node(vec![
                ("malloc", node(vec![("malloc", leaf("malloc"))])),
                ("ltmp", node(vec![("ltmp12", leaf("ltmp12"))])),
                ("GCC_except_table", node(vec![("GCC_except_table7", leaf("GCC_except_table7"))])),
                ("foo", node(vec![("foo.cold.1", leaf("foo.cold.1"))])),
            ]),
        ),
        ("rustc", node(vec![("__rust_alloc", Tree::Leaf(renamed))])),
    ]);
    assert_eq!(tree, expected);
    assert_eq!(tree.symbol_count(), 10);
    assert!(!tree.is_leaf());
    assert!(leaf("x").is_leaf());
    assert_eq!(leaf("x").symbol_count(), 1);
    assert_eq!(Tree::new().symbol_count(), 0);
}

#[test]
fn grouping_by_prefix() {
    let symbols = vec![
        symbol("a.1"),
        symbol("b"),
        symbol("a.2"),
        symbol("GCC_except_table3"),
        symbol("a.1"),
    ];
    let groups = group_symbols_by_prefix(&symbols);
    assert_eq!(
        Tree::Node(groups),
        node(vec![
            ("a", node(vec![("a.1", leaf("a.1")), ("a.2", leaf("a.2"))])),
            ("b", leaf("b")),
            ("GCC_except_table", leaf("GCC_except_table3")),
        ])
    );
    assert_eq!(Tree::from_symbols(&symbols).symbol_count(), 4);
    assert_eq!(
        Tree::from_symbols(&[symbol("x"), symbol("x")]),
        node(vec![("x", node(vec![("x", leaf("x"))]))])
    );
}

#[test]
fn filtering_by_path() {
    let tree = tree_from_symbols(&[symbol("std::fs::read"), symbol("std::io::Read"), symbol("a::b")]);
    assert_eq!(
        filter_tree_by_path(&tree, &["std", "fs"]),
        Some(node(vec![(
            "std",
            node(vec![("fs", node(vec![("std::fs::read", leaf("std::fs::read"))]))]),
        )]))
    );
    assert_eq!(filter_tree_by_path(&tree, &[]), Some(tree.duplicate()));
    assert_eq!(filter_tree_by_path(&tree, &["nope"]), None);
    assert_eq!(filter_tree_by_path(&tree, &["std", "fs", "std::fs::read", "deeper"]), None);
    assert_eq!(filter_tree_by_path(&leaf("x"), &["x"]), None);
}

#[test]
fn collapsing_single_nodes() {
    let deep = node(vec![(
        "a",
        node(vec![(
            "b",
            node(vec![(
                "c",
                node(vec![("d", node(vec![("e", node(vec![("f", node(vec![("x", leaf("x"))]))]))]))]),
            )]),
        )]),
    )]);
    // Only from the sixth level on, and only a node that is an only child.
    let collapsed = deep.collapse_single_nodes(0, false);
    assert_eq!(
        collapsed,
        node(vec![(
            "a",
            node(vec![(
                "b",
                node(vec![("c", node(vec![("d", node(vec![("e", leaf("x"))]))]))]),
            )]),
        )])
    );
    let wide = node(vec![("a", node(vec![("x", leaf("x"))])), ("b", node(vec![("y", leaf("y"))]))]);
    assert_eq!(wide.duplicate().collapse_single_nodes(9, true), wide);
    let single = node(vec![("x", leaf("x"))]);
    assert_eq!(single.duplicate().collapse_single_nodes(5, true), leaf("x"));
    assert_eq!(single.duplicate().collapse_single_nodes(4, true), single);
    assert_eq!(single.duplicate().collapse_single_nodes(5, false), single);
}

#[test]
fn inserting_into_trees() {
    let mut root: Vec<(String, Tree)> = Vec::new();
    insert_symbol_into_tree(&mut root, &[], symbol("nothing"));
    assert!(root.is_empty());
    insert_symbol_into_tree(&mut root, &["a", "b", "ignored"], symbol("a::b::c"));
    insert_leaf(&mut root, &symbol("top"));
    // A symbol that stands in the way of a node stops the insertion.
    insert_symbol_into_tree(&mut root, &["top", "x"], symbol("top::x"));
    insert_leaf(&mut root, &symbol("top"));
    assert_eq!(
        Tree::Node(root.iter().map(|(n, t)| (n.clone(), t.duplicate())).collect()),
        node(vec![
            ("a", node(vec![("b", node(vec![("a::b::c", leaf("a::b::c"))]))])),
            ("top", leaf("top")),
        ])
    );
    assert_eq!(get_or_create_category(&mut root, "a"), Some(0));
    assert_eq!(get_or_create_category(&mut root, "top"), None);
    assert_eq!(get_or_create_category(&mut root, "new"), Some(2));
    assert_eq!(root.len(), 3);
}

#[test]
fn classification() {
    assert_eq!(
        classify_symbol("serde::de::Error", "_ZN5serde2de5ErrorE"),
        SymbolCategory::Crate("serde".to_owned())
    );
    assert_eq!(
        classify_symbol("__rustc[abc]::__rust_alloc", "x"),
        SymbolCategory::Compiler("rustc".to_owned())
    );
    assert_eq!(
        classify_symbol("_$LT$$RF$T$u20$as$u20$core..fmt..Debug$GT$::fmt", "mangled"),
        SymbolCategory::TraitImpl { trait_for: "&T".to_owned(), target_crate: "core".to_owned() }
    );
    assert_eq!(
        classify_symbol("_$LT$T$u20$as$u20$Debug$GT$::fmt", "mangled"),
        SymbolCategory::TraitImpl { trait_for: "T".to_owned(), target_crate: "Debug".to_owned() }
    );
    assert_eq!(classify_symbol("_a::b", "_a::b"), SymbolCategory::Unknown);
    assert_eq!(
        classify_symbol("_printf", "_printf"),
        SymbolCategory::System(SystemSymbolType::LibraryFunctions)
    );
    assert_eq!(SystemSymbolType::from_symbol("_OUTLINED_FUNCTION_3"), SystemSymbolType::OutlinedFunctions);
    assert_eq!(SystemSymbolType::from_symbol("dyld_stub_helper"), SystemSymbolType::StubHelpers);
    assert_eq!(SystemSymbolType::from_symbol("_pthread_create"), SystemSymbolType::LibraryFunctions);
    assert_eq!(SystemSymbolType::from_symbol("_LC_1"), SystemSymbolType::LibraryFunctions);
    assert_eq!(SystemSymbolType::from_symbol("__bss_start"), SystemSymbolType::Symbols);
    assert_eq!(SystemSymbolType::from_symbol("_Lanon"), SystemSymbolType::Symbols);
    assert_eq!(SystemSymbolType::from_symbol("malloc"), SystemSymbolType::Other("malloc".to_owned()));
    assert_eq!(
        SymbolCategory::TraitImpl { trait_for: "T".to_owned(), target_crate: "core".to_owned() }.to_string(),
        "trait_impl: T → core"
    );
    assert_eq!(SymbolCategory::System(SystemSymbolType::Other("x".to_owned())).to_string(), "system: x");
    assert_eq!(SymbolCategory::Compiler("rustc".to_owned()).to_string(), "compiler: rustc");
}

#[test]
fn types_as_text() {
    for text in [
        "<A as B>",
        "<&mut T as a::B>::C",
        "(A, B)",
        "[T]",
        "fn(A, B) -> C",
        "fn(A)",
        "a::b::C<T>",
    ] {
        let normal = text.replace(", ", ",");
        assert_eq!(TypeName::parse(&normal).unwrap().to_string(), text);
    }
    assert_eq!(
        TraitFnImpl::parse("<(A,B) as c::D>::e").unwrap().to_string(),
        "<(A, B) as c::D>::e"
    );
}

fn dep(dependent: &str, dependency: &str, kind: DepKind) -> Dependency {
    Dependency {
        dependent: dependent.to_owned(),
        dependency: dependency.to_owned(),
        kinds: DepKindSet::of(kind),
    }
}

#[test]
fn graph_is_built_breadth_first_from_the_roots() {
    let starting = vec!["app".to_owned(), "tool".to_owned()];
    let deps = vec![
        dep("lib_b", "lib_c", DepKind::Normal),
        dep("app", "lib_a", DepKind::Normal),
        dep("orphan", "lib_a", DepKind::Build),
        dep("lib_a", "lib_b", DepKind::Dev),
        dep("tool", "lib_b", DepKind::Build),
        dep("lib_c", "app", DepKind::Dev),
        dep("app", "lib_a", DepKind::Build),
    ];
    let graph = DepGraph::from_roots(&starting, &deps).unwrap();
    let names: Vec<&str> = (0..graph.node_count()).map(|i| graph.id_at(i)).collect();
    assert_eq!(names, vec!["app", "tool", "lib_a", "lib_b", "lib_c"]);
    assert_eq!(graph.kinds_of("app"), Some(DepKindSet::of(DepKind::Normal)));
    assert_eq!(graph.kinds_of("lib_a"), Some(DepKindSet::new()));
    assert_eq!(graph.kinds_of("orphan"), None);
    let result = graph.analyze();
    let kinds = |id: &str| result.iter().find(|(name, _)| name == id).unwrap().1;
    assert_eq!(kinds("lib_a"), DepKindSet::from_slice(&[DepKind::Normal, DepKind::Dev, DepKind::Build]));
    assert_eq!(kinds("lib_b"), DepKindSet::from_slice(&[DepKind::Dev, DepKind::Build]));
    assert_eq!(kinds("lib_c"), DepKindSet::from_slice(&[DepKind::Dev, DepKind::Build]));
    assert_eq!(kinds("app"), DepKindSet::from_slice(&[DepKind::Normal, DepKind::Dev, DepKind::Build]));
    assert_eq!(
        DepGraph::from_roots(&vec!["a".to_owned(), "a".to_owned()], &deps).err(),
        Some(GraphError::NodeExists)
    );
    let all = DepGraph::from_dependencies(&starting, &deps).unwrap();
    assert_eq!(all.node_count(), 6);
    assert_eq!(all.kinds_of("orphan"), Some(DepKindSet::new()));
}
