use capabara::capability::Capability;
use capabara::reason::Reason;
use capabara::rust_path::RustPath;
use capabara::src_analysis::{ParsedRust, ScanState, UseTree};
use syn::punctuated::Punctuated;
use syn::visit::Visit;

struct Walker {
    state: ScanState,
}

fn use_tree(tree: &syn::UseTree) -> UseTree {
    match tree {
        syn::UseTree::Path(path) => {
            UseTree::Path(path.ident.to_string(), Box::new(use_tree(&path.tree)))
        }
        syn::UseTree::Name(name) => UseTree::Name(name.ident.to_string()),
        syn::UseTree::Rename(rename) => {
            UseTree::Rename(rename.ident.to_string(), rename.rename.to_string())
        }
        syn::UseTree::Glob(_) => UseTree::Glob,
        syn::UseTree::Group(group) => UseTree::Group(group.items.iter().map(use_tree).collect()),
    }
}

fn segments(path: &syn::Path) -> Vec<String> {
    path.segments.iter().map(|segment| segment.ident.to_string()).collect()
}

fn derive_list(input: syn::parse::ParseStream<'_>) -> syn::Result<Vec<syn::Path>> {
    let paths: Punctuated<syn::Path, syn::token::Comma> =
        Punctuated::parse_terminated(input)?;
    Ok(paths.into_iter().collect())
}

impl<'ast> Visit<'ast> for Walker {
    fn visit_item_fn(&mut self, item_fn: &'ast syn::ItemFn) {
        if item_fn.sig.unsafety.is_some() {
            self.state.note_unsafe();
        }
        syn::visit::visit_item_fn(self, item_fn);
    }

    fn visit_expr_unsafe(&mut self, expr_unsafe: &'ast syn::ExprUnsafe) {
        self.state.note_unsafe();
        syn::visit::visit_expr_unsafe(self, expr_unsafe);
    }

    fn visit_item_use(&mut self, item_use: &'ast syn::ItemUse) {
        self.state.visit_use_tree(RustPath::new(""), &use_tree(&item_use.tree));
    }

    fn visit_path(&mut self, path: &'ast syn::Path) {
        self.state.note_path(&segments(path));
        syn::visit::visit_path(self, path);
    }

    fn visit_type(&mut self, ty: &'ast syn::Type) {
        match ty {
            syn::Type::Path(type_path) => {
                if let Some(qself) = &type_path.qself {
                    syn::visit::visit_type(self, &qself.ty);
                }
                self.state.note_path(&segments(&type_path.path));
            }
            syn::Type::Array(_)
            | syn::Type::BareFn(_)
            | syn::Type::Group(_)
            | syn::Type::ImplTrait(_)
            | syn::Type::Infer(_)
            | syn::Type::Never(_)
            | syn::Type::Paren(_)
            | syn::Type::Ptr(_)
            | syn::Type::Reference(_)
            | syn::Type::Slice(_)
            | syn::Type::TraitObject(_)
            | syn::Type::Tuple(_) => {}
            _ => {
                self.state.note_unsupported("somewhere".to_owned());
            }
        }
        syn::visit::visit_type(self, ty);
    }

    fn visit_attribute(&mut self, input: &'ast syn::Attribute) {
        if let syn::Meta::List(meta_list) = &input.meta {
            if let Ok(paths) = syn::parse::Parser::parse2(derive_list, meta_list.tokens.clone()) {
                for path in paths {
                    self.state.note_path(&segments(&path));
                }
            }
        }
        syn::visit::visit_attribute(self, input);
    }
}

fn parse_content(rust_source: &str) -> Result<ParsedRust, String> {
    let syntax_tree = syn::parse_file(rust_source).map_err(|err| err.to_string())?;
    let mut walker = Walker { state: ScanState::new() };
    walker.visit_file(&syntax_tree);
    walker.state.end_file()?;
    Ok(walker.state.into_parsed())
}

fn as_vec(parsed: &ParsedRust) -> Vec<String> {
    let mut paths: Vec<String> = parsed.all_paths.items.iter().map(|p| p.to_string()).collect();
    paths.sort();
    paths
}

fn name(ident: &str) -> UseTree {
    UseTree::Name(ident.to_owned())
}

fn path(idents: &[&str], tree: UseTree) -> UseTree {
    let mut tree = tree;
    for ident in idents.iter().rev() {
        tree = UseTree::Path((*ident).to_owned(), Box::new(tree));
    }
    tree
}

fn imports_of(state: &ScanState) -> Vec<(String, String)> {
    state.imports.iter().map(|i| (i.ident.clone(), i.path.to_string())).collect()
}

fn pair(ident: &str, path: &str) -> (String, String) {
    (ident.to_owned(), path.to_owned())
}

fn words(list: &[&str]) -> Vec<String> {
    list.iter().map(|s| (*s).to_owned()).collect()
}

#[test]
fn test_external_crates() {
    let content = r#"
            use serde::{self, Deserialize};
            use tokio::runtime::Runtime;
            use std::fs::self;
            use std::net as netty;

            fn main() {
                let path = todo!();
                let data = std::fs::read(path);
                let json = serde_json::to_string(&data).unwrap();
                let runtime = Runtime::new().unwrap();
                tokio::pin!(async_operation);
                ::log::info!("Starting application");
                fs::File::open();
                netty::TcpServer::new();
            }

            #[derive(serde::Serialize, Deserialize)]
            struct Foo {}
        "#;

    let parsed = parse_content(content).unwrap();

    assert_eq!(
        as_vec(&parsed),
        [
            "log::info",
            "serde::Deserialize",
            "serde::Serialize",
            "serde_json::to_string",
            "std::fs::File::open",
            "std::fs::read",
            "std::net::TcpServer::new",
            "tokio::pin",
            "tokio::runtime::Runtime::new",
        ]
    );
}

#[test]
fn test_unsafe_detection() {
    let content_with_unsafe_fn = r#"
            unsafe fn dangerous_function() {
                // This is an unsafe function
            }
        "#;

    let content_with_unsafe_block = r#"
            fn main() {
                let raw_ptr = 0x123 as *const i32;
                let value = unsafe { *raw_ptr };
            }
        "#;

    let content_without_unsafe = r#"
            fn safe_function() {
                println!("This is safe");
            }
        "#;

    // Test unsafe function
    let result = parse_content(content_with_unsafe_fn).unwrap();
    assert!(
        result.capabilities.contains_key(Capability::Unsafe),
        "Should detect unsafe function"
    );

    // Test unsafe block
    let result = parse_content(content_with_unsafe_block).unwrap();
    assert!(
        result.capabilities.contains_key(Capability::Unsafe),
        "Should detect unsafe block"
    );

    // Test safe code
    let result = parse_content(content_without_unsafe).unwrap();
    assert!(
        !result.capabilities.contains_key(Capability::Unsafe),
        "Should not detect unsafe in safe code"
    );
}

#[test]
fn use_trees_become_imports() {
    let mut state = ScanState::new();
    // use serde::{self, Deserialize};
    state.visit_use_tree(
        RustPath::new(""),
        &path(&["serde"], UseTree::Group(vec![name("self"), name("Deserialize")])),
    );
    // use std::net as netty;
    state.visit_use_tree(
        RustPath::new(""),
        &path(&["std"], UseTree::Rename("net".to_owned(), "netty".to_owned())),
    );
    // use a::{b::{c, d as e}, f::*};
    state.visit_use_tree(
        RustPath::new(""),
        &path(
            &["a"],
            UseTree::Group(vec![
                path(
                    &["b"],
                    UseTree::Group(vec![
                        name("c"),
                        UseTree::Rename("d".to_owned(), "e".to_owned()),
                    ]),
                ),
                path(&["f"], UseTree::Glob),
            ]),
        ),
    );
    assert_eq!(
        imports_of(&state),
        vec![
            pair("serde", "serde"),
            pair("Deserialize", "serde::Deserialize"),
            pair("netty", "std::net"),
            pair("c", "a::b::c"),
            pair("e", "a::b::d"),
        ]
    );
    // An asterisk makes its path one that is used; an import does not.
    assert_eq!(state.all_paths.items, vec![RustPath::new("a::f")]);

    // `self` behind nothing is short for nothing.
    let mut bare = ScanState::new();
    bare.visit_use_tree(RustPath::new(""), &name("self"));
    assert_eq!(imports_of(&bare), vec![pair("", "")]);
    // An empty group leaves no trace.
    bare.visit_use_tree(RustPath::new("x"), &UseTree::Group(Vec::new()));
    assert_eq!(imports_of(&bare).len(), 1);
    assert!(bare.all_paths.is_empty());
}

#[test]
fn paths_are_resolved_with_the_imports_at_hand() {
    let mut state = ScanState::new();
    // A path that is seen before its import counts as it stands.
    state.note_path(&words(&["fs", "read"]));
    state.visit_use_tree(RustPath::new(""), &path(&["std", "fs"], name("self")));
    state.note_path(&words(&["fs", "read"]));
    state.note_path(&words(&["fs", "read"]));
    state.note_path(&words(&["local"]));
    state.note_path(&words(&[]));
    assert_eq!(
        state.all_paths.items,
        vec![RustPath::new("fs::read"), RustPath::new("std::fs::read")]
    );
    assert_eq!(state.end_file(), Ok(()));
    // The imports of one file do not hold in the next.
    assert!(state.imports.is_empty());
    state.note_path(&words(&["fs", "write"]));
    let parsed = state.into_parsed();
    assert_eq!(as_vec(&parsed), ["fs::read", "fs::write", "std::fs::read"]);
    assert!(parsed.capabilities.is_empty());
}

#[test]
fn what_is_not_understood_is_an_error() {
    let mut state = ScanState::new();
    state.note_path(&words(&["a", "b"]));
    state.note_unsupported("3:4".to_owned());
    state.note_unsafe();
    state.note_unsafe();
    assert_eq!(
        state.end_file(),
        Err("Source code contained syntax that cargo-caps is too dumb to understand: 3:4"
            .to_owned())
    );
    state.note_unsupported("5:6: x!()".to_owned());
    assert_eq!(
        state.end_file(),
        Err(
            "Source code contained syntax that cargo-caps is too dumb to understand: 3:4, 5:6: x!()"
                .to_owned()
        )
    );
    // Unsafe code is noted once, with its reason.
    let parsed = state.into_parsed();
    assert_eq!(
        parsed.capabilities.get(Capability::Unsafe).unwrap().items,
        vec![Reason::SourceCodeAnalysis]
    );
    assert_eq!(parsed.capabilities.keys().to_vec(), vec![Capability::Unsafe]);
}

#[test]
fn a_macro_in_place_of_a_type_is_not_understood() {
    let result = parse_content("fn f(x: make_type!()) {}");
    assert_eq!(
        result.err(),
        Some(
            "Source code contained syntax that cargo-caps is too dumb to understand: somewhere"
                .to_owned()
        )
    );
}
