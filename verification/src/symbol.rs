//! Linker symbols and the paths that they name.

use vstd::prelude::*;
use vstd::string::StringExecFns;
use crate::demangle::{demangle_symbol, demangled};
use crate::print::PrintOptions;
use crate::rust_path::{path_sep, RustPath};
use crate::rust_type::{parse_trait_impl, paths_of, path_views, TraitFnImpl};
use crate::sets::Item;
use crate::text::{chars_of, contains, find, find_exec, lemma_find_from, slice_of, starts_with_exec, string_of};

verus! {

/// To whom a symbol is visible.
#[derive(Clone, Copy, Debug, PartialEq, Eq, PartialOrd, Ord, Structural)]
pub enum SymbolScope {
    /// Unknown scope.
    Unknown,
    /// Symbol is visible to the compilation unit.
    Compilation,
    /// Symbol is visible to the static linkage unit.
    Linkage,
    /// Symbol is visible to dynamically linked objects.
    Dynamic,
}

impl SymbolScope {
    /// The word for the scope.
    pub fn as_str(&self) -> (r: &'static str)
        ensures
            r@ == match *self {
                SymbolScope::Unknown => "unknown"@,
                SymbolScope::Compilation => "local"@,
                SymbolScope::Linkage => "static"@,
                SymbolScope::Dynamic => "dynamic"@,
            },
    {
        match self {
            SymbolScope::Unknown => "unknown",
            SymbolScope::Compilation => "local",
            SymbolScope::Linkage => "static",
            SymbolScope::Dynamic => "dynamic",
        }
    }
}

/// What a symbol stands for.
#[derive(Clone, Copy, Debug, PartialEq, Eq, PartialOrd, Ord, Structural)]
pub enum SymbolKind {
    /// The symbol kind is unknown.
    Unknown,
    /// The symbol is for executable code.
    Text,
    /// The symbol is for a data object, e.g. string literals.
    Data,
    /// The symbol is for a section.
    Section,
    /// The symbol is the name of a file. It precedes symbols within that file.
    File,
    /// The symbol is for a code label.
    Label,
    /// The symbol is for a thread local storage entity.
    Tls,
}

impl SymbolKind {
    /// The word for the kind.
    pub fn as_str(&self) -> (r: &'static str)
        ensures
            r@ == match *self {
                SymbolKind::Unknown => "unknown"@,
                SymbolKind::Text => "function"@,
                SymbolKind::Data => "data"@,
                SymbolKind::Section => "section"@,
                SymbolKind::File => "file"@,
                SymbolKind::Label => "label"@,
                SymbolKind::Tls => "tls"@,
            },
    {
        match self {
            SymbolKind::Unknown => "unknown",
            SymbolKind::Text => "function",
            SymbolKind::Data => "data",
            SymbolKind::Section => "section",
            SymbolKind::File => "file",
            SymbolKind::Label => "label",
            SymbolKind::Tls => "tls",
        }
    }
}

/// What a decoded symbol names: a flat function or a namespaced path.
#[derive(Debug, PartialEq, Eq, PartialOrd, Ord)]
pub enum FunctionOrPath {
    Function(String),
    RustPath(RustPath),
}

/// What a `FunctionOrPath` stands for.
pub enum FunctionOrPathView {
    Function(Seq<char>),
    RustPath(Seq<char>),
}

impl View for FunctionOrPath {
    type V = FunctionOrPathView;

    open spec fn view(&self) -> FunctionOrPathView {
        match self {
            FunctionOrPath::Function(name) => FunctionOrPathView::Function(name@),
            FunctionOrPath::RustPath(path) => FunctionOrPathView::RustPath(path@),
        }
    }
}

impl Clone for FunctionOrPath {
    fn clone(&self) -> (r: Self)
        ensures
            r@ == self@,
    {
        match self {
            FunctionOrPath::Function(name) => FunctionOrPath::Function(name.clone()),
            FunctionOrPath::RustPath(path) => FunctionOrPath::RustPath(path.clone()),
        }
    }
}

/// The views of a list of names.
pub open spec fn name_views(names: Seq<FunctionOrPath>) -> Seq<FunctionOrPathView> {
    names.map_values(|n: FunctionOrPath| n@)
}

/// The marker that starts a name in the compiler's own namespace.
pub open spec fn compiler_marker() -> Seq<char> {
    "rustc["@
}

/// Those of the first `n` of `paths` that have more than one segment, as
/// paths. A path of one segment is a built-in or generic type and belongs to
/// no unit.
pub open spec fn namespaced(paths: Seq<Seq<char>>, n: nat) -> Seq<FunctionOrPathView>
    decreases n,
{
    if n == 0 || n > paths.len() {
        Seq::empty()
    } else if contains(paths[n - 1], path_sep()) {
        namespaced(paths, (n - 1) as nat).push(FunctionOrPathView::RustPath(paths[n - 1]))
    } else {
        namespaced(paths, (n - 1) as nat)
    }
}

/// What the decoded text `s` names.
///
/// Behind the compiler's marker and `]::` stands the name proper. A trait
/// implementation names the paths of its type and its trait. Other text with
/// `::` is one path, and anything else a flat function.
pub open spec fn names_in(s: Seq<char>) -> Seq<FunctionOrPathView>
    decreases s.len(),
{
    match find(s, "]::"@) {
        Some(end) if compiler_marker().is_prefix_of(s) && 0 <= end && end + 3 <= s.len() => names_in(
            s.skip(end + 3),
        ),
        _ => match parse_trait_impl(s) {
            Ok(t) => namespaced(paths_of(t.self_type), paths_of(t.self_type).len()),
            Err(_) => if contains(s, path_sep()) {
                seq![FunctionOrPathView::RustPath(s)]
            } else {
                seq![FunctionOrPathView::Function(s)]
            },
        },
    }
}

impl FunctionOrPath {
    /// What a decoded symbol names.
    pub fn from_demangled(demangled: &str) -> (r: Vec<FunctionOrPath>)
        ensures
            name_views(r@) == names_in(demangled@),
    {
        let chars = chars_of(demangled);
        let marker = chars_of("rustc[");
        let close = chars_of("]::");
        let sep = chars_of("::");
        proof {
            reveal_strlit("]::");
            assert(close@.len() == 3);
        }
        let mut from: usize = 0;
        assert(chars@.skip(0) =~= chars@);
        loop
            invariant
                from <= chars.len(),
                chars@ == demangled@,
                marker@ == compiler_marker(),
                close@ == "]::"@,
                close@.len() == 3,
                sep@ == path_sep(),
                names_in(demangled@) == names_in(chars@.skip(from as int)),
            decreases chars.len() - from,
        {
            let rest = slice_of(&chars, from, chars.len());
            assert(rest@ =~= chars@.skip(from as int));
            if starts_with_exec(&rest, &marker) {
                proof {
                    lemma_find_from(rest@, close@, 0);
                }
                match find_exec(&rest, &close) {
                    Some(end) => {
                        assert(rest@.skip(end + 3) =~= chars@.skip(from + end + 3));
                        from = from + end + 3;
                        continue ;
                    },
                    None => {},
                }
            }
            let text = string_of(&rest);
            let mut out: Vec<FunctionOrPath> = Vec::new();
            match TraitFnImpl::parse(text.as_str()) {
                Ok(trait_impl) => {
                    let paths = trait_impl.paths();
                    let ghost views = path_views(paths@);
                    let mut i: usize = 0;
                    assert(name_views(out@) =~= namespaced(views, 0));
                    while i < paths.len()
                        invariant
                            i <= paths.len(),
                            sep@ == path_sep(),
                            views == path_views(paths@),
                            name_views(out@) == namespaced(views, i as nat),
                        decreases paths.len() - i,
                    {
                        let path_chars = chars_of(paths[i].as_str());
                        assert(views[i as int] == paths@[i as int]@);
                        if find_exec(&path_chars, &sep).is_some() {
                            let ghost before = name_views(out@);
                            let path = paths[i].clone();
                            out.push(FunctionOrPath::RustPath(path));
                            assert(name_views(out@) =~= before.push(
                                FunctionOrPathView::RustPath(views[i as int]),
                            ));
                        }
                        i += 1;
                    }
                    return out;
                },
                Err(_) => {
                    if find_exec(&rest, &sep).is_some() {
                        let path = FunctionOrPath::RustPath(RustPath::from_string(text));
                        out.push(path);
                        assert(name_views(out@) =~= seq![path@]);
                    } else {
                        let name = FunctionOrPath::Function(text);
                        out.push(name);
                        assert(name_views(out@) =~= seq![name@]);
                    }
                    return out;
                },
            }
        }
    }

    /// The name as text.
    pub fn to_string(&self) -> (r: String)
        ensures
            r@ == match self@ {
                FunctionOrPathView::Function(name) => name,
                FunctionOrPathView::RustPath(path) => path,
            },
    {
        match self {
            FunctionOrPath::Function(name) => name.clone(),
            FunctionOrPath::RustPath(path) => path.to_string(),
        }
    }
}

/// One entry of a symbol table, with its decoded name.
#[derive(Debug, PartialEq, Eq, PartialOrd, Ord)]
pub struct Symbol {
    pub mangled: String,
    pub demangled: String,
    pub scope: SymbolScope,
    pub kind: SymbolKind,
}

/// What a `Symbol` stands for.
pub struct SymbolView {
    pub mangled: Seq<char>,
    pub demangled: Seq<char>,
    pub scope: SymbolScope,
    pub kind: SymbolKind,
}

impl View for Symbol {
    type V = SymbolView;

    open spec fn view(&self) -> SymbolView {
        SymbolView {
            mangled: self.mangled@,
            demangled: self.demangled@,
            scope: self.scope,
            kind: self.kind,
        }
    }
}

impl Clone for Symbol {
    fn clone(&self) -> (r: Self)
        ensures
            r@ == self@,
    {
        Symbol {
            mangled: self.mangled.clone(),
            demangled: self.demangled.clone(),
            scope: self.scope,
            kind: self.kind,
        }
    }
}

impl Item for Symbol {
    fn same(&self, other: &Self) -> (r: bool) {
        self.mangled == other.mangled && self.demangled == other.demangled && self.scope
            == other.scope && self.kind == other.kind
    }

    fn duplicate(&self) -> (r: Self) {
        self.clone()
    }
}

/// The text for a symbol: its decoded name, followed by the raw name in
/// parentheses where that is asked for and differs.
pub open spec fn formatted(symbol: SymbolView, include_mangled: bool) -> Seq<char> {
    if include_mangled && symbol.mangled != symbol.demangled {
        symbol.demangled + " ("@ + symbol.mangled + ")"@
    } else {
        symbol.demangled
    }
}

/// The text for a symbol with its scope and kind behind it in brackets, where
/// they are asked for.
pub open spec fn formatted_with_metadata(
    symbol: SymbolView,
    include_mangled: bool,
    show_metadata: bool,
) -> Seq<char> {
    let base = formatted(symbol, include_mangled);
    if show_metadata {
        base + " ["@ + scope_word(symbol.scope) + "/"@ + kind_word(symbol.kind) + "]"@
    } else {
        base
    }
}

/// The word for a scope.
pub open spec fn scope_word(scope: SymbolScope) -> Seq<char> {
    match scope {
        SymbolScope::Unknown => "unknown"@,
        SymbolScope::Compilation => "local"@,
        SymbolScope::Linkage => "static"@,
        SymbolScope::Dynamic => "dynamic"@,
    }
}

/// The word for a kind.
pub open spec fn kind_word(kind: SymbolKind) -> Seq<char> {
    match kind {
        SymbolKind::Unknown => "unknown"@,
        SymbolKind::Text => "function"@,
        SymbolKind::Data => "data"@,
        SymbolKind::Section => "section"@,
        SymbolKind::File => "file"@,
        SymbolKind::Label => "label"@,
        SymbolKind::Tls => "tls"@,
    }
}

impl Symbol {
    /// The symbol with the raw name `mangled`, decoded.
    pub fn with_metadata(mangled: String, scope: SymbolScope, kind: SymbolKind) -> (r: Self)
        ensures
            r@ == (SymbolView {
                mangled: mangled@,
                demangled: demangled(mangled@),
                scope,
                kind,
            }),
    {
        let demangled = demangle_symbol(mangled.as_str());
        Symbol { mangled, demangled, scope, kind }
    }

    /// The symbol with the raw name `mangled`, decoded, of which neither scope
    /// nor kind is known.
    pub fn from_mangled(mangled: String) -> (r: Self)
        ensures
            r@ == (SymbolView {
                mangled: mangled@,
                demangled: demangled(mangled@),
                scope: SymbolScope::Unknown,
                kind: SymbolKind::Unknown,
            }),
    {
        Symbol::with_metadata(mangled, SymbolScope::Unknown, SymbolKind::Unknown)
    }

    /// Whether decoding changed the name.
    pub fn is_demangled(&self) -> (r: bool)
        ensures
            r == (self@.mangled != self@.demangled),
    {
        self.mangled != self.demangled
    }

    /// The text for the symbol.
    pub fn format(&self, include_mangled: bool) -> (r: String)
        ensures
            r@ == formatted(self@, include_mangled),
    {
        if include_mangled && self.mangled != self.demangled {
            let mut text = self.demangled.clone();
            text.append(" (");
            text.append(self.mangled.as_str());
            text.append(")");
            text
        } else {
            self.demangled.clone()
        }
    }

    /// The text for the symbol with scope and kind, as `options` ask.
    pub fn format_with_metadata(&self, options: &PrintOptions) -> (r: String)
        ensures
            r@ == formatted_with_metadata(self@, options.include_mangled, options.show_metadata),
    {
        let mut text = self.format(options.include_mangled);
        if options.show_metadata {
            text.append(" [");
            text.append(self.scope.as_str());
            text.append("/");
            text.append(self.kind.as_str());
            text.append("]");
        }
        text
    }

    /// What the symbol names.
    pub fn paths(&self) -> (r: Vec<FunctionOrPath>)
        ensures
            name_views(r@) == names_in(self@.demangled),
    {
        FunctionOrPath::from_demangled(self.demangled.as_str())
    }
}

/// The views of a list of symbols.
pub open spec fn symbol_views(symbols: Seq<Symbol>) -> Seq<SymbolView> {
    symbols.map_values(|s: Symbol| s@)
}

/// Whether a symbol passes the filter: one of the compilation unit only
/// where local ones are included, and one that is no code only where all
/// kinds are.
pub open spec fn passes_filter(
    symbol: SymbolView,
    include_local: bool,
    include_all_kinds: bool,
) -> bool {
    (include_local || symbol.scope != SymbolScope::Compilation) && (include_all_kinds
        || symbol.kind == SymbolKind::Text || symbol.kind == SymbolKind::Label || symbol.kind
        == SymbolKind::Unknown)
}

/// Those of the first `n` of `symbols` that pass the filter, in order.
pub open spec fn filtered(
    symbols: Seq<SymbolView>,
    include_local: bool,
    include_all_kinds: bool,
    n: nat,
) -> Seq<SymbolView>
    decreases n,
{
    if n == 0 || n > symbols.len() {
        Seq::empty()
    } else if passes_filter(symbols[n - 1], include_local, include_all_kinds) {
        filtered(symbols, include_local, include_all_kinds, (n - 1) as nat).push(symbols[n - 1])
    } else {
        filtered(symbols, include_local, include_all_kinds, (n - 1) as nat)
    }
}

/// Keeps the symbols that pass the filter, in order.
pub fn filter_symbols(symbols: Vec<Symbol>, include_local: bool, include_all_kinds: bool) -> (r:
    Vec<Symbol>)
    ensures
        symbol_views(r@) == filtered(
            symbol_views(symbols@),
            include_local,
            include_all_kinds,
            symbols@.len(),
        ),
{
    let ghost views = symbol_views(symbols@);
    let mut out: Vec<Symbol> = Vec::new();
    let mut i: usize = 0;
    assert(symbol_views(out@) =~= filtered(views, include_local, include_all_kinds, 0));
    while i < symbols.len()
        invariant
            i <= symbols.len(),
            views == symbol_views(symbols@),
            symbol_views(out@) == filtered(views, include_local, include_all_kinds, i as nat),
        decreases symbols.len() - i,
    {
        let symbol = &symbols[i];
        assert(views[i as int] == symbol@);
        let scope_allowed = include_local || symbol.scope != SymbolScope::Compilation;
        let kind_allowed = include_all_kinds || symbol.kind == SymbolKind::Text || symbol.kind
            == SymbolKind::Label || symbol.kind == SymbolKind::Unknown;
        if scope_allowed && kind_allowed {
            let ghost before = symbol_views(out@);
            let copy = symbol.clone();
            out.push(copy);
            assert(symbol_views(out@) =~= before.push(copy@));
        }
        i += 1;
    }
    out
}

} // verus!
