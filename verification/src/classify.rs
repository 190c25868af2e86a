//! A coarse classification of the symbols of a binary.

use vstd::prelude::*;
use vstd::string::StringExecFns;
use crate::demangle::{decode_type_chars, decoded_type};
use crate::text::{
    chars_of, contains, ends_with, ends_with_exec, find, find_exec, lemma_find_from, slice_of,
    starts_with_exec, string_of,
};

verus! {

/// What sort of system symbol a symbol is.
#[derive(Debug, PartialEq, Eq, PartialOrd, Ord)]
pub enum SystemSymbolType {
    OutlinedFunctions,
    StubHelpers,
    LibraryFunctions,
    Symbols,
    Other(String),
}

/// What a `SystemSymbolType` stands for.
pub enum SystemSymbolTypeView {
    OutlinedFunctions,
    StubHelpers,
    LibraryFunctions,
    Symbols,
    Other(Seq<char>),
}

impl View for SystemSymbolType {
    type V = SystemSymbolTypeView;

    open spec fn view(&self) -> SystemSymbolTypeView {
        match self {
            SystemSymbolType::OutlinedFunctions => SystemSymbolTypeView::OutlinedFunctions,
            SystemSymbolType::StubHelpers => SystemSymbolTypeView::StubHelpers,
            SystemSymbolType::LibraryFunctions => SystemSymbolTypeView::LibraryFunctions,
            SystemSymbolType::Symbols => SystemSymbolTypeView::Symbols,
            SystemSymbolType::Other(name) => SystemSymbolTypeView::Other(name@),
        }
    }
}

/// Where a symbol comes from.
#[derive(Debug, PartialEq, Eq, PartialOrd, Ord)]
pub enum SymbolCategory {
    Crate(String),
    TraitImpl { trait_for: String, target_crate: String },
    Compiler(String),
    System(SystemSymbolType),
    Unknown,
}

/// What a `SymbolCategory` stands for.
pub enum SymbolCategoryView {
    Crate(Seq<char>),
    TraitImpl { trait_for: Seq<char>, target_crate: Seq<char> },
    Compiler(Seq<char>),
    System(SystemSymbolTypeView),
    Unknown,
}

impl View for SymbolCategory {
    type V = SymbolCategoryView;

    open spec fn view(&self) -> SymbolCategoryView {
        match self {
            SymbolCategory::Crate(name) => SymbolCategoryView::Crate(name@),
            SymbolCategory::TraitImpl { trait_for, target_crate } => SymbolCategoryView::TraitImpl {
                trait_for: trait_for@,
                target_crate: target_crate@,
            },
            SymbolCategory::Compiler(name) => SymbolCategoryView::Compiler(name@),
            SymbolCategory::System(system) => SymbolCategoryView::System(system@),
            SymbolCategory::Unknown => SymbolCategoryView::Unknown,
        }
    }
}

/// The sort of system symbol that `symbol` is, going by its name.
pub open spec fn system_type_of(symbol: Seq<char>) -> SystemSymbolTypeView {
    if "_OUTLINED_FUNCTION_"@.is_prefix_of(symbol) {
        SystemSymbolTypeView::OutlinedFunctions
    } else if contains(symbol, "stub_helper"@) {
        SystemSymbolTypeView::StubHelpers
    } else if "_"@.is_prefix_of(symbol) && (contains(symbol, "printf"@) || contains(
        symbol,
        "malloc"@,
    ) || contains(symbol, "free"@) || contains(symbol, "memcpy"@) || contains(symbol, "strlen"@)
        || contains(symbol, "strcmp"@) || contains(symbol, "pthread"@) || "_lib"@.is_prefix_of(
        symbol,
    ) || "_LC_"@.is_prefix_of(symbol) || contains(symbol, "objc_"@) || contains(
        symbol,
        "dyld_"@,
    )) {
        SystemSymbolTypeView::LibraryFunctions
    } else if "_"@.is_prefix_of(symbol) && (contains(symbol, "GLOBAL_OFFSET_TABLE"@) || contains(
        symbol,
        "_data"@,
    ) || contains(symbol, "_bss"@) || contains(symbol, "_text"@) || "_l"@.is_prefix_of(symbol)
        || "_L"@.is_prefix_of(symbol)) {
        SystemSymbolTypeView::Symbols
    } else {
        SystemSymbolTypeView::Other(symbol)
    }
}

/// Whether `s` starts with the text `pat`.
fn starts_with_str(s: &Vec<char>, pat: &str) -> (r: bool)
    ensures
        r == pat@.is_prefix_of(s@),
{
    let p = chars_of(pat);
    starts_with_exec(s, &p)
}

/// Whether `s` holds the text `pat`.
fn contains_str(s: &Vec<char>, pat: &str) -> (r: bool)
    ensures
        r == contains(s@, pat@),
{
    let p = chars_of(pat);
    find_exec(s, &p).is_some()
}

impl SystemSymbolType {
    /// The sort of system symbol that `symbol` is, going by its name.
    pub fn from_symbol(symbol: &str) -> (r: Self)
        ensures
            r@ == system_type_of(symbol@),
    {
        let s = chars_of(symbol);
        if starts_with_str(&s, "_OUTLINED_FUNCTION_") {
            SystemSymbolType::OutlinedFunctions
        } else if contains_str(&s, "stub_helper") {
            SystemSymbolType::StubHelpers
        } else if starts_with_str(&s, "_") && (contains_str(&s, "printf") || contains_str(
            &s,
            "malloc",
        ) || contains_str(&s, "free") || contains_str(&s, "memcpy") || contains_str(&s, "strlen")
            || contains_str(&s, "strcmp") || contains_str(&s, "pthread") || starts_with_str(
            &s,
            "_lib",
        ) || starts_with_str(&s, "_LC_") || contains_str(&s, "objc_") || contains_str(
            &s,
            "dyld_",
        )) {
            SystemSymbolType::LibraryFunctions
        } else if starts_with_str(&s, "_") && (contains_str(&s, "GLOBAL_OFFSET_TABLE")
            || contains_str(&s, "_data") || contains_str(&s, "_bss") || contains_str(&s, "_text")
            || starts_with_str(&s, "_l") || starts_with_str(&s, "_L")) {
            SystemSymbolType::Symbols
        } else {
            SystemSymbolType::Other(symbol.to_owned())
        }
    }

    /// The words for the sort.
    pub fn to_string(&self) -> (r: String)
        ensures
            r@ == system_words(self@),
    {
        match self {
            SystemSymbolType::OutlinedFunctions => "system: outlined functions".to_owned(),
            SystemSymbolType::StubHelpers => "system: stub helpers".to_owned(),
            SystemSymbolType::LibraryFunctions => "system: library functions".to_owned(),
            SystemSymbolType::Symbols => "system: symbols".to_owned(),
            SystemSymbolType::Other(name) => {
                let mut text = "system: ".to_owned();
                text.append(name.as_str());
                text
            },
        }
    }
}

/// The words for a sort of system symbol.
pub open spec fn system_words(system: SystemSymbolTypeView) -> Seq<char> {
    match system {
        SystemSymbolTypeView::OutlinedFunctions => "system: outlined functions"@,
        SystemSymbolTypeView::StubHelpers => "system: stub helpers"@,
        SystemSymbolTypeView::LibraryFunctions => "system: library functions"@,
        SystemSymbolTypeView::Symbols => "system: symbols"@,
        SystemSymbolTypeView::Other(name) => "system: "@ + name,
    }
}

/// The words for a category.
pub open spec fn category_words(category: SymbolCategoryView) -> Seq<char> {
    match category {
        SymbolCategoryView::Crate(name) => name,
        SymbolCategoryView::TraitImpl { trait_for, target_crate } => "trait_impl: "@ + trait_for
            + " → "@ + target_crate,
        SymbolCategoryView::Compiler(name) => "compiler: "@ + name,
        SymbolCategoryView::System(system) => system_words(system),
        SymbolCategoryView::Unknown => "unknown"@,
    }
}

impl SymbolCategory {
    /// The words for the category.
    pub fn to_string(&self) -> (r: String)
        ensures
            r@ == category_words(self@),
    {
        match self {
            SymbolCategory::Crate(name) => name.clone(),
            SymbolCategory::TraitImpl { trait_for, target_crate } => {
                let mut text = "trait_impl: ".to_owned();
                text.append(trait_for.as_str());
                text.append(" → ");
                text.append(target_crate.as_str());
                text
            },
            SymbolCategory::Compiler(name) => {
                let mut text = "compiler: ".to_owned();
                text.append(name.as_str());
                text
            },
            SymbolCategory::System(system) => system.to_string(),
            SymbolCategory::Unknown => "unknown".to_owned(),
        }
    }
}

/// The words that stand between a type and the trait that it is seen as, in
/// an encoded name.
pub open spec fn encoded_as() -> Seq<char> {
    "$u20$as$u20$"@
}

/// The crate that the encoded trait `remaining` lies in: what stands before
/// its first `..`, or before a closing `$GT$`, or all of it.
pub open spec fn target_crate_of(remaining: Seq<char>) -> Seq<char> {
    match find(remaining, ".."@) {
        Some(dots) if 0 <= dots <= remaining.len() => remaining.take(dots),
        _ => if ends_with(remaining, "$GT$"@) && remaining.len() >= 4 {
            remaining.take(remaining.len() - 4)
        } else {
            remaining
        },
    }
}

/// The category of a demangled symbol of which `first_part` stands before the
/// first `::`: a trait implementation where the part spells `_$LT$type as
/// trait`, the compiler where it starts with `__rustc[`, else the crate of
/// that name.
pub open spec fn category_of_part(first_part: Seq<char>) -> SymbolCategoryView {
    match find(first_part, encoded_as()) {
        Some(as_pos) if "_$LT$"@.is_prefix_of(first_part) && 5 <= as_pos && as_pos + 12
            <= first_part.len() => SymbolCategoryView::TraitImpl {
            trait_for: decoded_type(first_part.subrange(5, as_pos)),
            target_crate: target_crate_of(first_part.skip(as_pos + 12)),
        },
        _ => if "__rustc["@.is_prefix_of(first_part) {
            SymbolCategoryView::Compiler("rustc"@)
        } else {
            SymbolCategoryView::Crate(first_part)
        },
    }
}

/// The category of a symbol, given its demangled and its original name.
///
/// A name that was demangled and holds `::` is sorted by what stands before
/// the first `::`. A name that was not demangled but looks like a path is
/// unknown. Anything else is a system symbol.
pub open spec fn category_of(demangled: Seq<char>, original: Seq<char>) -> SymbolCategoryView {
    match find(demangled, "::"@) {
        Some(colon) if original != demangled && 0 <= colon <= demangled.len() => category_of_part(
            demangled.take(colon),
        ),
        _ => if "_"@.is_prefix_of(original) && contains(original, "::"@) {
            SymbolCategoryView::Unknown
        } else {
            SymbolCategoryView::System(system_type_of(original))
        },
    }
}

/// The crate that an encoded trait lies in.
fn target_crate_exec(remaining: &Vec<char>) -> (r: Vec<char>)
    ensures
        r@ == target_crate_of(remaining@),
{
    let dots = chars_of("..");
    let closing = chars_of("$GT$");
    proof {
        lemma_find_from(remaining@, dots@, 0);
        reveal_strlit("$GT$");
        assert(closing@.len() == 4);
    }
    match find_exec(remaining, &dots) {
        Some(at) => {
            let r = slice_of(remaining, 0, at);
            assert(r@ =~= remaining@.take(at as int));
            r
        },
        None => {
            if ends_with_exec(remaining, &closing) && remaining.len() >= 4 {
                let r = slice_of(remaining, 0, remaining.len() - 4);
                assert(r@ =~= remaining@.take(remaining@.len() - 4));
                r
            } else {
                let r = slice_of(remaining, 0, remaining.len());
                assert(r@ =~= remaining@);
                r
            }
        },
    }
}

/// The category of a demangled symbol, by the part before its first `::`.
fn category_of_part_exec(first_part: &Vec<char>) -> (r: SymbolCategory)
    ensures
        r@ == category_of_part(first_part@),
{
    let as_words = chars_of("$u20$as$u20$");
    proof {
        reveal_strlit("$u20$as$u20$");
        assert(as_words@.len() == 12);
        lemma_find_from(first_part@, as_words@, 0);
    }
    match find_exec(first_part, &as_words) {
        Some(as_pos) => {
            let len = first_part.len();
            if starts_with_str(first_part, "_$LT$") && as_pos >= 5 {
                let trait_for = slice_of(first_part, 5, as_pos);
                let remaining = slice_of(first_part, as_pos + 12, len);
                assert(remaining@ =~= first_part@.skip(as_pos + 12));
                let decoded = decode_type_chars(&trait_for);
                let target = target_crate_exec(&remaining);
                return SymbolCategory::TraitImpl {
                    trait_for: string_of(&decoded),
                    target_crate: string_of(&target),
                };
            }
        },
        None => {},
    }
    if starts_with_str(first_part, "__rustc[") {
        SymbolCategory::Compiler("rustc".to_owned())
    } else {
        SymbolCategory::Crate(string_of(first_part))
    }
}

/// Sorts a symbol into a category, given its demangled and its original
/// name.
pub fn classify_symbol(demangled_symbol: &str, original_symbol: &str) -> (r: SymbolCategory)
    ensures
        r@ == category_of(demangled_symbol@, original_symbol@),
{
    let demangled = chars_of(demangled_symbol);
    let original = chars_of(original_symbol);
    let sep = chars_of("::");
    proof {
        lemma_find_from(demangled@, sep@, 0);
    }
    if !crate::text::chars_eq(&original, &demangled) {
        match find_exec(&demangled, &sep) {
            Some(colon) => {
                let first_part = slice_of(&demangled, 0, colon);
                assert(first_part@ =~= demangled@.take(colon as int));
                return category_of_part_exec(&first_part);
            },
            None => {},
        }
    }
    if starts_with_str(&original, "_") && find_exec(&original, &sep).is_some() {
        SymbolCategory::Unknown
    } else {
        SymbolCategory::System(SystemSymbolType::from_symbol(original_symbol))
    }
}

} // verus!
