//! What the symbols of one artifact tell about its capabilities.

use vstd::prelude::*;
use crate::cap_rule::{matched_caps, RuleView, Rules};
use crate::capability::{absorbed, Capability, CapabilitySet};
use crate::crate_name::{crate_name_of, CrateName, CrateNameError};
use crate::default_rules::{default_rules, default_table};
use crate::reason::{with_reason, with_reason_for_each, CapsMap, Reason, ReasonView};
use crate::rust_path::{path_sep, RustPath};
use crate::sets::{
    add_reference, inserted, lemma_position_of, lemma_slot_position, names_of, position, refs_wf,
    with_reference, with_slot, NameMap, UniqueVec,
};
use crate::symbol::{
    name_views, names_in, symbol_views, FunctionOrPath, FunctionOrPathView, Symbol, SymbolView,
};
use crate::text::{
    chars_of, find, find_exec, lemma_find_from, slice_of, string_of, trim_start, trim_start_exec,
};

verus! {

/// The first segment of a path: the crate that the path lies in.
pub open spec fn first_segment(path: Seq<char>) -> Seq<char> {
    match find(path, path_sep()) {
        Some(i) if 0 <= i <= path.len() => path.take(i),
        _ => path,
    }
}

/// The first segment of `path`.
pub fn first_segment_of(path: &str) -> (r: String)
    ensures
        r@ == first_segment(path@),
{
    let chars = chars_of(path);
    let sep = chars_of("::");
    proof {
        lemma_find_from(chars@, sep@, 0);
    }
    match find_exec(&chars, &sep) {
        Some(i) => {
            let head = slice_of(&chars, 0, i);
            assert(head@ =~= chars@.take(i as int));
            string_of(&head)
        },
        None => path.to_owned(),
    }
}

/// The crates that are referred to, each with the paths that refer to it.
pub type CrateRefs = NameMap<UniqueVec<RustPath>>;

/// What was deduced of one artifact: its capabilities with the reasons for
/// them, and the crates that its capabilities depend on.
#[derive(Debug, PartialEq, Eq)]
pub struct DeducedCaps {
    /// The capabilities of this crate
    pub caps: CapsMap,
    /// We need to resolve these crates to see what their capabilities are.
    ///
    /// The value is what indicated that we were using this crate in the first
    /// place.
    pub unresolved_crates: CrateRefs,
}

/// What a `DeducedCaps` stands for.
pub struct DeducedCapsView {
    pub caps: Map<Capability, Seq<ReasonView>>,
    pub unresolved_crates: Seq<(Seq<char>, Seq<Seq<char>>)>,
}

impl View for DeducedCaps {
    type V = DeducedCapsView;

    open spec fn view(&self) -> DeducedCapsView {
        DeducedCapsView { caps: self.caps@, unresolved_crates: self.unresolved_crates@ }
    }
}

/// Nothing deduced.
pub open spec fn nothing_deduced() -> DeducedCapsView {
    DeducedCapsView { caps: Map::empty(), unresolved_crates: Seq::empty() }
}

/// What is deduced once `path` was seen: where a rule matches it, the rule's
/// capabilities, with the path as the reason; else a reference to the crate
/// that the path lies in, or an error where that is no crate name.
pub open spec fn path_added(state: DeducedCapsView, rules: Seq<RuleView>, path: Seq<char>) -> Result<
    DeducedCapsView,
    CrateNameError,
> {
    match matched_caps(rules, path) {
        Some(caps) => Ok(
            DeducedCapsView {
                caps: with_reason_for_each(state.caps, caps, ReasonView::PathMatchedRule(path)),
                ..state
            },
        ),
        None => match crate_name_of(first_segment(path)) {
            Ok(name) => Ok(
                DeducedCapsView {
                    unresolved_crates: with_reference(state.unresolved_crates, name, path),
                    ..state
                },
            ),
            Err(e) => Err(e),
        },
    }
}

/// What is deduced once `symbol` was seen to name `name`.
///
/// A flat function is looked up without its leading underscores: a rule gives
/// its capabilities, and without a rule nothing is known of the symbol. A
/// path is looked up as it is: a rule gives its capabilities, and without a
/// rule the path refers to the crate that it lies in, whichever that is.
pub open spec fn name_added(
    state: DeducedCapsView,
    rules: Seq<RuleView>,
    symbol: SymbolView,
    name: FunctionOrPathView,
) -> Result<DeducedCapsView, CrateNameError> {
    match name {
        FunctionOrPathView::Function(function) => match matched_caps(
            rules,
            trim_start(function, '_'),
        ) {
            Some(caps) => Ok(
                DeducedCapsView {
                    caps: with_reason_for_each(
                        state.caps,
                        caps,
                        ReasonView::SymbolMatchedRule(symbol),
                    ),
                    ..state
                },
            ),
            None => Ok(
                DeducedCapsView {
                    caps: with_reason(
                        state.caps,
                        Capability::Unknown,
                        ReasonView::UnmatchedSymbol(symbol),
                    ),
                    ..state
                },
            ),
        },
        FunctionOrPathView::RustPath(path) => match matched_caps(rules, path) {
            Some(caps) => Ok(
                DeducedCapsView {
                    caps: with_reason_for_each(state.caps, caps, ReasonView::PathMatchedRule(path)),
                    ..state
                },
            ),
            None => match crate_name_of(first_segment(path)) {
                Ok(crate_name) => Ok(
                    DeducedCapsView {
                        unresolved_crates: with_reference(
                            state.unresolved_crates,
                            crate_name,
                            path,
                        ),
                        ..state
                    },
                ),
                Err(e) => Err(e),
            },
        },
    }
}

/// What is deduced once `symbol` was seen to name the first `n` of `names`,
/// and the error that stopped the reading, if one did. What stood before the
/// error stays.
pub open spec fn names_added(
    state: DeducedCapsView,
    rules: Seq<RuleView>,
    symbol: SymbolView,
    names: Seq<FunctionOrPathView>,
    n: nat,
) -> (DeducedCapsView, Option<CrateNameError>)
    decreases n,
{
    if n == 0 || n > names.len() {
        (state, None)
    } else {
        let before = names_added(state, rules, symbol, names, (n - 1) as nat);
        match before.1 {
            Some(e) => before,
            None => match name_added(before.0, rules, symbol, names[n - 1]) {
                Ok(after) => (after, None),
                Err(e) => (before.0, Some(e)),
            },
        }
    }
}

/// What is deduced once `symbol` was seen.
pub open spec fn symbol_added(state: DeducedCapsView, rules: Seq<RuleView>, symbol: SymbolView) -> (
    DeducedCapsView,
    Option<CrateNameError>,
) {
    names_added(state, rules, symbol, names_in(symbol.demangled), names_in(symbol.demangled).len())
}

/// What is deduced of the first `n` of `symbols`, or the first error.
pub open spec fn symbols_added(
    state: DeducedCapsView,
    rules: Seq<RuleView>,
    symbols: Seq<SymbolView>,
    n: nat,
) -> Result<DeducedCapsView, CrateNameError>
    decreases n,
{
    if n == 0 || n > symbols.len() {
        Ok(state)
    } else {
        match symbols_added(state, rules, symbols, (n - 1) as nat) {
            Ok(before) => {
                let after = symbol_added(before, rules, symbols[n - 1]);
                match after.1 {
                    Some(e) => Err(e),
                    None => Ok(after.0),
                }
            },
            Err(e) => Err(e),
        }
    }
}

/// What is deduced of the first `n` of `paths`, or the first error.
pub open spec fn paths_added(
    state: DeducedCapsView,
    rules: Seq<RuleView>,
    paths: Seq<Seq<char>>,
    n: nat,
) -> Result<DeducedCapsView, CrateNameError>
    decreases n,
{
    if n == 0 || n > paths.len() {
        Ok(state)
    } else {
        match paths_added(state, rules, paths, (n - 1) as nat) {
            Ok(before) => path_added(before, rules, paths[n - 1]),
            Err(e) => Err(e),
        }
    }
}

/// The view of a deduction that may have failed.
pub open spec fn deduced_view(r: Result<DeducedCaps, CrateNameError>) -> Result<
    DeducedCapsView,
    CrateNameError,
> {
    match r {
        Ok(d) => Ok(d@),
        Err(e) => Err(e),
    }
}

impl DeducedCaps {
    /// Every list of reasons and of paths is free of duplicates.
    pub open spec fn wf(&self) -> bool {
        self.caps.wf() && refs_wf(&self.unresolved_crates)
    }

    /// Nothing deduced.
    pub fn new() -> (r: Self)
        ensures
            r.wf(),
            r@ == nothing_deduced(),
    {
        DeducedCaps { caps: CapsMap::new(), unresolved_crates: NameMap::new() }
    }

    /// What the symbols of an artifact tell, by the rules.
    pub fn from_symbols(rules: &Rules, symbols: Vec<Symbol>) -> (r: Result<Self, CrateNameError>)
        ensures
            deduced_view(r) == symbols_added(
                nothing_deduced(),
                rules@,
                symbol_views(symbols@),
                symbols@.len(),
            ),
            r matches Ok(d) ==> d.wf(),
    {
        let ghost views = symbol_views(symbols@);
        let mut deduced = DeducedCaps::new();
        let mut i: usize = 0;
        while i < symbols.len()
            invariant
                i <= symbols.len(),
                deduced.wf(),
                views == symbol_views(symbols@),
                symbols_added(nothing_deduced(), rules@, views, i as nat) == Ok::<
                    DeducedCapsView,
                    CrateNameError,
                >(deduced@),
            decreases symbols.len() - i,
        {
            assert(views[i as int] == symbols@[i as int]@);
            match deduced.add_symbol(rules, &symbols[i]) {
                Ok(()) => {},
                Err(e) => {
                    proof {
                        lemma_symbols_added_error(
                            nothing_deduced(),
                            rules@,
                            views,
                            (i + 1) as nat,
                            symbols@.len(),
                        );
                    }
                    return Err(e);
                },
            }
            i += 1;
        }
        Ok(deduced)
    }

    /// What a set of paths tells, by the rules.
    pub fn from_paths(rules: &Rules, paths: Vec<RustPath>) -> (r: Result<Self, CrateNameError>)
        ensures
            deduced_view(r) == paths_added(
                nothing_deduced(),
                rules@,
                crate::rust_type::path_views(paths@),
                paths@.len(),
            ),
            r matches Ok(d) ==> d.wf(),
    {
        let ghost views = crate::rust_type::path_views(paths@);
        let mut deduced = DeducedCaps::new();
        let mut i: usize = 0;
        while i < paths.len()
            invariant
                i <= paths.len(),
                deduced.wf(),
                views == crate::rust_type::path_views(paths@),
                paths_added(nothing_deduced(), rules@, views, i as nat) == Ok::<
                    DeducedCapsView,
                    CrateNameError,
                >(deduced@),
            decreases paths.len() - i,
        {
            assert(views[i as int] == paths@[i as int]@);
            let path = paths[i].clone();
            match deduced.add_path(rules, path) {
                Ok(()) => {},
                Err(e) => {
                    proof {
                        lemma_paths_added_error(
                            nothing_deduced(),
                            rules@,
                            views,
                            (i + 1) as nat,
                            paths@.len(),
                        );
                    }
                    return Err(e);
                },
            }
            i += 1;
        }
        Ok(deduced)
    }

    /// Takes note of what `symbol` names. On an error, what was noted of the
    /// names before the failing one stays.
    pub fn add_symbol(&mut self, rules: &Rules, symbol: &Symbol) -> (r: Result<(), CrateNameError>)
        requires
            old(self).wf(),
        ensures
            final(self).wf(),
            final(self)@ == symbol_added(old(self)@, rules@, symbol@).0,
            match r {
                Ok(()) => symbol_added(old(self)@, rules@, symbol@).1 is None,
                Err(e) => symbol_added(old(self)@, rules@, symbol@).1 == Some(e),
            },
    {
        let names = symbol.paths();
        let ghost views = name_views(names@);
        let mut i: usize = 0;
        while i < names.len()
            invariant
                i <= names.len(),
                self.wf(),
                views == name_views(names@),
                views == names_in(symbol@.demangled),
                names_added(old(self)@, rules@, symbol@, views, i as nat) == (
                    self@,
                    None::<CrateNameError>,
                ),
            decreases names.len() - i,
        {
            assert(views[i as int] == names@[i as int]@);
            match self.add_name(rules, symbol, &names[i]) {
                Ok(()) => {},
                Err(e) => {
                    proof {
                        assert(names_added(old(self)@, rules@, symbol@, views, (i + 1) as nat) == (
                            self@,
                            Some(e),
                        ));
                        lemma_names_added_error(
                            old(self)@,
                            rules@,
                            symbol@,
                            views,
                            (i + 1) as nat,
                            names@.len(),
                        );
                    }
                    return Err(e);
                },
            }
            i += 1;
        }
        Ok(())
    }

    /// Takes note of one name of `symbol`. On an error nothing changes.
    pub fn add_name(&mut self, rules: &Rules, symbol: &Symbol, name: &FunctionOrPath) -> (r: Result<
        (),
        CrateNameError,
    >)
        requires
            old(self).wf(),
        ensures
            final(self).wf(),
            match r {
                Ok(()) => name_added(old(self)@, rules@, symbol@, name@) == Ok::<
                    DeducedCapsView,
                    CrateNameError,
                >(final(self)@),
                Err(e) => name_added(old(self)@, rules@, symbol@, name@) == Err::<
                    DeducedCapsView,
                    CrateNameError,
                >(e) && final(self)@ == old(self)@,
            },
    {
        match name {
            FunctionOrPath::Function(function) => {
                let chars = chars_of(function.as_str());
                let trimmed = string_of(&trim_start_exec(&chars, '_'));
                match rules.match_symbol(trimmed.as_str()) {
                    Some(caps) => {
                        let reason = Reason::SymbolMatchedRule(symbol.clone());
                        self.caps.add_for_each(caps, &reason);
                    },
                    None => {
                        self.caps.add(Capability::Unknown, Reason::UnmatchedSymbol(symbol.clone()));
                    },
                }
                Ok(())
            },
            FunctionOrPath::RustPath(path) => {
                match rules.match_symbol(path.as_str()) {
                    Some(caps) => {
                        let reason = Reason::PathMatchedRule(path.clone());
                        self.caps.add_for_each(caps, &reason);
                        Ok(())
                    },
                    None => {
                        let head = first_segment_of(path.as_str());
                        match CrateName::new(head.as_str()) {
                            Ok(crate_name) => {
                                add_reference(
                                    &mut self.unresolved_crates,
                                    crate_name.as_str(),
                                    path.clone(),
                                );
                                Ok(())
                            },
                            Err(e) => Err(e),
                        }
                    },
                }
            },
        }
    }

    /// Takes note of `rust_path`. On an error nothing changes.
    pub fn add_path(&mut self, rules: &Rules, rust_path: RustPath) -> (r: Result<(), CrateNameError>)
        requires
            old(self).wf(),
        ensures
            final(self).wf(),
            match r {
                Ok(()) => path_added(old(self)@, rules@, rust_path@) == Ok::<
                    DeducedCapsView,
                    CrateNameError,
                >(final(self)@),
                Err(e) => path_added(old(self)@, rules@, rust_path@) == Err::<
                    DeducedCapsView,
                    CrateNameError,
                >(e) && final(self)@ == old(self)@,
            },
    {
        match rules.match_symbol(rust_path.as_str()) {
            Some(caps) => {
                let reason = Reason::PathMatchedRule(rust_path);
                self.caps.add_for_each(caps, &reason);
                Ok(())
            },
            None => {
                let head = first_segment_of(rust_path.as_str());
                match CrateName::new(head.as_str()) {
                    Ok(crate_name) => {
                        add_reference(&mut self.unresolved_crates, crate_name.as_str(), rust_path);
                        Ok(())
                    },
                    Err(e) => Err(e),
                }
            },
        }
    }

    /// A copy.
    pub fn duplicate(&self) -> (r: Self)
        requires
            self.wf(),
        ensures
            r.wf(),
            r@ == self@,
    {
        let mut refs: CrateRefs = NameMap::new();
        let mut i: usize = 0;
        while i < self.unresolved_crates.entries.len()
            invariant
                i <= self.unresolved_crates.entries.len(),
                self.wf(),
                refs@ == self.unresolved_crates@.take(i as int),
                forall|k: int| 0 <= k < i ==> (#[trigger] refs.entries@[k]).1.wf(),
            decreases self.unresolved_crates.entries.len() - i,
        {
            let ghost before = refs;
            let entry = &self.unresolved_crates.entries[i];
            assert(entry.1.wf());
            let name = entry.0.clone();
            let paths = entry.1.duplicate();
            refs.entries.push((name, paths));
            proof {
                assert(refs@ =~= before@.push((name@, paths@)));
                assert(self.unresolved_crates@.take(i + 1) =~= self.unresolved_crates@.take(
                    i as int,
                ).push(self.unresolved_crates@[i as int]));
                assert forall|k: int| 0 <= k < i + 1 implies (#[trigger] refs.entries@[k]).1.wf() by {
                    if k < i {
                        assert(before.entries@[k].1.wf());
                    }
                }
            }
            i += 1;
        }
        assert(self.unresolved_crates@.take(self.unresolved_crates@.len() as int)
            =~= self.unresolved_crates@);
        DeducedCaps { caps: self.caps.duplicate(), unresolved_crates: refs }
    }
}

/// Once an error stopped the reading of names, it stays.
pub proof fn lemma_names_added_error(
    state: DeducedCapsView,
    rules: Seq<RuleView>,
    symbol: SymbolView,
    names: Seq<FunctionOrPathView>,
    n: nat,
    m: nat,
)
    requires
        n <= m <= names.len(),
        names_added(state, rules, symbol, names, n).1 is Some,
    ensures
        names_added(state, rules, symbol, names, m) == names_added(state, rules, symbol, names, n),
    decreases m - n,
{
    if n < m {
        lemma_names_added_error(state, rules, symbol, names, n, (m - 1) as nat);
    }
}

/// Once an error stopped the reading of symbols, it stays.
pub proof fn lemma_symbols_added_error(
    state: DeducedCapsView,
    rules: Seq<RuleView>,
    symbols: Seq<SymbolView>,
    n: nat,
    m: nat,
)
    requires
        n <= m <= symbols.len(),
        symbols_added(state, rules, symbols, n) is Err,
    ensures
        symbols_added(state, rules, symbols, m) == symbols_added(state, rules, symbols, n),
    decreases m - n,
{
    if n < m {
        lemma_symbols_added_error(state, rules, symbols, n, (m - 1) as nat);
    }
}

/// Once an error stopped the reading of paths, it stays.
pub proof fn lemma_paths_added_error(
    state: DeducedCapsView,
    rules: Seq<RuleView>,
    paths: Seq<Seq<char>>,
    n: nat,
    m: nat,
)
    requires
        n <= m <= paths.len(),
        paths_added(state, rules, paths, n) is Err,
    ensures
        paths_added(state, rules, paths, m) == paths_added(state, rules, paths, n),
    decreases m - n,
{
    if n < m {
        lemma_paths_added_error(state, rules, paths, n, (m - 1) as nat);
    }
}

/// The crates that are referred to, each with the symbols that refer to it.
pub type SymbolRefs = NameMap<UniqueVec<Symbol>>;

/// What was deduced of one artifact, with what could not be classified kept
/// apart: symbols that name nothing known, and crates that are yet to be
/// resolved.
#[derive(Debug)]
pub struct DeducedCapablities {
    /// The known capabilities of this crate
    pub own_caps: CapsMap,
    /// The crates we depend on that we know the capabilities of
    pub known_crates: NameMap<CapabilitySet>,
    /// We couldn't classify these symbols
    pub unknown_symbols: UniqueVec<Symbol>,
    /// We need to resolve these crates to see what their capabilities are
    pub unknown_crates: SymbolRefs,
    /// Rules for matching symbols to capabilities
    pub rules: Rules,
}

/// What a `DeducedCapablities` stands for.
pub struct DeducedCapablitiesView {
    pub own_caps: Map<Capability, Seq<ReasonView>>,
    pub known_crates: Seq<(Seq<char>, Set<Capability>)>,
    pub unknown_symbols: Seq<SymbolView>,
    pub unknown_crates: Seq<(Seq<char>, Seq<SymbolView>)>,
}

impl View for DeducedCapablities {
    type V = DeducedCapablitiesView;

    open spec fn view(&self) -> DeducedCapablitiesView {
        DeducedCapablitiesView {
            own_caps: self.own_caps@,
            known_crates: self.known_crates@,
            unknown_symbols: self.unknown_symbols@,
            unknown_crates: self.unknown_crates@,
        }
    }
}

/// Nothing known, nothing unknown.
pub open spec fn nothing_noted() -> DeducedCapablitiesView {
    DeducedCapablitiesView {
        own_caps: Map::empty(),
        known_crates: Seq::empty(),
        unknown_symbols: Seq::empty(),
        unknown_crates: Seq::empty(),
    }
}

/// What is known once `symbol` was seen to name `name`.
///
/// A flat function is looked up without its leading underscores, a path as it
/// is. A rule gives its capabilities, with the symbol as the reason. Without a
/// rule a function is an unknown symbol, and a path is filed under the crate
/// that it lies in: its first segment.
pub open spec fn name_noted(
    state: DeducedCapablitiesView,
    rules: Seq<RuleView>,
    symbol: SymbolView,
    name: FunctionOrPathView,
) -> DeducedCapablitiesView {
    match name {
        FunctionOrPathView::Function(function) => match matched_caps(
            rules,
            trim_start(function, '_'),
        ) {
            Some(caps) => DeducedCapablitiesView {
                own_caps: with_reason_for_each(
                    state.own_caps,
                    caps,
                    ReasonView::SymbolMatchedRule(symbol),
                ),
                ..state
            },
            None => DeducedCapablitiesView {
                unknown_symbols: inserted(state.unknown_symbols, symbol),
                ..state
            },
        },
        FunctionOrPathView::RustPath(path) => match matched_caps(rules, path) {
            Some(caps) => DeducedCapablitiesView {
                own_caps: with_reason_for_each(
                    state.own_caps,
                    caps,
                    ReasonView::SymbolMatchedRule(symbol),
                ),
                ..state
            },
            None => DeducedCapablitiesView {
                unknown_crates: with_reference(state.unknown_crates, first_segment(path), symbol),
                ..state
            },
        },
    }
}

/// What is known once `symbol` was seen to name the first `n` of `names`.
pub open spec fn names_noted(
    state: DeducedCapablitiesView,
    rules: Seq<RuleView>,
    symbol: SymbolView,
    names: Seq<FunctionOrPathView>,
    n: nat,
) -> DeducedCapablitiesView
    decreases n,
{
    if n == 0 || n > names.len() {
        state
    } else {
        name_noted(names_noted(state, rules, symbol, names, (n - 1) as nat), rules, symbol, names[n - 1])
    }
}

/// What is known once `symbol` was seen.
pub open spec fn symbol_noted(
    state: DeducedCapablitiesView,
    rules: Seq<RuleView>,
    symbol: SymbolView,
) -> DeducedCapablitiesView {
    names_noted(state, rules, symbol, names_in(symbol.demangled), names_in(symbol.demangled).len())
}

/// What is known once the first `n` of `symbols` were seen.
pub open spec fn symbols_noted(
    state: DeducedCapablitiesView,
    rules: Seq<RuleView>,
    symbols: Seq<SymbolView>,
    n: nat,
) -> DeducedCapablitiesView
    decreases n,
{
    if n == 0 || n > symbols.len() {
        state
    } else {
        symbol_noted(symbols_noted(state, rules, symbols, (n - 1) as nat), rules, symbols[n - 1])
    }
}

/// The capabilities of the crates in `known`, taken together.
pub open spec fn crates_caps(known: Seq<(Seq<char>, Set<Capability>)>) -> Set<Capability> {
    Set::new(|c: Capability| exists|i: int| 0 <= i < known.len() && (#[trigger] known[i]).1.contains(c))
}

/// All that is held against a crate: its own capabilities, those of the
/// crates it depends on, and `Unknown` where a symbol or a crate could not be
/// classified.
pub open spec fn all_capabilities(state: DeducedCapablitiesView) -> Set<Capability> {
    let known = state.own_caps.dom().union(crates_caps(state.known_crates));
    if state.unknown_symbols.len() > 0 || state.unknown_crates.len() > 0 {
        known.insert(Capability::Unknown)
    } else {
        known
    }
}

/// The total of a crate's capabilities: all that is held against it, which
/// comes down to `Wildcard` or `Unknown` alone where it holds one of them.
pub open spec fn total_of(state: DeducedCapablitiesView) -> Set<Capability> {
    absorbed(all_capabilities(state))
}

/// The catch-all absorbs: where it is held against a crate, it is the total.
pub proof fn lemma_total_absorbs_catch_all(state: DeducedCapablitiesView)
    requires
        all_capabilities(state).contains(Capability::Wildcard),
    ensures
        total_of(state) == set![Capability::Wildcard],
{
}

/// What cannot be classified leaves nothing but `Unknown` or the catch-all.
pub proof fn lemma_total_of_unknown(state: DeducedCapablitiesView)
    requires
        state.unknown_symbols.len() > 0 || state.unknown_crates.len() > 0,
    ensures
        total_of(state) == set![Capability::Unknown] || total_of(state) == set![
            Capability::Wildcard,
        ],
{
}

impl DeducedCapablities {
    /// The rules by which symbols are classified.
    pub open spec fn rules(&self) -> Seq<RuleView> {
        self.rules@
    }

    /// Every list is free of duplicates, and no crate is listed twice.
    pub open spec fn wf(&self) -> bool {
        &&& self.own_caps.wf()
        &&& self.known_crates.wf()
        &&& self.unknown_symbols.wf()
        &&& refs_wf(&self.unknown_crates)
    }

    /// Nothing noted, with the default rules.
    pub fn new() -> (r: Self)
        ensures
            r.wf(),
            r@ == nothing_noted(),
            r.rules() == default_table(),
    {
        Self::with_rules(default_rules())
    }

    /// Nothing noted, with the given rules.
    pub fn with_rules(rules: Rules) -> (r: Self)
        ensures
            r.wf(),
            r@ == nothing_noted(),
            r.rules() == rules@,
    {
        DeducedCapablities {
            own_caps: CapsMap::new(),
            known_crates: NameMap::new(),
            unknown_symbols: UniqueVec::new(),
            unknown_crates: NameMap::new(),
            rules,
        }
    }

    /// What the symbols of an artifact tell, by the default rules.
    pub fn from_symbols(symbols: Vec<Symbol>) -> (r: Self)
        ensures
            r.wf(),
            r.rules() == default_table(),
            r@ == symbols_noted(nothing_noted(), r.rules(), symbol_views(symbols@), symbols@.len()),
    {
        let mut noted = DeducedCapablities::new();
        noted.add_all(&symbols);
        noted
    }

    /// Takes note of each of `symbols`, in order.
    pub fn add_all(&mut self, symbols: &Vec<Symbol>)
        requires
            old(self).wf(),
        ensures
            final(self).wf(),
            final(self).rules() == old(self).rules(),
            final(self)@ == symbols_noted(
                old(self)@,
                old(self).rules(),
                symbol_views(symbols@),
                symbols@.len(),
            ),
    {
        let ghost views = symbol_views(symbols@);
        let mut i: usize = 0;
        while i < symbols.len()
            invariant
                i <= symbols.len(),
                self.wf(),
                self.rules() == old(self).rules(),
                views == symbol_views(symbols@),
                self@ == symbols_noted(old(self)@, old(self).rules(), views, i as nat),
            decreases symbols.len() - i,
        {
            assert(views[i as int] == symbols@[i as int]@);
            self.add(&symbols[i]);
            i += 1;
        }
    }

    /// Takes note of what `symbol` names.
    pub fn add(&mut self, symbol: &Symbol)
        requires
            old(self).wf(),
        ensures
            final(self).wf(),
            final(self).rules() == old(self).rules(),
            final(self)@ == symbol_noted(old(self)@, old(self).rules(), symbol@),
    {
        let names = symbol.paths();
        let ghost views = name_views(names@);
        let mut i: usize = 0;
        while i < names.len()
            invariant
                i <= names.len(),
                self.wf(),
                self.rules() == old(self).rules(),
                views == name_views(names@),
                self@ == names_noted(old(self)@, old(self).rules(), symbol@, views, i as nat),
            decreases names.len() - i,
        {
            assert(views[i as int] == names@[i as int]@);
            self.add_name(symbol, &names[i]);
            i += 1;
        }
    }

    /// Takes note of one name of `symbol`.
    pub fn add_name(&mut self, symbol: &Symbol, name: &FunctionOrPath)
        requires
            old(self).wf(),
        ensures
            final(self).wf(),
            final(self).rules() == old(self).rules(),
            final(self)@ == name_noted(old(self)@, old(self).rules(), symbol@, name@),
    {
        match name {
            FunctionOrPath::Function(function) => {
                let chars = chars_of(function.as_str());
                let trimmed = string_of(&trim_start_exec(&chars, '_'));
                match self.rules.match_symbol(trimmed.as_str()) {
                    Some(caps) => {
                        let reason = Reason::SymbolMatchedRule(symbol.clone());
                        self.own_caps.add_for_each(caps, &reason);
                    },
                    None => {
                        self.unknown_symbols.insert(symbol.clone());
                    },
                }
            },
            FunctionOrPath::RustPath(path) => {
                match self.rules.match_symbol(path.as_str()) {
                    Some(caps) => {
                        let reason = Reason::SymbolMatchedRule(symbol.clone());
                        self.own_caps.add_for_each(caps, &reason);
                    },
                    None => {
                        let crate_name = first_segment_of(path.as_str());
                        add_reference(&mut self.unknown_crates, crate_name.as_str(), symbol.clone());
                    },
                }
            },
        }
    }

    /// The total of the capabilities: the crate's own, those of the crates it
    /// depends on, and `Unknown` where anything is unknown. Where the total
    /// holds the catch-all it is that alone, and likewise for `Unknown`.
    pub fn total_capabilities(&self) -> (r: CapabilitySet)
        ensures
            r@ == total_of(self@),
    {
        let mut total = self.own_caps.keys();
        let mut i: usize = 0;
        proof {
            assert(total@ =~= self@.own_caps.dom().union(crates_caps(self@.known_crates.take(0))));
        }
        while i < self.known_crates.entries.len()
            invariant
                i <= self.known_crates.entries.len(),
                total@ == self@.own_caps.dom().union(
                    crates_caps(self@.known_crates.take(i as int)),
                ),
            decreases self.known_crates.entries.len() - i,
        {
            let ghost before = total@;
            total.extend(&self.known_crates.entries[i].1);
            proof {
                let known = self@.known_crates;
                let caps = known[i as int].1;
                assert(caps == self.known_crates.entries@[i as int].1@);
                assert forall|c: Capability|
                    crates_caps(known.take(i + 1)).contains(c) == (crates_caps(
                        known.take(i as int),
                    ).contains(c) || caps.contains(c)) by {
                    if crates_caps(known.take(i + 1)).contains(c) {
                        let k = choose|k: int|
                            0 <= k < known.take(i + 1).len() && (#[trigger] known.take(
                                i + 1,
                            )[k]).1.contains(c);
                        if k < i {
                            assert(known.take(i as int)[k].1.contains(c));
                        }
                    }
                    if crates_caps(known.take(i as int)).contains(c) {
                        let k = choose|k: int|
                            0 <= k < known.take(i as int).len() && (#[trigger] known.take(
                                i as int,
                            )[k]).1.contains(c);
                        assert(known.take(i + 1)[k].1.contains(c));
                    }
                    if caps.contains(c) {
                        assert(known.take(i + 1)[i as int].1.contains(c));
                    }
                }
                assert(total@ =~= self@.own_caps.dom().union(crates_caps(known.take(i + 1))));
            }
            i += 1;
        }
        assert(self@.known_crates.take(self@.known_crates.len() as int) =~= self@.known_crates);
        if !self.unknown_symbols.is_empty() || !self.unknown_crates.is_empty() {
            total.insert(Capability::Unknown);
        }
        total.absorb()
    }
}

/// What a deduction comes down to: the capabilities that were found, the
/// symbols that could not be classified, the crates that are referred to,
/// and which symbol refers to which crate.
pub struct Outcome {
    pub caps: Set<Capability>,
    pub unknown_symbols: Set<SymbolView>,
    pub crates: Set<Seq<char>>,
    pub references: Set<(Seq<char>, SymbolView)>,
}

/// The pairs of a crate and of what refers to it.
pub open spec fn references_of<A>(refs: Seq<(Seq<char>, Seq<A>)>) -> Set<(Seq<char>, A)> {
    Set::new(
        |p: (Seq<char>, A)|
            exists|i: int|
                0 <= i < refs.len() && (#[trigger] refs[i]).0 == p.0 && refs[i].1.contains(p.1),
    )
}

/// What `state` comes down to.
pub open spec fn outcome_of(state: DeducedCapablitiesView) -> Outcome {
    Outcome {
        caps: state.own_caps.dom(),
        unknown_symbols: state.unknown_symbols.to_set(),
        crates: names_of(state.unknown_crates).to_set(),
        references: references_of(state.unknown_crates),
    }
}

/// Nothing found.
pub open spec fn no_outcome() -> Outcome {
    Outcome {
        caps: Set::empty(),
        unknown_symbols: Set::empty(),
        crates: Set::empty(),
        references: Set::empty(),
    }
}

/// What `a` and `b` hold together.
pub open spec fn both(a: Outcome, b: Outcome) -> Outcome {
    Outcome {
        caps: a.caps.union(b.caps),
        unknown_symbols: a.unknown_symbols.union(b.unknown_symbols),
        crates: a.crates.union(b.crates),
        references: a.references.union(b.references),
    }
}

/// All that `a` holds, `b` holds too.
pub open spec fn within(a: Outcome, b: Outcome) -> bool {
    &&& a.caps.subset_of(b.caps)
    &&& a.unknown_symbols.subset_of(b.unknown_symbols)
    &&& a.crates.subset_of(b.crates)
    &&& a.references.subset_of(b.references)
}

/// What it adds that `symbol` names `name`.
pub open spec fn name_outcome(
    rules: Seq<RuleView>,
    symbol: SymbolView,
    name: FunctionOrPathView,
) -> Outcome {
    match name {
        FunctionOrPathView::Function(function) => match matched_caps(
            rules,
            trim_start(function, '_'),
        ) {
            Some(caps) => Outcome { caps, ..no_outcome() },
            None => Outcome { unknown_symbols: set![symbol], ..no_outcome() },
        },
        FunctionOrPathView::RustPath(path) => match matched_caps(rules, path) {
            Some(caps) => Outcome { caps, ..no_outcome() },
            None => Outcome {
                crates: set![first_segment(path)],
                references: set![(first_segment(path), symbol)],
                ..no_outcome()
            },
        },
    }
}

/// What it adds that `symbol` names the first `n` of `names`.
pub open spec fn names_outcome(
    rules: Seq<RuleView>,
    symbol: SymbolView,
    names: Seq<FunctionOrPathView>,
    n: nat,
) -> Outcome
    decreases n,
{
    if n == 0 || n > names.len() {
        no_outcome()
    } else {
        both(
            names_outcome(rules, symbol, names, (n - 1) as nat),
            name_outcome(rules, symbol, names[n - 1]),
        )
    }
}

/// What `symbol` adds.
pub open spec fn symbol_outcome(rules: Seq<RuleView>, symbol: SymbolView) -> Outcome {
    names_outcome(rules, symbol, names_in(symbol.demangled), names_in(symbol.demangled).len())
}

/// What the first `n` of `symbols` add.
pub open spec fn symbols_outcome(rules: Seq<RuleView>, symbols: Seq<SymbolView>, n: nat) -> Outcome
    decreases n,
{
    if n == 0 || n > symbols.len() {
        no_outcome()
    } else {
        both(
            symbols_outcome(rules, symbols, (n - 1) as nat),
            symbol_outcome(rules, symbols[n - 1]),
        )
    }
}

/// Two outcomes that hold the same are the same.
proof fn lemma_same_outcome(a: Outcome, b: Outcome)
    requires
        within(a, b),
        within(b, a),
    ensures
        a == b,
{
    assert(a.caps =~= b.caps);
    assert(a.unknown_symbols =~= b.unknown_symbols);
    assert(a.crates =~= b.crates);
    assert(a.references =~= b.references);
}

/// A reference adds its crate and its pair, and takes nothing away.
proof fn lemma_with_reference<A>(refs: Seq<(Seq<char>, Seq<A>)>, name: Seq<char>, symbol: A)
    ensures
        names_of(with_reference(refs, name, symbol)).to_set() == names_of(refs).to_set().insert(
            name,
        ),
        references_of(with_reference(refs, name, symbol)) == references_of(refs).insert(
            (name, symbol),
        ),
{
    let base = with_slot(refs, name, Seq::<A>::empty());
    let after = with_reference(refs, name, symbol);
    lemma_slot_position(refs, name, Seq::<A>::empty());
    lemma_position_of(refs, name, refs.len());
    lemma_position_of(base, name, base.len());
    let at = position(base, name)->Some_0;
    assert(after == base.update(at, (name, inserted(base[at].1, symbol))));
    assert(after[at].1.contains(symbol)) by {
        if base[at].1.contains(symbol) {
        } else {
            assert(after[at].1[base[at].1.len() as int] == symbol);
        }
    }
    assert forall|x: Seq<char>|
        names_of(after).to_set().contains(x) == names_of(refs).to_set().insert(name).contains(
            x,
        ) by {
        if names_of(after).contains(x) {
            let i = choose|i: int| 0 <= i < names_of(after).len() && names_of(after)[i] == x;
            if i < refs.len() && i != at {
                assert(names_of(refs)[i] == x);
            }
        }
        if names_of(refs).contains(x) {
            let i = choose|i: int| 0 <= i < names_of(refs).len() && names_of(refs)[i] == x;
            assert(names_of(after)[i] == x);
        }
        assert(names_of(after)[at] == name);
    }
    assert(names_of(after).to_set() =~= names_of(refs).to_set().insert(name));
    assert forall|p: (Seq<char>, A)|
        references_of(after).contains(p) == references_of(refs).insert((name, symbol)).contains(
            p,
        ) by {
        if references_of(after).contains(p) {
            let i = choose|i: int|
                0 <= i < after.len() && (#[trigger] after[i]).0 == p.0 && after[i].1.contains(p.1);
            if i == at {
                if p.1 != symbol {
                    let k = choose|k: int| 0 <= k < after[i].1.len() && after[i].1[k] == p.1;
                    assert(base[at].1[k] == p.1);
                    assert(base[at].1.contains(p.1));
                    assert(at < refs.len());
                    assert(refs[at].0 == p.0 && refs[at].1.contains(p.1));
                }
            } else {
                assert(after[i] == base[i]);
                assert(i < refs.len());
                assert(refs[i].0 == p.0 && refs[i].1.contains(p.1));
            }
        }
        if references_of(refs).contains(p) {
            let i = choose|i: int|
                0 <= i < refs.len() && (#[trigger] refs[i]).0 == p.0 && refs[i].1.contains(p.1);
            if i == at {
                let k = choose|k: int| 0 <= k < refs[i].1.len() && refs[i].1[k] == p.1;
                assert(after[at].1[k] == p.1);
            }
            assert(after[i].0 == p.0 && after[i].1.contains(p.1));
        }
        if p == (name, symbol) {
            assert(after[at].0 == p.0 && after[at].1.contains(p.1));
        }
    }
    assert(references_of(after) =~= references_of(refs).insert((name, symbol)));
}

/// What a name adds to a state is what it adds by itself.
proof fn lemma_name_outcome(
    state: DeducedCapablitiesView,
    rules: Seq<RuleView>,
    symbol: SymbolView,
    name: FunctionOrPathView,
)
    ensures
        outcome_of(name_noted(state, rules, symbol, name)) == both(
            outcome_of(state),
            name_outcome(rules, symbol, name),
        ),
{
    let after = outcome_of(name_noted(state, rules, symbol, name));
    let sum = both(outcome_of(state), name_outcome(rules, symbol, name));
    match name {
        FunctionOrPathView::Function(function) => {
            if matched_caps(rules, trim_start(function, '_')) is None {
                let held = state.unknown_symbols;
                let grown = inserted(held, symbol);
                assert forall|x: SymbolView|
                    grown.to_set().contains(x) == held.to_set().insert(symbol).contains(x) by {
                    if grown.contains(x) && !held.contains(symbol) {
                        let i = choose|i: int| 0 <= i < grown.len() && grown[i] == x;
                        if i < held.len() {
                            assert(held[i] == x);
                        }
                    }
                    if held.contains(x) {
                        let i = choose|i: int| 0 <= i < held.len() && held[i] == x;
                        assert(grown[i] == x);
                    }
                    if !held.contains(symbol) {
                        assert(grown[held.len() as int] == symbol);
                    }
                }
                assert(grown.to_set() =~= held.to_set().insert(symbol));
            }
        },
        FunctionOrPathView::RustPath(path) => {
            if matched_caps(rules, path) is None {
                lemma_with_reference(state.unknown_crates, first_segment(path), symbol);
            }
        },
    }
    assert(after.caps =~= sum.caps);
    assert(after.unknown_symbols =~= sum.unknown_symbols);
    assert(after.crates =~= sum.crates);
    assert(after.references =~= sum.references);
}

/// What the names of a symbol add to a state is what they add by themselves.
proof fn lemma_names_outcome(
    state: DeducedCapablitiesView,
    rules: Seq<RuleView>,
    symbol: SymbolView,
    names: Seq<FunctionOrPathView>,
    n: nat,
)
    requires
        n <= names.len(),
    ensures
        outcome_of(names_noted(state, rules, symbol, names, n)) == both(
            outcome_of(state),
            names_outcome(rules, symbol, names, n),
        ),
    decreases n,
{
    if n == 0 {
        lemma_same_outcome(outcome_of(state), both(outcome_of(state), no_outcome()));
    } else {
        let before = names_noted(state, rules, symbol, names, (n - 1) as nat);
        lemma_names_outcome(state, rules, symbol, names, (n - 1) as nat);
        lemma_name_outcome(before, rules, symbol, names[n - 1]);
        lemma_same_outcome(
            both(outcome_of(before), name_outcome(rules, symbol, names[n - 1])),
            both(outcome_of(state), names_outcome(rules, symbol, names, n)),
        );
    }
}

/// What symbols add to a state is what they add by themselves.
pub proof fn lemma_symbols_outcome(
    state: DeducedCapablitiesView,
    rules: Seq<RuleView>,
    symbols: Seq<SymbolView>,
    n: nat,
)
    requires
        n <= symbols.len(),
    ensures
        outcome_of(symbols_noted(state, rules, symbols, n)) == both(
            outcome_of(state),
            symbols_outcome(rules, symbols, n),
        ),
    decreases n,
{
    if n == 0 {
        lemma_same_outcome(outcome_of(state), both(outcome_of(state), no_outcome()));
    } else {
        let before = symbols_noted(state, rules, symbols, (n - 1) as nat);
        let names = names_in(symbols[n - 1].demangled);
        lemma_symbols_outcome(state, rules, symbols, (n - 1) as nat);
        lemma_names_outcome(before, rules, symbols[n - 1], names, names.len());
        lemma_same_outcome(
            both(outcome_of(before), symbol_outcome(rules, symbols[n - 1])),
            both(outcome_of(state), symbols_outcome(rules, symbols, n)),
        );
    }
}

/// What one of the first `n` symbols adds is part of what they add together.
proof fn lemma_outcome_holds(rules: Seq<RuleView>, symbols: Seq<SymbolView>, n: nat, i: int)
    requires
        0 <= i < n <= symbols.len(),
    ensures
        within(symbol_outcome(rules, symbols[i]), symbols_outcome(rules, symbols, n)),
    decreases n,
{
    if i < n - 1 {
        lemma_outcome_holds(rules, symbols, (n - 1) as nat, i);
    }
}

/// What symbols add that all occur in another list is part of what that list
/// adds.
proof fn lemma_outcome_within(
    rules: Seq<RuleView>,
    a: Seq<SymbolView>,
    n: nat,
    b: Seq<SymbolView>,
)
    requires
        n <= a.len(),
        forall|i: int| 0 <= i < n ==> b.contains(#[trigger] a[i]),
    ensures
        within(symbols_outcome(rules, a, n), symbols_outcome(rules, b, b.len())),
    decreases n,
{
    if n > 0 {
        lemma_outcome_within(rules, a, (n - 1) as nat, b);
        assert(b.contains(a[n - 1]));
        let j = choose|j: int| 0 <= j < b.len() && b[j] == a[n - 1];
        lemma_outcome_holds(rules, b, b.len(), j);
    }
}

/// The order of the symbols is immaterial: two lists that hold the same
/// symbols, each as often as the other, lead from one state to the same
/// capabilities, the same unknown symbols and the same references to crates.
pub proof fn lemma_symbol_order_is_immaterial(
    state: DeducedCapablitiesView,
    rules: Seq<RuleView>,
    a: Seq<SymbolView>,
    b: Seq<SymbolView>,
)
    requires
        a.to_multiset() == b.to_multiset(),
    ensures
        outcome_of(symbols_noted(state, rules, a, a.len())) == outcome_of(
            symbols_noted(state, rules, b, b.len()),
        ),
{
    a.to_multiset_ensures();
    b.to_multiset_ensures();
    assert forall|i: int| 0 <= i < a.len() implies b.contains(#[trigger] a[i]) by {
        assert(a.contains(a[i]));
        assert(a.to_multiset().count(a[i]) > 0);
        assert(b.to_multiset().count(a[i]) > 0);
    }
    assert forall|i: int| 0 <= i < b.len() implies a.contains(#[trigger] b[i]) by {
        assert(b.contains(b[i]));
        assert(b.to_multiset().count(b[i]) > 0);
        assert(a.to_multiset().count(b[i]) > 0);
    }
    lemma_outcome_within(rules, a, a.len(), b);
    lemma_outcome_within(rules, b, b.len(), a);
    lemma_same_outcome(symbols_outcome(rules, a, a.len()), symbols_outcome(rules, b, b.len()));
    lemma_symbols_outcome(state, rules, a, a.len());
    lemma_symbols_outcome(state, rules, b, b.len());
}

/// What a deduction with its references by path comes down to: the
/// capabilities that were found, the crates that are referred to, and which
/// path refers to which crate.
pub struct CapsOutcome {
    pub caps: Set<Capability>,
    pub crates: Set<Seq<char>>,
    pub references: Set<(Seq<char>, Seq<char>)>,
}

/// What `state` comes down to.
pub open spec fn caps_outcome_of(state: DeducedCapsView) -> CapsOutcome {
    CapsOutcome {
        caps: state.caps.dom(),
        crates: names_of(state.unresolved_crates).to_set(),
        references: references_of(state.unresolved_crates),
    }
}

/// Nothing found.
pub open spec fn no_caps_outcome() -> CapsOutcome {
    CapsOutcome { caps: Set::empty(), crates: Set::empty(), references: Set::empty() }
}

/// What `a` and `b` hold together.
pub open spec fn both_caps(a: CapsOutcome, b: CapsOutcome) -> CapsOutcome {
    CapsOutcome {
        caps: a.caps.union(b.caps),
        crates: a.crates.union(b.crates),
        references: a.references.union(b.references),
    }
}

/// All that `a` holds, `b` holds too.
pub open spec fn caps_within(a: CapsOutcome, b: CapsOutcome) -> bool {
    &&& a.caps.subset_of(b.caps)
    &&& a.crates.subset_of(b.crates)
    &&& a.references.subset_of(b.references)
}

/// Whether `name` can be read: a path for which there is no rule must lie
/// in a crate.
pub open spec fn name_readable(rules: Seq<RuleView>, name: FunctionOrPathView) -> bool {
    match name {
        FunctionOrPathView::Function(_) => true,
        FunctionOrPathView::RustPath(path) => matched_caps(rules, path) is Some || crate_name_of(
            first_segment(path),
        ) is Ok,
    }
}

/// What it adds that a symbol names `name`, which can be read.
pub open spec fn name_caps_outcome(rules: Seq<RuleView>, name: FunctionOrPathView) -> CapsOutcome {
    match name {
        FunctionOrPathView::Function(function) => match matched_caps(
            rules,
            trim_start(function, '_'),
        ) {
            Some(caps) => CapsOutcome { caps, ..no_caps_outcome() },
            None => CapsOutcome { caps: set![Capability::Unknown], ..no_caps_outcome() },
        },
        FunctionOrPathView::RustPath(path) => match matched_caps(rules, path) {
            Some(caps) => CapsOutcome { caps, ..no_caps_outcome() },
            None => match crate_name_of(first_segment(path)) {
                Ok(crate_name) => CapsOutcome {
                    crates: set![crate_name],
                    references: set![(crate_name, path)],
                    ..no_caps_outcome()
                },
                Err(_) => no_caps_outcome(),
            },
        },
    }
}

/// Whether the first `n` of `names` can all be read.
pub open spec fn names_readable(rules: Seq<RuleView>, names: Seq<FunctionOrPathView>, n: nat) -> bool
    decreases n,
{
    if n == 0 || n > names.len() {
        true
    } else {
        names_readable(rules, names, (n - 1) as nat) && name_readable(rules, names[n - 1])
    }
}

/// What it adds that a symbol names the first `n` of `names`.
pub open spec fn names_caps_outcome(
    rules: Seq<RuleView>,
    names: Seq<FunctionOrPathView>,
    n: nat,
) -> CapsOutcome
    decreases n,
{
    if n == 0 || n > names.len() {
        no_caps_outcome()
    } else {
        both_caps(
            names_caps_outcome(rules, names, (n - 1) as nat),
            name_caps_outcome(rules, names[n - 1]),
        )
    }
}

/// Whether every name of `symbol` can be read.
pub open spec fn symbol_readable(rules: Seq<RuleView>, symbol: SymbolView) -> bool {
    names_readable(rules, names_in(symbol.demangled), names_in(symbol.demangled).len())
}

/// What `symbol` adds.
pub open spec fn symbol_caps_outcome(rules: Seq<RuleView>, symbol: SymbolView) -> CapsOutcome {
    names_caps_outcome(rules, names_in(symbol.demangled), names_in(symbol.demangled).len())
}

/// What the first `n` of `symbols` add.
pub open spec fn symbols_caps_outcome(
    rules: Seq<RuleView>,
    symbols: Seq<SymbolView>,
    n: nat,
) -> CapsOutcome
    decreases n,
{
    if n == 0 || n > symbols.len() {
        no_caps_outcome()
    } else {
        both_caps(
            symbols_caps_outcome(rules, symbols, (n - 1) as nat),
            symbol_caps_outcome(rules, symbols[n - 1]),
        )
    }
}

/// Two outcomes that hold the same are the same.
proof fn lemma_same_caps_outcome(a: CapsOutcome, b: CapsOutcome)
    requires
        caps_within(a, b),
        caps_within(b, a),
    ensures
        a == b,
{
    assert(a.caps =~= b.caps);
    assert(a.crates =~= b.crates);
    assert(a.references =~= b.references);
}

/// A name is read exactly where it can be read, and what it then adds to a
/// state is what it adds by itself.
proof fn lemma_name_added(
    state: DeducedCapsView,
    rules: Seq<RuleView>,
    symbol: SymbolView,
    name: FunctionOrPathView,
)
    ensures
        name_added(state, rules, symbol, name) is Ok <==> name_readable(rules, name),
        name_added(state, rules, symbol, name) matches Ok(after) ==> caps_outcome_of(after)
            == both_caps(caps_outcome_of(state), name_caps_outcome(rules, name)),
{
    if let Ok(after) = name_added(state, rules, symbol, name) {
        let sum = both_caps(caps_outcome_of(state), name_caps_outcome(rules, name));
        match name {
            FunctionOrPathView::Function(_) => {},
            FunctionOrPathView::RustPath(path) => {
                if matched_caps(rules, path) is None {
                    let crate_name = crate_name_of(first_segment(path))->Ok_0;
                    lemma_with_reference(state.unresolved_crates, crate_name, path);
                }
            },
        }
        assert(caps_outcome_of(after).caps =~= sum.caps);
        assert(caps_outcome_of(after).crates =~= sum.crates);
        assert(caps_outcome_of(after).references =~= sum.references);
    }
}

/// The names of a symbol are read exactly where each can be read, and what
/// they then add to a state is what they add by themselves.
proof fn lemma_names_added(
    state: DeducedCapsView,
    rules: Seq<RuleView>,
    symbol: SymbolView,
    names: Seq<FunctionOrPathView>,
    n: nat,
)
    requires
        n <= names.len(),
    ensures
        names_added(state, rules, symbol, names, n).1 is None <==> names_readable(rules, names, n),
        names_added(state, rules, symbol, names, n).1 is None ==> caps_outcome_of(
            names_added(state, rules, symbol, names, n).0,
        ) == both_caps(caps_outcome_of(state), names_caps_outcome(rules, names, n)),
    decreases n,
{
    if n == 0 {
        lemma_same_caps_outcome(
            caps_outcome_of(state),
            both_caps(caps_outcome_of(state), no_caps_outcome()),
        );
    } else {
        let before = names_added(state, rules, symbol, names, (n - 1) as nat);
        lemma_names_added(state, rules, symbol, names, (n - 1) as nat);
        if before.1 is None {
            lemma_name_added(before.0, rules, symbol, names[n - 1]);
            if let Ok(after) = name_added(before.0, rules, symbol, names[n - 1]) {
                lemma_same_caps_outcome(
                    both_caps(caps_outcome_of(before.0), name_caps_outcome(rules, names[n - 1])),
                    both_caps(caps_outcome_of(state), names_caps_outcome(rules, names, n)),
                );
            }
        }
    }
}

/// Whether every name of each of the first `n` of `symbols` can be read.
pub open spec fn symbols_readable(rules: Seq<RuleView>, symbols: Seq<SymbolView>, n: nat) -> bool
    decreases n,
{
    if n == 0 || n > symbols.len() {
        true
    } else {
        symbols_readable(rules, symbols, (n - 1) as nat) && symbol_readable(rules, symbols[n - 1])
    }
}

/// Symbols are read exactly where each of their names can be read, and what
/// they then add to a state is what they add by themselves.
pub proof fn lemma_symbols_added(
    state: DeducedCapsView,
    rules: Seq<RuleView>,
    symbols: Seq<SymbolView>,
    n: nat,
)
    requires
        n <= symbols.len(),
    ensures
        symbols_added(state, rules, symbols, n) is Ok <==> symbols_readable(rules, symbols, n),
        symbols_added(state, rules, symbols, n) matches Ok(after) ==> caps_outcome_of(after)
            == both_caps(caps_outcome_of(state), symbols_caps_outcome(rules, symbols, n)),
    decreases n,
{
    if n == 0 {
        lemma_same_caps_outcome(
            caps_outcome_of(state),
            both_caps(caps_outcome_of(state), no_caps_outcome()),
        );
    } else {
        lemma_symbols_added(state, rules, symbols, (n - 1) as nat);
        if let Ok(before) = symbols_added(state, rules, symbols, (n - 1) as nat) {
            let names = names_in(symbols[n - 1].demangled);
            lemma_names_added(before, rules, symbols[n - 1], names, names.len());
            let after = symbol_added(before, rules, symbols[n - 1]);
            if after.1 is None {
                lemma_same_caps_outcome(
                    both_caps(
                        caps_outcome_of(before),
                        symbol_caps_outcome(rules, symbols[n - 1]),
                    ),
                    both_caps(caps_outcome_of(state), symbols_caps_outcome(rules, symbols, n)),
                );
            }
        }
    }
}

/// The first `n` symbols can be read exactly where each of them can, and
/// what one of them adds is part of what they add together.
proof fn lemma_caps_outcome_holds(rules: Seq<RuleView>, symbols: Seq<SymbolView>, n: nat, i: int)
    requires
        0 <= i < n <= symbols.len(),
    ensures
        symbols_readable(rules, symbols, n) ==> symbol_readable(rules, symbols[i]),
        caps_within(symbol_caps_outcome(rules, symbols[i]), symbols_caps_outcome(rules, symbols, n)),
    decreases n,
{
    if i < n - 1 {
        lemma_caps_outcome_holds(rules, symbols, (n - 1) as nat, i);
    }
}

/// Symbols that all occur in another list can be read where that list can,
/// and what they add is part of what that list adds.
proof fn lemma_caps_outcome_within(
    rules: Seq<RuleView>,
    a: Seq<SymbolView>,
    n: nat,
    b: Seq<SymbolView>,
)
    requires
        n <= a.len(),
        forall|i: int| 0 <= i < n ==> b.contains(#[trigger] a[i]),
    ensures
        symbols_readable(rules, b, b.len()) ==> symbols_readable(rules, a, n),
        caps_within(symbols_caps_outcome(rules, a, n), symbols_caps_outcome(rules, b, b.len())),
    decreases n,
{
    if n > 0 {
        lemma_caps_outcome_within(rules, a, (n - 1) as nat, b);
        assert(b.contains(a[n - 1]));
        let j = choose|j: int| 0 <= j < b.len() && b[j] == a[n - 1];
        lemma_caps_outcome_holds(rules, b, b.len(), j);
    }
}

/// The order of the symbols is immaterial to what is deduced of them: two
/// lists that hold the same symbols, each as often as the other, are read or
/// rejected together, and where they are read they lead from one state to
/// the same capabilities and the same references to crates.
pub proof fn lemma_symbol_order_is_immaterial_to_caps(
    state: DeducedCapsView,
    rules: Seq<RuleView>,
    a: Seq<SymbolView>,
    b: Seq<SymbolView>,
)
    requires
        a.to_multiset() == b.to_multiset(),
    ensures
        symbols_added(state, rules, a, a.len()) is Ok <==> symbols_added(
            state,
            rules,
            b,
            b.len(),
        ) is Ok,
        symbols_added(state, rules, a, a.len()) is Ok ==> caps_outcome_of(
            symbols_added(state, rules, a, a.len())->Ok_0,
        ) == caps_outcome_of(symbols_added(state, rules, b, b.len())->Ok_0),
{
    a.to_multiset_ensures();
    b.to_multiset_ensures();
    assert forall|i: int| 0 <= i < a.len() implies b.contains(#[trigger] a[i]) by {
        assert(a.contains(a[i]));
        assert(a.to_multiset().count(a[i]) > 0);
        assert(b.to_multiset().count(a[i]) > 0);
    }
    assert forall|i: int| 0 <= i < b.len() implies a.contains(#[trigger] b[i]) by {
        assert(b.contains(b[i]));
        assert(b.to_multiset().count(b[i]) > 0);
        assert(a.to_multiset().count(b[i]) > 0);
    }
    lemma_caps_outcome_within(rules, a, a.len(), b);
    lemma_caps_outcome_within(rules, b, b.len(), a);
    lemma_same_caps_outcome(
        symbols_caps_outcome(rules, a, a.len()),
        symbols_caps_outcome(rules, b, b.len()),
    );
    lemma_symbols_added(state, rules, a, a.len());
    lemma_symbols_added(state, rules, b, b.len());
}

impl Default for DeducedCaps {
    fn default() -> (r: Self)
        ensures
            r.wf(),
            r@ == nothing_deduced(),
    {
        DeducedCaps::new()
    }
}

impl Default for DeducedCapablities {
    fn default() -> (r: Self)
        ensures
            r.wf(),
            r@ == nothing_noted(),
            r.rules() == default_table(),
    {
        DeducedCapablities::new()
    }
}

} // verus!
