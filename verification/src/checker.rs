//! The capabilities of a crate once those of its dependencies are counted in.

use vstd::prelude::*;
use crate::cap_rule::{RuleView, Rules};
use crate::capability::{Capability, CapabilitySet};
use crate::crate_name::{CrateName, CrateNameError};
use crate::deduced::{
    deduced_view, nothing_deduced, paths_added, symbols_added, CrateRefs, DeducedCaps,
    DeducedCapsView,
};
use crate::reason::{with_reason, with_reason_for_each, Reason, ReasonView};
use crate::rust_path::RustPath;
use crate::rust_type::path_views;
use crate::sets::{refs_wf, NameMap};
use crate::symbol::{filter_symbols, filtered, symbol_views, Symbol, SymbolView};
use crate::text::str_eq;

verus! {

/// What kind of artifact a target is built into.
#[derive(Clone, Copy, Debug, PartialEq, Eq, Hash, PartialOrd, Ord, Structural)]
pub enum ArtifactKind {
    /// A library.
    Lib,
    /// An executable.
    Bin,
    /// A build script.
    CustomBuild,
    /// A procedural macro.
    ProcMacro,
    /// Anything else: an example, a test, a benchmark.
    Other,
}

impl ArtifactKind {
    /// The name of the kind.
    pub fn as_str(&self) -> (r: &'static str)
        ensures
            r@ == match *self {
                ArtifactKind::Lib => "lib"@,
                ArtifactKind::Bin => "bin"@,
                ArtifactKind::CustomBuild => "custom-build"@,
                ArtifactKind::ProcMacro => "proc-macro"@,
                ArtifactKind::Other => "other"@,
            },
    {
        match self {
            ArtifactKind::Lib => "lib",
            ArtifactKind::Bin => "bin",
            ArtifactKind::CustomBuild => "custom-build",
            ArtifactKind::ProcMacro => "proc-macro",
            ArtifactKind::Other => "other",
        }
    }

    /// Whether the artifact runs at build time: a build script or a
    /// procedural macro. Its symbols say little, so its source is read.
    pub fn runs_at_build_time(&self) -> (r: bool)
        ensures
            r == (*self == ArtifactKind::CustomBuild || *self == ArtifactKind::ProcMacro),
    {
        match self {
            ArtifactKind::CustomBuild | ArtifactKind::ProcMacro => true,
            _ => false,
        }
    }
}

/// What was deduced of one artifact of one crate.
#[derive(Debug, PartialEq, Eq)]
pub struct StoredCaps {
    pub crate_name: CrateName,
    pub kind: ArtifactKind,
    pub caps: DeducedCaps,
}

/// What a `StoredCaps` stands for.
pub struct StoredCapsView {
    pub crate_name: Seq<char>,
    pub kind: ArtifactKind,
    pub caps: DeducedCapsView,
}

impl View for StoredCaps {
    type V = StoredCapsView;

    open spec fn view(&self) -> StoredCapsView {
        StoredCapsView { crate_name: self.crate_name@, kind: self.kind, caps: self.caps@ }
    }
}

/// What the checker has found so far.
#[derive(Debug, PartialEq, Eq)]
pub struct CheckerOutput {
    /// What was deduced of each artifact that was analysed.
    pub crate_caps: Vec<StoredCaps>,
    /// The number of artifacts of which there was nothing to report.
    pub num_artifacts_passed: usize,
}

impl View for CheckerOutput {
    type V = Seq<StoredCapsView>;

    open spec fn view(&self) -> Seq<StoredCapsView> {
        self.crate_caps@.map_values(|s: StoredCaps| s@)
    }
}

/// Index of the entry of `store[..n]` for the artifact `kind` of `name`.
pub open spec fn stored_at(store: Seq<StoredCapsView>, name: Seq<char>, kind: ArtifactKind, n: nat) -> Option<
    int,
>
    decreases n,
{
    if n == 0 || n > store.len() {
        None
    } else {
        match stored_at(store, name, kind, (n - 1) as nat) {
            Some(i) => Some(i),
            None => if store[n - 1].crate_name == name && store[n - 1].kind == kind {
                Some(n - 1)
            } else {
                None
            },
        }
    }
}

/// What is stored for the artifact `kind` of `name`.
pub open spec fn stored(store: Seq<StoredCapsView>, name: Seq<char>, kind: ArtifactKind) -> Option<
    DeducedCapsView,
> {
    match stored_at(store, name, kind, store.len()) {
        Some(i) => Some(store[i].caps),
        None => None,
    }
}

/// The capabilities of the library of `name`, where it was analysed.
pub open spec fn library_caps(store: Seq<StoredCapsView>, name: Seq<char>) -> Option<
    Set<Capability>,
> {
    match stored(store, name, ArtifactKind::Lib) {
        Some(caps) => Some(caps.caps.dom()),
        None => None,
    }
}

/// `stored_at` finds the first entry for the artifact, if there is one.
pub proof fn lemma_stored_at(store: Seq<StoredCapsView>, name: Seq<char>, kind: ArtifactKind, n: nat)
    requires
        n <= store.len(),
    ensures
        match stored_at(store, name, kind, n) {
            Some(i) => 0 <= i < n && store[i].crate_name == name && store[i].kind == kind,
            None => forall|j: int|
                0 <= j < n ==> !((#[trigger] store[j]).crate_name == name && store[j].kind == kind),
        },
    decreases n,
{
    if n > 0 {
        lemma_stored_at(store, name, kind, (n - 1) as nat);
    }
}

/// Once an entry was found among the first `n`, it is found among any more.
pub proof fn lemma_stored_rest(
    store: Seq<StoredCapsView>,
    name: Seq<char>,
    kind: ArtifactKind,
    n: nat,
    m: nat,
)
    requires
        n <= m <= store.len(),
        stored_at(store, name, kind, n) is Some,
    ensures
        stored_at(store, name, kind, m) == stored_at(store, name, kind, n),
    decreases m - n,
{
    if n < m {
        lemma_stored_rest(store, name, kind, n, (m - 1) as nat);
    }
}

impl CheckerOutput {
    /// Everything that is stored is well-formed.
    pub open spec fn wf(&self) -> bool {
        forall|i: int| 0 <= i < self.crate_caps@.len() ==> (#[trigger] self.crate_caps@[i]).caps.wf()
    }

    /// Nothing found yet.
    pub fn new() -> (r: Self)
        ensures
            r.wf(),
            r@ == Seq::<StoredCapsView>::empty(),
            r.num_artifacts_passed == 0,
    {
        let r = CheckerOutput { crate_caps: Vec::new(), num_artifacts_passed: 0 };
        assert(r@ =~= Seq::<StoredCapsView>::empty());
        r
    }

    /// Index of the entry for the artifact `kind` of `crate_name`.
    pub fn position(&self, crate_name: &str, kind: ArtifactKind) -> (r: Option<usize>)
        ensures
            match r {
                Some(i) => stored_at(self@, crate_name@, kind, self@.len()) == Some(i as int) && i
                    < self@.len(),
                None => stored_at(self@, crate_name@, kind, self@.len()) is None,
            },
    {
        let mut i: usize = 0;
        while i < self.crate_caps.len()
            invariant
                i <= self.crate_caps.len(),
                stored_at(self@, crate_name@, kind, i as nat) is None,
            decreases self.crate_caps.len() - i,
        {
            let entry = &self.crate_caps[i];
            assert(self@[i as int] == entry@);
            if entry.kind == kind && str_eq(entry.crate_name.as_str(), crate_name) {
                proof {
                    lemma_stored_rest(self@, crate_name@, kind, (i + 1) as nat, self@.len());
                }
                return Some(i);
            }
            i += 1;
        }
        None
    }

    /// What is stored for the artifact `kind` of `crate_name`.
    pub fn get(&self, crate_name: &str, kind: ArtifactKind) -> (r: Option<&DeducedCaps>)
        requires
            self.wf(),
        ensures
            match r {
                Some(caps) => stored(self@, crate_name@, kind) == Some(caps@) && caps.wf(),
                None => stored(self@, crate_name@, kind) is None,
            },
    {
        match self.position(crate_name, kind) {
            Some(i) => {
                assert(self@[i as int] == self.crate_caps@[i as int]@);
                Some(&self.crate_caps[i].caps)
            },
            None => None,
        }
    }

    /// Stores `caps` for the artifact `kind` of `crate_name`, in place of
    /// what was stored for it.
    pub fn insert(&mut self, crate_name: &CrateName, kind: ArtifactKind, caps: DeducedCaps)
        requires
            old(self).wf(),
            caps.wf(),
        ensures
            final(self).wf(),
            final(self).num_artifacts_passed == old(self).num_artifacts_passed,
            final(self)@ == with_stored(old(self)@, crate_name@, kind, caps@),
    {
        let entry = StoredCaps { crate_name: crate_name.clone(), kind, caps };
        match self.position(crate_name.as_str(), kind) {
            Some(i) => {
                let ghost before = self.crate_caps@;
                self.crate_caps[i] = entry;
                proof {
                    assert(self@ =~= old(self)@.update(i as int, entry@));
                    assert forall|k: int| 0 <= k < self.crate_caps@.len() implies (
                    #[trigger] self.crate_caps@[k]).caps.wf() by {
                        if k != i {
                            assert(before[k].caps.wf());
                        }
                    }
                }
            },
            None => {
                let ghost before = self.crate_caps@;
                self.crate_caps.push(entry);
                proof {
                    assert(self@ =~= old(self)@.push(entry@));
                    assert forall|k: int| 0 <= k < self.crate_caps@.len() implies (
                    #[trigger] self.crate_caps@[k]).caps.wf() by {
                        if k < before.len() {
                            assert(before[k].caps.wf());
                        }
                    }
                }
            },
        }
    }
}

/// `store` with `caps` for the artifact `kind` of `name`, in place of what
/// was stored for it.
pub open spec fn with_stored(
    store: Seq<StoredCapsView>,
    name: Seq<char>,
    kind: ArtifactKind,
    caps: DeducedCapsView,
) -> Seq<StoredCapsView> {
    let entry = StoredCapsView { crate_name: name, kind, caps };
    match stored_at(store, name, kind, store.len()) {
        Some(i) => store.update(i, entry),
        None => store.push(entry),
    }
}

/// `caps` with each of `inherited` added, for the reason that the crate
/// depends on `dependency`.
pub open spec fn inherited_from(
    caps: Map<Capability, Seq<ReasonView>>,
    inherited: Set<Capability>,
    dependency: Seq<char>,
) -> Map<Capability, Seq<ReasonView>> {
    with_reason_for_each(caps, inherited, ReasonView::Crate(dependency))
}

/// What is deduced of the crate `crate_name` once the first `n` of the crates
/// `refs` that it refers to were looked up: a reference to itself is dropped,
/// the capabilities of a library that was analysed are inherited, and a crate
/// of which no library was analysed stays unresolved.
pub open spec fn resolved(
    caps: Map<Capability, Seq<ReasonView>>,
    refs: Seq<(Seq<char>, Seq<Seq<char>>)>,
    crate_name: Seq<char>,
    store: Seq<StoredCapsView>,
    n: nat,
) -> DeducedCapsView
    decreases n,
{
    if n == 0 || n > refs.len() {
        DeducedCapsView { caps, unresolved_crates: Seq::empty() }
    } else {
        let before = resolved(caps, refs, crate_name, store, (n - 1) as nat);
        let dependency = refs[n - 1].0;
        if dependency == crate_name {
            before
        } else {
            match library_caps(store, dependency) {
                Some(inherited) => DeducedCapsView {
                    caps: inherited_from(before.caps, inherited, dependency),
                    ..before
                },
                None => DeducedCapsView {
                    unresolved_crates: before.unresolved_crates.push(refs[n - 1]),
                    ..before
                },
            }
        }
    }
}

/// What is deduced once the first `n` of the dependencies `declared` were
/// looked up too: the capabilities of each library that was analysed are
/// inherited.
pub open spec fn with_declared(
    caps: Map<Capability, Seq<ReasonView>>,
    declared: Seq<Seq<char>>,
    store: Seq<StoredCapsView>,
    n: nat,
) -> Map<Capability, Seq<ReasonView>>
    decreases n,
{
    if n == 0 || n > declared.len() {
        caps
    } else {
        let before = with_declared(caps, declared, store, (n - 1) as nat);
        match library_caps(store, declared[n - 1]) {
            Some(inherited) => inherited_from(before, inherited, declared[n - 1]),
            None => before,
        }
    }
}

/// The capabilities that count: where one is critical, the others add
/// nothing and are dropped.
pub open spec fn critical_first(caps: Map<Capability, Seq<ReasonView>>) -> Map<
    Capability,
    Seq<ReasonView>,
> {
    if exists|c: Capability| caps.dom().contains(c) && c.critical() {
        caps.restrict(Set::new(|c: Capability| c.critical()))
    } else {
        caps
    }
}

/// What holds of the crate `crate_name` in the end, given what its own
/// artifact told (`own`), what is stored of other crates, and the
/// dependencies that are declared but not normal.
pub open spec fn propagated(
    own: DeducedCapsView,
    crate_name: Seq<char>,
    store: Seq<StoredCapsView>,
    declared: Seq<Seq<char>>,
) -> DeducedCapsView {
    let after = resolved(own.caps, own.unresolved_crates, crate_name, store, own.unresolved_crates.len());
    DeducedCapsView {
        caps: critical_first(with_declared(after.caps, declared, store, declared.len())),
        ..after
    }
}

/// The texts of a list of crate names.
pub open spec fn crate_name_views(names: Seq<CrateName>) -> Seq<Seq<char>> {
    names.map_values(|n: CrateName| n@)
}

/// What an artifact that could not be understood is held to have: unknown
/// capabilities, for the reason `message`.
pub open spec fn not_understood(message: Seq<char>) -> DeducedCapsView {
    DeducedCapsView {
        caps: with_reason(Map::empty(), Capability::Unknown, ReasonView::SourceParseError(message)),
        unresolved_crates: Seq::empty(),
    }
}

/// What an artifact that could not be understood is held to have.
pub fn unknown_because(message: &str) -> (r: DeducedCaps)
    ensures
        r.wf(),
        r@ == not_understood(message@),
{
    let mut deduced = DeducedCaps::new();
    deduced.caps.add(Capability::Unknown, Reason::SourceParseError(message.to_owned()));
    deduced
}

/// What the source of a build-time artifact tells: the paths that were found
/// in it, or why it could not be read.
pub open spec fn scanned_caps(rules: Seq<RuleView>, scanned: Result<Seq<Seq<char>>, Seq<char>>) -> Result<
    DeducedCapsView,
    CrateNameError,
> {
    match scanned {
        Ok(paths) => paths_added(nothing_deduced(), rules, paths, paths.len()),
        Err(message) => Ok(not_understood(message)),
    }
}

/// What the symbols of an artifact tell: those that are local to a
/// compilation unit or no code do not count.
pub open spec fn binary_caps(rules: Seq<RuleView>, symbols: Seq<SymbolView>) -> Result<
    DeducedCapsView,
    CrateNameError,
> {
    let kept = filtered(symbols, false, false, symbols.len());
    symbols_added(nothing_deduced(), rules, kept, kept.len())
}

/// The view of the result of a source scan.
pub open spec fn scan_view(scanned: Result<Vec<RustPath>, String>) -> Result<Seq<Seq<char>>, Seq<char>> {
    match scanned {
        Ok(paths) => Ok(path_views(paths@)),
        Err(message) => Err(message@),
    }
}

/// What the source of a build-time artifact tells. A source that could not
/// be read is never taken to be harmless: its capabilities are unknown.
pub fn deduce_caps_of_source(rules: &Rules, scanned: Result<Vec<RustPath>, String>) -> (r: Result<
    DeducedCaps,
    CrateNameError,
>)
    ensures
        deduced_view(r) == scanned_caps(rules@, scan_view(scanned)),
        r matches Ok(d) ==> d.wf(),
{
    match scanned {
        Ok(paths) => DeducedCaps::from_paths(rules, paths),
        Err(message) => Ok(unknown_because(message.as_str())),
    }
}

/// What the symbols of an artifact tell.
pub fn deduce_caps_of_binary(rules: &Rules, symbols: Vec<Symbol>) -> (r: Result<
    DeducedCaps,
    CrateNameError,
>)
    ensures
        deduced_view(r) == binary_caps(rules@, symbol_views(symbols@)),
        r matches Ok(d) ==> d.wf(),
{
    let kept = filter_symbols(symbols, false, false);
    DeducedCaps::from_symbols(rules, kept)
}

/// Counts in the capabilities of the dependencies: of the crates that the
/// artifact refers to and of the dependencies that are declared but not
/// normal. Where the result holds a critical capability, the others are
/// dropped.
pub fn deduce_caps(
    output: &CheckerOutput,
    crate_name: &CrateName,
    own: DeducedCaps,
    declared: &Vec<CrateName>,
) -> (r: DeducedCaps)
    requires
        output.wf(),
        own.wf(),
    ensures
        r.wf(),
        r@ == propagated(own@, crate_name@, output@, crate_name_views(declared@)),
{
    let ghost refs = own@.unresolved_crates;
    let ghost names = crate_name_views(declared@);
    let mut caps = own.caps;
    let mut unresolved: CrateRefs = NameMap::new();
    let mut i: usize = 0;
    proof {
        assert(refs =~= own.unresolved_crates@);
    }
    while i < own.unresolved_crates.entries.len()
        invariant
            i <= own.unresolved_crates.entries.len(),
            output.wf(),
            refs == own.unresolved_crates@,
            refs_wf(&own.unresolved_crates),
            caps.wf(),
            refs_wf(&unresolved),
            (DeducedCapsView { caps: caps@, unresolved_crates: unresolved@ }) == resolved(
                own@.caps,
                refs,
                crate_name@,
                output@,
                i as nat,
            ),
            forall|k: int|
                0 <= k < unresolved@.len() ==> exists|m: int|
                    0 <= m < i && refs[m].0 == (#[trigger] unresolved@[k]).0,
        decreases own.unresolved_crates.entries.len() - i,
    {
        let entry = &own.unresolved_crates.entries[i];
        assert(refs[i as int] == (entry.0@, entry.1@));
        let ghost kept_before = unresolved@;
        if !str_eq(entry.0.as_str(), crate_name.as_str()) {
            match output.position(entry.0.as_str(), ArtifactKind::Lib) {
                Some(at) => {
                    let library = &output.crate_caps[at];
                    proof {
                        lemma_stored_at(output@, entry.0@, ArtifactKind::Lib, output@.len());
                        assert(output@[at as int] == library@);
                    }
                    let inherited = library.caps.caps.keys();
                    let reason = Reason::Crate(library.crate_name.clone());
                    caps.add_for_each(&inherited, &reason);
                },
                None => {
                    assert(entry.1.wf());
                    let ghost held = unresolved;
                    let paths = entry.1.duplicate();
                    unresolved.entries.push((entry.0.clone(), paths));
                    proof {
                        assert(unresolved@ =~= held@.push(refs[i as int]));
                        assert(crate::sets::names_of(unresolved@) =~= crate::sets::names_of(
                            held@,
                        ).push(refs[i as int].0));
                        assert forall|a: int, b: int|
                            0 <= a < crate::sets::names_of(unresolved@).len() && 0 <= b
                                < crate::sets::names_of(unresolved@).len() && a
                                != b implies crate::sets::names_of(unresolved@)[a]
                            != crate::sets::names_of(unresolved@)[b] by {
                            let names_now = crate::sets::names_of(unresolved@);
                            let names_before = crate::sets::names_of(held@);
                            if a < held@.len() && b < held@.len() {
                                assert(names_before[a] != names_before[b]);
                            } else {
                                let low = if a < b {
                                    a
                                } else {
                                    b
                                };
                                let m = choose|m: int| 0 <= m < i && refs[m].0 == held@[low].0;
                                assert(crate::sets::names_of(refs)[m] == refs[m].0);
                                assert(crate::sets::names_of(refs)[i as int] == refs[i as int].0);
                            }
                        }
                        assert forall|k: int| 0 <= k < unresolved.entries@.len() implies (
                        #[trigger] unresolved.entries@[k]).1.wf() by {
                            if k < held.entries@.len() {
                                assert(held.entries@[k].1.wf());
                            }
                        }
                    }
                },
            }
        }
        proof {
            assert forall|k: int| 0 <= k < unresolved@.len() implies exists|m: int|
                0 <= m < i + 1 && refs[m].0 == (#[trigger] unresolved@[k]).0 by {
                if k < kept_before.len() {
                    let m = choose|m: int| 0 <= m < i && refs[m].0 == kept_before[k].0;
                    assert(unresolved@[k] == kept_before[k]);
                    assert(0 <= m < i + 1 && refs[m].0 == unresolved@[k].0);
                } else {
                    assert(0 <= i < i + 1 && refs[i as int].0 == unresolved@[k].0);
                }
            }
        }
        i += 1;
    }
    let ghost after = caps@;
    let mut j: usize = 0;
    while j < declared.len()
        invariant
            j <= declared.len(),
            output.wf(),
            caps.wf(),
            names == crate_name_views(declared@),
            caps@ == with_declared(after, names, output@, j as nat),
        decreases declared.len() - j,
    {
        assert(names[j as int] == declared@[j as int]@);
        match output.get(declared[j].as_str(), ArtifactKind::Lib) {
            Some(library) => {
                let inherited = library.caps.keys();
                let reason = Reason::Crate(declared[j].clone());
                caps.add_for_each(&inherited, &reason);
            },
            None => {},
        }
        j += 1;
    }
    if caps.keys().has_critical() {
        caps.retain_critical();
    }
    DeducedCaps { caps, unresolved_crates: unresolved }
}

/// The capabilities that a crate has without being allowed them: none where
/// it is allowed the catch-all, else those that `allowed` lacks.
pub open spec fn not_allowed(actual: Set<Capability>, allowed: Set<Capability>) -> Set<Capability> {
    if allowed.contains(Capability::Wildcard) {
        Set::empty()
    } else {
        actual.difference(allowed)
    }
}

/// Filters the capabilities by removing the allowed ones.
pub fn filter_capabilities(actual_caps: &DeducedCaps, allowed_caps: &CapabilitySet) -> (r:
    CapabilitySet)
    ensures
        r@ == not_allowed(actual_caps@.caps.dom(), allowed_caps@),
{
    if allowed_caps.contains(Capability::Wildcard) {
        CapabilitySet::new()
    } else {
        actual_caps.caps.keys().difference(allowed_caps)
    }
}

/// What there is to say of an artifact.
#[derive(Clone, Copy, Debug, PartialEq, Eq)]
pub enum Verdict {
    /// The artifact has these critical capabilities.
    Critical(CapabilitySet),
    /// The artifact has these capabilities without being allowed them.
    Caps(CapabilitySet),
    /// The artifact has no capability that it is not allowed, which is to be
    /// shown.
    Nothing,
    /// The artifact has no capability that it is not allowed, and nothing is
    /// to be shown.
    Passed,
}

/// What a `Verdict` stands for.
pub enum VerdictView {
    Critical(Set<Capability>),
    Caps(Set<Capability>),
    Nothing,
    Passed,
}

impl View for Verdict {
    type V = VerdictView;

    open spec fn view(&self) -> VerdictView {
        match self {
            Verdict::Critical(caps) => VerdictView::Critical(caps@),
            Verdict::Caps(caps) => VerdictView::Caps(caps@),
            Verdict::Nothing => VerdictView::Nothing,
            Verdict::Passed => VerdictView::Passed,
        }
    }
}

/// The critical members of a set.
pub open spec fn criticals(caps: Set<Capability>) -> Set<Capability> {
    caps.filter(|c: Capability| c.critical())
}

/// What there is to say of an artifact with the capabilities `actual` in a
/// crate that is allowed `allowed`: its critical capabilities where it has
/// any, else those that it is not allowed.
pub open spec fn judged(actual: Set<Capability>, allowed: Set<Capability>, show_empty: bool) -> VerdictView {
    if exists|c: Capability| actual.contains(c) && c.critical() {
        VerdictView::Critical(criticals(actual))
    } else if not_allowed(actual, allowed) == Set::<Capability>::empty() {
        if show_empty {
            VerdictView::Nothing
        } else {
            VerdictView::Passed
        }
    } else {
        VerdictView::Caps(not_allowed(actual, allowed))
    }
}

/// The critical members of a set.
pub fn critical_members(caps: &CapabilitySet) -> (r: CapabilitySet)
    ensures
        r@ == criticals(caps@),
{
    let mut out = CapabilitySet::new();
    if caps.contains(Capability::BuildRs) {
        out.insert(Capability::BuildRs);
    }
    if caps.contains(Capability::Unsafe) {
        out.insert(Capability::Unsafe);
    }
    if caps.contains(Capability::Command) {
        out.insert(Capability::Command);
    }
    if caps.contains(Capability::Unknown) {
        out.insert(Capability::Unknown);
    }
    if caps.contains(Capability::Wildcard) {
        out.insert(Capability::Wildcard);
    }
    assert(out@ =~= criticals(caps@));
    out
}

/// What there is to say of an artifact.
pub fn judge(deduced: &DeducedCaps, allowed: &CapabilitySet, show_empty: bool) -> (r: Verdict)
    ensures
        r@ == judged(deduced@.caps.dom(), allowed@, show_empty),
{
    let keys = deduced.caps.keys();
    if keys.has_critical() {
        Verdict::Critical(critical_members(&keys))
    } else {
        let filtered = filter_capabilities(deduced, allowed);
        if filtered.is_empty() {
            if show_empty {
                Verdict::Nothing
            } else {
                Verdict::Passed
            }
        } else {
            Verdict::Caps(filtered)
        }
    }
}

/// What the checker goes by.
#[derive(Debug, PartialEq, Eq)]
pub struct Checker {
    /// Rules for matching symbols to capabilities
    pub rules: Rules,
    /// What crates are allowed what capabilities
    pub config: crate::config::WorkspaceConfig,
    /// Whether artifacts without findings are shown
    pub show_empty: bool,
}

/// `store` with `caps` for each of the first `n` of the artifact kinds
/// `kinds` of `name`.
pub open spec fn with_all_stored(
    store: Seq<StoredCapsView>,
    name: Seq<char>,
    kinds: Seq<ArtifactKind>,
    caps: DeducedCapsView,
    n: nat,
) -> Seq<StoredCapsView>
    decreases n,
{
    if n == 0 || n > kinds.len() {
        store
    } else {
        with_stored(with_all_stored(store, name, kinds, caps, (n - 1) as nat), name, kinds[n - 1], caps)
    }
}

/// The capabilities that are shown for a crate: those that hold of it, and
/// `BuildRs` where it has a build script. Running code at build time is
/// critical, so beside it only the critical capabilities are shown. A build
/// script is not contagious: it is no part of what is stored for the crate's
/// dependents.
pub open spec fn shown(caps: DeducedCapsView, has_build_rs: bool) -> DeducedCapsView {
    if has_build_rs {
        DeducedCapsView {
            caps: critical_first(crate::reason::with_key(caps.caps, Capability::BuildRs)),
            ..caps
        }
    } else {
        caps
    }
}

impl Checker {
    /// Takes in one artifact of the crate `crate_name`.
    ///
    /// What the artifact told (`own`) is completed by the capabilities of the
    /// crate's dependencies and stored under each of `kinds`. The verdict
    /// says what is to be reported, and comes with the capabilities that it
    /// is about. An artifact that passed is counted.
    pub fn add_artifact(
        &self,
        output: &mut CheckerOutput,
        crate_name: &CrateName,
        kinds: &Vec<ArtifactKind>,
        own: DeducedCaps,
        declared: &Vec<CrateName>,
        has_build_rs: bool,
    ) -> (r: (Verdict, DeducedCaps))
        requires
            old(output).wf(),
            own.wf(),
            old(output).num_artifacts_passed < usize::MAX,
        ensures
            final(output).wf(),
            r.1.wf(),
            r.1@ == shown(
                propagated(own@, crate_name@, old(output)@, crate_name_views(declared@)),
                has_build_rs,
            ),
            final(output)@ == with_all_stored(
                old(output)@,
                crate_name@,
                kinds@,
                propagated(own@, crate_name@, old(output)@, crate_name_views(declared@)),
                kinds@.len(),
            ),
            r.0@ == judged(
                r.1@.caps.dom(),
                crate::config::granted(self.config@, crate_name@),
                self.show_empty,
            ),
            final(output).num_artifacts_passed == if r.0@ is Passed {
                old(output).num_artifacts_passed + 1
            } else {
                old(output).num_artifacts_passed as int
            },
    {
        let mut deduced = deduce_caps(output, crate_name, own, declared);
        let ghost settled = deduced@;
        let mut i: usize = 0;
        while i < kinds.len()
            invariant
                i <= kinds.len(),
                output.wf(),
                deduced.wf(),
                deduced@ == settled,
                output.num_artifacts_passed == old(output).num_artifacts_passed,
                output@ == with_all_stored(old(output)@, crate_name@, kinds@, settled, i as nat),
            decreases kinds.len() - i,
        {
            output.insert(crate_name, kinds[i], deduced.duplicate());
            i += 1;
        }
        if has_build_rs {
            deduced.caps.touch(Capability::BuildRs);
            assert(deduced.caps@.dom().contains(Capability::BuildRs)
                && Capability::BuildRs.critical());
            deduced.caps.retain_critical();
        }
        let allowed = self.config.crate_caps(crate_name);
        let verdict = judge(&deduced, &allowed, self.show_empty);
        match verdict {
            Verdict::Passed => {
                output.num_artifacts_passed = output.num_artifacts_passed + 1;
            },
            _ => {},
        }
        (verdict, deduced)
    }
}

impl Default for CheckerOutput {
    fn default() -> (r: Self)
        ensures
            r.wf(),
            r@ == Seq::<StoredCapsView>::empty(),
            r.num_artifacts_passed == 0,
    {
        CheckerOutput::new()
    }
}

} // verus!
