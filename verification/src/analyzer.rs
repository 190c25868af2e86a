//! How findings are summed up for a reader who ignores some capabilities.

use vstd::prelude::*;
use crate::capability::{absorbed, Capability, CapabilitySet};
use crate::checker::ArtifactKind;
use crate::crate_name::CrateName;
use crate::deduced::{
    crates_caps, total_of, DeducedCapablities, DeducedCapablitiesView, SymbolRefs,
};
use crate::reason::with_key;
use crate::sets::{
    lemma_position_of, names_of, position, refs_wf, value_of, with_slot, NameMap,
};
use crate::symbol::SymbolView;
use crate::text::str_eq;

verus! {

/// The capabilities that are left to report: where the catch-all or
/// `Unknown` is among them, that alone, whatever is ignored; else those that
/// are not ignored.
pub open spec fn reported(capabilities: Set<Capability>, ignored: Set<Capability>) -> Set<
    Capability,
> {
    if capabilities.contains(Capability::Wildcard) || capabilities.contains(Capability::Unknown) {
        absorbed(capabilities)
    } else {
        capabilities.difference(ignored)
    }
}

/// Filters capabilities by removing ignored ones. If the set holds the
/// catch-all or `Unknown`, everything else is removed, ignored or not.
pub fn filter_capabilities(capabilities: &CapabilitySet, ignored_caps: &CapabilitySet) -> (r:
    CapabilitySet)
    ensures
        r@ == reported(capabilities@, ignored_caps@),
{
    if capabilities.contains(Capability::Wildcard) || capabilities.contains(Capability::Unknown) {
        capabilities.absorb()
    } else {
        capabilities.difference(ignored_caps)
    }
}

/// `known` with `caps` added to the capabilities of the crate `name`.
pub open spec fn with_known(
    known: Seq<(Seq<char>, Set<Capability>)>,
    name: Seq<char>,
    caps: Set<Capability>,
) -> Seq<(Seq<char>, Set<Capability>)> {
    let base = with_slot(known, name, Set::empty());
    match position(base, name) {
        Some(i) => base.update(i, (name, base[i].1.union(caps))),
        None => base,
    }
}

/// Takes note that the crate depends on `dependency`, which has the
/// capabilities `caps`.
pub fn note_known_crate(known: &mut NameMap<CapabilitySet>, dependency: &str, caps: &CapabilitySet)
    requires
        old(known).wf(),
    ensures
        final(known).wf(),
        final(known)@ == with_known(old(known)@, dependency@, caps@),
{
    let i = known.slot(dependency, CapabilitySet::new());
    let ghost base = known@;
    proof {
        crate::sets::lemma_slot_position(old(known)@, dependency@, Set::<Capability>::empty());
    }
    known.entries[i].1.extend(caps);
    proof {
        assert(known@ =~= base.update(i as int, (dependency@, base[i as int].1.union(caps@))));
        assert(crate::sets::names_of(known@) =~= crate::sets::names_of(base));
    }
}

/// What is known of a crate once the first `n` of the crates `unknown` that
/// it refers to were looked up in `totals`, the capabilities of the crates
/// that were analysed: a reference to the crate itself is dropped, the
/// capabilities of a crate that was analysed become known, and any other
/// crate stays unknown.
pub open spec fn looked_up(
    known: Seq<(Seq<char>, Set<Capability>)>,
    unknown: Seq<(Seq<char>, Seq<SymbolView>)>,
    crate_name: Seq<char>,
    totals: Seq<(Seq<char>, Set<Capability>)>,
    n: nat,
) -> (Seq<(Seq<char>, Set<Capability>)>, Seq<(Seq<char>, Seq<SymbolView>)>)
    decreases n,
{
    if n == 0 || n > unknown.len() {
        (known, Seq::empty())
    } else {
        let before = looked_up(known, unknown, crate_name, totals, (n - 1) as nat);
        let dependency = unknown[n - 1].0;
        if dependency == crate_name {
            before
        } else {
            match value_of(totals, dependency) {
                Some(caps) => (with_known(before.0, dependency, caps), before.1),
                None => (before.0, before.1.push(unknown[n - 1])),
            }
        }
    }
}

/// Looks up the crates that `deduced` refers to in `totals`, the capabilities
/// of the libraries that were analysed.
pub fn resolve_unknown_crates(
    deduced: &mut DeducedCapablities,
    crate_name: &str,
    totals: &NameMap<CapabilitySet>,
)
    requires
        old(deduced).wf(),
    ensures
        final(deduced).wf(),
        final(deduced).rules() == old(deduced).rules(),
        final(deduced)@.own_caps == old(deduced)@.own_caps,
        final(deduced)@.unknown_symbols == old(deduced)@.unknown_symbols,
        (final(deduced)@.known_crates, final(deduced)@.unknown_crates) == looked_up(
            old(deduced)@.known_crates,
            old(deduced)@.unknown_crates,
            crate_name@,
            totals@,
            old(deduced)@.unknown_crates.len(),
        ),
{
    let ghost refs = deduced.unknown_crates@;
    let ghost known_before = deduced.known_crates@;
    let mut left: SymbolRefs = NameMap::new();
    let mut i: usize = 0;
    while i < deduced.unknown_crates.entries.len()
        invariant
            i <= deduced.unknown_crates.entries.len(),
            deduced.wf(),
            deduced.rules() == old(deduced).rules(),
            deduced@.own_caps == old(deduced)@.own_caps,
            deduced@.unknown_symbols == old(deduced)@.unknown_symbols,
            deduced.unknown_crates@ == refs,
            refs_wf(&left),
            (deduced.known_crates@, left@) == looked_up(
                known_before,
                refs,
                crate_name@,
                totals@,
                i as nat,
            ),
            forall|k: int|
                0 <= k < left@.len() ==> exists|m: int|
                    0 <= m < i && refs[m].0 == (#[trigger] left@[k]).0,
        decreases deduced.unknown_crates.entries.len() - i,
    {
        let ghost kept_before = left@;
        let name = deduced.unknown_crates.entries[i].0.clone();
        assert(refs[i as int].0 == name@);
        if !str_eq(name.as_str(), crate_name) {
            match totals.get(name.as_str()) {
                Some(caps) => {
                    note_known_crate(&mut deduced.known_crates, name.as_str(), caps);
                },
                None => {
                    let ghost held = left;
                    assert(deduced.unknown_crates.entries@[i as int].1.wf());
                    let symbols = deduced.unknown_crates.entries[i].1.duplicate();
                    left.entries.push((name, symbols));
                    proof {
                        assert(left@ =~= held@.push(refs[i as int]));
                        assert(names_of(left@) =~= names_of(held@).push(refs[i as int].0));
                        assert forall|a: int, b: int|
                            0 <= a < names_of(left@).len() && 0 <= b < names_of(left@).len() && a
                                != b implies names_of(left@)[a] != names_of(left@)[b] by {
                            if a < held@.len() && b < held@.len() {
                                assert(names_of(held@)[a] != names_of(held@)[b]);
                            } else {
                                let low = if a < b {
                                    a
                                } else {
                                    b
                                };
                                let m = choose|m: int| 0 <= m < i && refs[m].0 == held@[low].0;
                                assert(names_of(refs)[m] == refs[m].0);
                                assert(names_of(refs)[i as int] == refs[i as int].0);
                            }
                        }
                        assert forall|k: int| 0 <= k < left.entries@.len() implies (
                        #[trigger] left.entries@[k]).1.wf() by {
                            if k < held.entries@.len() {
                                assert(held.entries@[k].1.wf());
                            }
                        }
                    }
                },
            }
        }
        proof {
            assert forall|k: int| 0 <= k < left@.len() implies exists|m: int|
                0 <= m < i + 1 && refs[m].0 == (#[trigger] left@[k]).0 by {
                if k < kept_before.len() {
                    let m = choose|m: int| 0 <= m < i && refs[m].0 == kept_before[k].0;
                    assert(left@[k] == kept_before[k]);
                    assert(0 <= m < i + 1 && refs[m].0 == left@[k].0);
                } else {
                    assert(0 <= i < i + 1 && refs[i as int].0 == left@[k].0);
                }
            }
        }
        i += 1;
    }
    deduced.unknown_crates = left;
}

/// What there is to say of a crate.
#[derive(Clone, Copy, Debug, PartialEq, Eq)]
pub enum Finding {
    /// Nothing is known of this many symbols.
    UnknownSymbols(usize),
    /// The crate itself has no capability, but its dependencies have these.
    BecauseOfDependencies(CapabilitySet),
    /// A rule says that nothing is known of what the crate does.
    UnknownOwn,
    /// Nothing is known of what a dependency does.
    UnknownDependencies,
    /// The crate has these capabilities.
    Caps(CapabilitySet),
    /// The crate has no capability that is not ignored, which is to be shown.
    Nothing,
    /// The crate has no capability that is not ignored, and nothing is to be
    /// shown.
    Skipped,
}

/// What a `Finding` stands for.
pub enum FindingView {
    UnknownSymbols(nat),
    BecauseOfDependencies(Set<Capability>),
    UnknownOwn,
    UnknownDependencies,
    Caps(Set<Capability>),
    Nothing,
    Skipped,
}

impl View for Finding {
    type V = FindingView;

    open spec fn view(&self) -> FindingView {
        match self {
            Finding::UnknownSymbols(n) => FindingView::UnknownSymbols(*n as nat),
            Finding::BecauseOfDependencies(caps) => FindingView::BecauseOfDependencies(caps@),
            Finding::UnknownOwn => FindingView::UnknownOwn,
            Finding::UnknownDependencies => FindingView::UnknownDependencies,
            Finding::Caps(caps) => FindingView::Caps(caps@),
            Finding::Nothing => FindingView::Nothing,
            Finding::Skipped => FindingView::Skipped,
        }
    }
}

/// `Nothing` where it is to be shown, else `Skipped`.
pub open spec fn nothing_found(show_empty: bool) -> FindingView {
    if show_empty {
        FindingView::Nothing
    } else {
        FindingView::Skipped
    }
}

/// What there is to say of a crate of which `state` is known, for a reader
/// who ignores `ignored`.
///
/// Unknown symbols come first. A crate without capabilities of its own is
/// judged by those of its dependencies, and a crate of which a rule says that
/// nothing is known by that. Else the total counts, without what is ignored.
pub open spec fn found(state: DeducedCapablitiesView, ignored: Set<Capability>, show_empty: bool) -> FindingView {
    if state.unknown_symbols.len() > 0 {
        FindingView::UnknownSymbols(state.unknown_symbols.len())
    } else if state.own_caps.dom() == Set::<Capability>::empty() {
        let of_dependencies = reported(crates_caps(state.known_crates), ignored);
        if of_dependencies == Set::<Capability>::empty() {
            nothing_found(show_empty)
        } else {
            FindingView::BecauseOfDependencies(of_dependencies)
        }
    } else if state.own_caps.dom().contains(Capability::Unknown) {
        FindingView::UnknownOwn
    } else {
        let total = reported(total_of(state), ignored);
        if total == Set::<Capability>::empty() {
            nothing_found(show_empty)
        } else if total.contains(Capability::Unknown) || total.contains(Capability::Wildcard) {
            FindingView::UnknownDependencies
        } else {
            FindingView::Caps(total)
        }
    }
}

/// The capabilities of the crates in `known`, taken together.
pub fn known_crates_caps(known: &NameMap<CapabilitySet>) -> (r: CapabilitySet)
    ensures
        r@ == crates_caps(known@),
{
    let mut total = CapabilitySet::new();
    let mut i: usize = 0;
    proof {
        assert(total@ =~= crates_caps(known@.take(0)));
    }
    while i < known.entries.len()
        invariant
            i <= known.entries.len(),
            total@ == crates_caps(known@.take(i as int)),
        decreases known.entries.len() - i,
    {
        total.extend(&known.entries[i].1);
        proof {
            let all = known@;
            let caps = all[i as int].1;
            assert(caps == known.entries@[i as int].1@);
            assert forall|c: Capability|
                crates_caps(all.take(i + 1)).contains(c) == (crates_caps(all.take(i as int)).contains(
                    c,
                ) || caps.contains(c)) by {
                if crates_caps(all.take(i + 1)).contains(c) {
                    let k = choose|k: int|
                        0 <= k < all.take(i + 1).len() && (#[trigger] all.take(i + 1)[k]).1.contains(c);
                    if k < i {
                        assert(all.take(i as int)[k].1.contains(c));
                    }
                }
                if crates_caps(all.take(i as int)).contains(c) {
                    let k = choose|k: int|
                        0 <= k < all.take(i as int).len() && (#[trigger] all.take(
                            i as int,
                        )[k]).1.contains(c);
                    assert(all.take(i + 1)[k].1.contains(c));
                }
                if caps.contains(c) {
                    assert(all.take(i + 1)[i as int].1.contains(c));
                }
            }
            assert(total@ =~= crates_caps(all.take(i + 1)));
        }
        i += 1;
    }
    assert(known@.take(known@.len() as int) =~= known@);
    total
}

/// Says what there is to report of a crate.
pub fn summarize(deduced: &DeducedCapablities, ignored_caps: &CapabilitySet, show_empty: bool) -> (r:
    Finding)
    ensures
        r@ == found(deduced@, ignored_caps@, show_empty),
{
    if !deduced.unknown_symbols.is_empty() {
        Finding::UnknownSymbols(deduced.unknown_symbols.len())
    } else if deduced.own_caps.is_empty() {
        let of_dependencies = filter_capabilities(
            &known_crates_caps(&deduced.known_crates),
            ignored_caps,
        );
        if of_dependencies.is_empty() {
            if show_empty {
                Finding::Nothing
            } else {
                Finding::Skipped
            }
        } else {
            Finding::BecauseOfDependencies(of_dependencies)
        }
    } else if deduced.own_caps.contains_key(Capability::Unknown) {
        Finding::UnknownOwn
    } else {
        let total = filter_capabilities(&deduced.total_capabilities(), ignored_caps);
        if total.is_empty() {
            if show_empty {
                Finding::Nothing
            } else {
                Finding::Skipped
            }
        } else if total.contains(Capability::Unknown) || total.contains(Capability::Wildcard) {
            Finding::UnknownDependencies
        } else {
            Finding::Caps(total)
        }
    }
}

/// Whether an artifact runs at build time, going by the first of its kinds:
/// a build script or a procedural macro.
pub open spec fn built_to_run(kinds: Seq<ArtifactKind>) -> bool {
    kinds.len() > 0 && (kinds[0] == ArtifactKind::CustomBuild || kinds[0]
        == ArtifactKind::ProcMacro)
}

/// `state` once the crates that it refers to were looked up in `totals`.
pub open spec fn resolved(
    state: DeducedCapablitiesView,
    crate_name: Seq<char>,
    totals: Seq<(Seq<char>, Set<Capability>)>,
) -> DeducedCapablitiesView {
    let (known, unknown) = looked_up(
        state.known_crates,
        state.unknown_crates,
        crate_name,
        totals,
        state.unknown_crates.len(),
    );
    DeducedCapablitiesView { known_crates: known, unknown_crates: unknown, ..state }
}

/// `totals` with `total` as the capabilities of the crate `name`.
pub open spec fn with_total(
    totals: Seq<(Seq<char>, Set<Capability>)>,
    name: Seq<char>,
    total: Set<Capability>,
) -> Seq<(Seq<char>, Set<Capability>)> {
    match position(totals, name) {
        Some(i) => totals.update(i, (name, total)),
        None => totals.push((name, total)),
    }
}

/// `state` with a mark for a build script, where the crate has one.
pub open spec fn marked(state: DeducedCapablitiesView, has_build_rs: bool) -> DeducedCapablitiesView {
    if has_build_rs {
        DeducedCapablitiesView { own_caps: with_key(state.own_caps, Capability::BuildRs), ..state }
    } else {
        state
    }
}

/// `state` with the crates set aside that are yet to be resolved. That a
/// crate was not analysed is no reason for alarm: it may have no code of its
/// own.
pub open spec fn settled(state: DeducedCapablitiesView) -> DeducedCapablitiesView {
    DeducedCapablitiesView { unknown_crates: Seq::empty(), ..state }
}

/// Whether `kinds` holds `kind`.
pub fn has_kind(kinds: &Vec<ArtifactKind>, kind: ArtifactKind) -> (r: bool)
    ensures
        r == kinds@.contains(kind),
{
    let mut i: usize = 0;
    while i < kinds.len()
        invariant
            i <= kinds.len(),
            forall|k: int| 0 <= k < i ==> kinds@[k] != kind,
        decreases kinds.len() - i,
    {
        if kinds[i] == kind {
            return true;
        }
        i += 1;
    }
    false
}

/// Sums up the artifacts of a build, one after another: what is known of the
/// libraries that came first is counted in for the crates that depend on
/// them.
#[derive(Debug)]
pub struct CapsAnalyzer {
    /// The total capabilities of the libraries that were analysed, by crate.
    pub lib_totals: NameMap<CapabilitySet>,
    /// The capabilities that the reader does not want to hear of.
    pub ignored_caps: CapabilitySet,
    /// Whether crates without capabilities are shown.
    pub show_empty: bool,
    /// The number of artifacts that were left out.
    pub num_skipped_artifacts: usize,
}

impl CapsAnalyzer {
    /// An analyzer that has seen no artifact.
    pub fn new(ignored_caps: CapabilitySet, show_empty: bool) -> (r: Self)
        ensures
            r.lib_totals.wf(),
            r.lib_totals@ == Seq::<(Seq<char>, Set<Capability>)>::empty(),
            r.ignored_caps == ignored_caps,
            r.show_empty == show_empty,
            r.num_skipped_artifacts == 0,
    {
        CapsAnalyzer {
            lib_totals: NameMap::new(),
            ignored_caps,
            show_empty,
            num_skipped_artifacts: 0,
        }
    }

    /// Takes in one artifact of the crate `crate_name`, of which `deduced`
    /// was deduced, and says what there is to report of it.
    ///
    /// A build script or a procedural macro is skipped: there is little
    /// that it cannot do. Of any other artifact the crates that it refers to
    /// are looked up among the libraries that were analysed; those that are
    /// not found stay unresolved, and count for nothing. Where the artifact
    /// is a library itself, its total is kept for those that depend on it. A
    /// crate with a build script is marked as such afterwards, so that the
    /// mark does not spread to its dependents.
    pub fn add_artifact(
        &mut self,
        crate_name: &CrateName,
        kinds: &Vec<ArtifactKind>,
        deduced: DeducedCapablities,
        has_build_rs: bool,
    ) -> (r: (Finding, DeducedCapablities))
        requires
            old(self).lib_totals.wf(),
            deduced.wf(),
        ensures
            final(self).lib_totals.wf(),
            final(self).ignored_caps == old(self).ignored_caps,
            final(self).show_empty == old(self).show_empty,
            final(self).num_skipped_artifacts == old(self).num_skipped_artifacts,
            r.1.wf(),
            r.1.rules() == deduced.rules(),
            built_to_run(kinds@) ==> {
                &&& r.0@ == FindingView::Skipped
                &&& r.1@ == deduced@
                &&& final(self).lib_totals@ == old(self).lib_totals@
            },
            !built_to_run(kinds@) ==> {
                let known = resolved(deduced@, crate_name@, old(self).lib_totals@);
                &&& r.1@ == marked(known, has_build_rs)
                &&& r.0@ == found(settled(r.1@), old(self).ignored_caps@, old(self).show_empty)
                &&& final(self).lib_totals@ == if kinds@.contains(ArtifactKind::Lib) {
                    with_total(old(self).lib_totals@, crate_name@, total_of(settled(known)))
                } else {
                    old(self).lib_totals@
                }
            },
    {
        if kinds.len() > 0 && kinds[0].runs_at_build_time() {
            return (Finding::Skipped, deduced);
        }
        let mut deduced = deduced;
        resolve_unknown_crates(&mut deduced, crate_name.as_str(), &self.lib_totals);
        let mut unresolved: SymbolRefs = NameMap::new();
        std::mem::swap(&mut deduced.unknown_crates, &mut unresolved);
        if has_kind(kinds, ArtifactKind::Lib) {
            let total = deduced.total_capabilities();
            let ghost before = self.lib_totals@;
            let i = self.lib_totals.slot(crate_name.as_str(), CapabilitySet::new());
            let ghost base = self.lib_totals@;
            self.lib_totals.entries[i].1 = total;
            proof {
                lemma_position_of(before, crate_name@, before.len());
                assert(self.lib_totals@ =~= base.update(i as int, (crate_name@, total@)));
                assert(self.lib_totals@ =~= with_total(before, crate_name@, total@));
                assert(names_of(self.lib_totals@) =~= names_of(base));
            }
        }
        if has_build_rs {
            deduced.own_caps.touch(Capability::BuildRs);
        }
        let finding = summarize(&deduced, &self.ignored_caps, self.show_empty);
        std::mem::swap(&mut deduced.unknown_crates, &mut unresolved);
        (finding, deduced)
    }
}

} // verus!
