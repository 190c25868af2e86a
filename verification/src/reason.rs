//! Why a crate is held to have a capability.

use vstd::prelude::*;
use crate::capability::{lemma_rank, Capability, CapabilitySet, CAPABILITY_COUNT};
use crate::crate_name::CrateName;
use crate::rust_path::RustPath;
use crate::sets::{inserted, Item, UniqueVec};
use crate::symbol::{Symbol, SymbolView};

verus! {

/// Why do we have this capability?
#[derive(Debug, PartialEq, Eq, PartialOrd, Ord)]
pub enum Reason {
    /// This path matches a rule.
    PathMatchedRule(RustPath),
    /// This symbol matches a rule.
    SymbolMatchedRule(Symbol),
    /// We did not succeed in understanding the source code.
    SourceParseError(String),
    /// We could not match this symbol to any rule.
    UnmatchedSymbol(Symbol),
    /// A path into `alloc`, `core` or `std` that matched no rule.
    UmatchedStandardPath(RustPath),
    /// Because of analysing the source code.
    SourceCodeAnalysis,
    /// We depend on this crate, which has that capability.
    Crate(CrateName),
}

/// What a `Reason` stands for.
pub enum ReasonView {
    PathMatchedRule(Seq<char>),
    SymbolMatchedRule(SymbolView),
    SourceParseError(Seq<char>),
    UnmatchedSymbol(SymbolView),
    UmatchedStandardPath(Seq<char>),
    SourceCodeAnalysis,
    Crate(Seq<char>),
}

impl View for Reason {
    type V = ReasonView;

    open spec fn view(&self) -> ReasonView {
        match self {
            Reason::PathMatchedRule(path) => ReasonView::PathMatchedRule(path@),
            Reason::SymbolMatchedRule(symbol) => ReasonView::SymbolMatchedRule(symbol@),
            Reason::SourceParseError(error) => ReasonView::SourceParseError(error@),
            Reason::UnmatchedSymbol(symbol) => ReasonView::UnmatchedSymbol(symbol@),
            Reason::UmatchedStandardPath(path) => ReasonView::UmatchedStandardPath(path@),
            Reason::SourceCodeAnalysis => ReasonView::SourceCodeAnalysis,
            Reason::Crate(name) => ReasonView::Crate(name@),
        }
    }
}

impl Clone for Reason {
    fn clone(&self) -> (r: Self)
        ensures
            r@ == self@,
    {
        match self {
            Reason::PathMatchedRule(path) => Reason::PathMatchedRule(path.clone()),
            Reason::SymbolMatchedRule(symbol) => Reason::SymbolMatchedRule(symbol.clone()),
            Reason::SourceParseError(error) => Reason::SourceParseError(error.clone()),
            Reason::UnmatchedSymbol(symbol) => Reason::UnmatchedSymbol(symbol.clone()),
            Reason::UmatchedStandardPath(path) => Reason::UmatchedStandardPath(path.clone()),
            Reason::SourceCodeAnalysis => Reason::SourceCodeAnalysis,
            Reason::Crate(name) => Reason::Crate(name.clone()),
        }
    }
}

impl Item for Reason {
    fn same(&self, other: &Self) -> (r: bool) {
        match (self, other) {
            (Reason::PathMatchedRule(a), Reason::PathMatchedRule(b)) => a.same(b),
            (Reason::SymbolMatchedRule(a), Reason::SymbolMatchedRule(b)) => a.same(b),
            (Reason::SourceParseError(a), Reason::SourceParseError(b)) => *a == *b,
            (Reason::UnmatchedSymbol(a), Reason::UnmatchedSymbol(b)) => a.same(b),
            (Reason::UmatchedStandardPath(a), Reason::UmatchedStandardPath(b)) => a.same(b),
            (Reason::SourceCodeAnalysis, Reason::SourceCodeAnalysis) => true,
            (Reason::Crate(a), Reason::Crate(b)) => a.same(b),
            _ => false,
        }
    }

    fn duplicate(&self) -> (r: Self) {
        self.clone()
    }
}

impl Reason {
    /// The reason as text.
    pub fn to_string(&self) -> (r: String)
        ensures
            r@ == reason_text(self@),
    {
        match self {
            Reason::PathMatchedRule(path) => path.to_string(),
            Reason::UmatchedStandardPath(path) => path.to_string(),
            Reason::SourceParseError(error) => error.clone(),
            Reason::SymbolMatchedRule(symbol) => symbol.demangled.clone(),
            Reason::UnmatchedSymbol(symbol) => symbol.demangled.clone(),
            Reason::SourceCodeAnalysis => "source code".to_owned(),
            Reason::Crate(name) => name.to_string(),
        }
    }
}

/// The text for a reason.
pub open spec fn reason_text(reason: ReasonView) -> Seq<char> {
    match reason {
        ReasonView::PathMatchedRule(path) => path,
        ReasonView::UmatchedStandardPath(path) => path,
        ReasonView::SourceParseError(error) => error,
        ReasonView::SymbolMatchedRule(symbol) => symbol.demangled,
        ReasonView::UnmatchedSymbol(symbol) => symbol.demangled,
        ReasonView::SourceCodeAnalysis => "source code"@,
        ReasonView::Crate(name) => name,
    }
}

/// The reasons for one capability.
pub type Reasons = UniqueVec<Reason>;

/// The reasons that `caps` gives for `cap`; none where it lacks `cap`.
pub open spec fn reasons_at(caps: Map<Capability, Seq<ReasonView>>, cap: Capability) -> Seq<
    ReasonView,
> {
    if caps.contains_key(cap) {
        caps[cap]
    } else {
        Seq::empty()
    }
}

/// `caps` with `reason` added to the reasons for `cap`.
pub open spec fn with_reason(
    caps: Map<Capability, Seq<ReasonView>>,
    cap: Capability,
    reason: ReasonView,
) -> Map<Capability, Seq<ReasonView>> {
    caps.insert(cap, inserted(reasons_at(caps, cap), reason))
}

/// `caps` with `reason` added to the reasons for each of `set`.
pub open spec fn with_reason_for_each(
    caps: Map<Capability, Seq<ReasonView>>,
    set: Set<Capability>,
    reason: ReasonView,
) -> Map<Capability, Seq<ReasonView>> {
    Map::new(
        |c: Capability| caps.contains_key(c) || set.contains(c),
        |c: Capability|
            if set.contains(c) {
                inserted(reasons_at(caps, c), reason)
            } else {
                caps[c]
            },
    )
}

/// `caps` with an entry for `cap`, which has no reasons where it is new.
pub open spec fn with_key(caps: Map<Capability, Seq<ReasonView>>, cap: Capability) -> Map<
    Capability,
    Seq<ReasonView>,
> {
    caps.insert(cap, reasons_at(caps, cap))
}

/// The capabilities of a crate, each with the reasons for it.
#[derive(Debug, PartialEq, Eq)]
pub struct CapsMap {
    /// The capabilities that have an entry.
    pub keys: CapabilitySet,
    /// The reasons for each capability, by its place in the enumeration.
    pub reasons: Vec<Reasons>,
}

impl View for CapsMap {
    type V = Map<Capability, Seq<ReasonView>>;

    open spec fn view(&self) -> Map<Capability, Seq<ReasonView>> {
        Map::new(|c: Capability| self.keys@.contains(c), |c: Capability| self.reasons@[c.rank()]@)
    }
}

impl CapsMap {
    /// There is a list of reasons for each capability, none holds a reason
    /// twice, and a capability without an entry has no reasons.
    pub open spec fn wf(&self) -> bool {
        &&& self.reasons@.len() == CAPABILITY_COUNT
        &&& forall|i: int| 0 <= i < CAPABILITY_COUNT ==> (#[trigger] self.reasons@[i]).wf()
        &&& forall|i: int|
            0 <= i < CAPABILITY_COUNT && !self.keys@.contains(Capability::at_rank(i))
                ==> (#[trigger] self.reasons@[i])@.len() == 0
    }

    /// The empty map.
    pub fn new() -> (r: Self)
        ensures
            r.wf(),
            r@ == Map::<Capability, Seq<ReasonView>>::empty(),
    {
        let mut reasons: Vec<Reasons> = Vec::new();
        let mut i: usize = 0;
        while i < CAPABILITY_COUNT
            invariant
                i <= CAPABILITY_COUNT,
                reasons@.len() == i,
                forall|k: int| 0 <= k < i ==> (#[trigger] reasons@[k]).wf(),
                forall|k: int| 0 <= k < i ==> (#[trigger] reasons@[k])@.len() == 0,
            decreases CAPABILITY_COUNT - i,
        {
            reasons.push(UniqueVec::new());
            i += 1;
        }
        let r = CapsMap { keys: CapabilitySet::new(), reasons };
        assert(r@ =~= Map::<Capability, Seq<ReasonView>>::empty());
        r
    }

    /// The capabilities that have an entry.
    pub fn keys(&self) -> (r: CapabilitySet)
        ensures
            r@ == self@.dom(),
    {
        assert(self.keys@ =~= self@.dom());
        self.keys
    }

    /// Whether `cap` has an entry.
    pub fn contains_key(&self, cap: Capability) -> (r: bool)
        ensures
            r == self@.contains_key(cap),
    {
        self.keys.contains(cap)
    }

    /// Whether no capability has an entry.
    pub fn is_empty(&self) -> (r: bool)
        ensures
            r == (self@.dom() == Set::<Capability>::empty()),
    {
        assert(self.keys@ =~= self@.dom());
        self.keys.is_empty()
    }

    /// The reasons for `cap`, if it has an entry.
    pub fn get(&self, cap: Capability) -> (r: Option<&Reasons>)
        requires
            self.wf(),
        ensures
            match r {
                Some(reasons) => self@.contains_key(cap) && reasons@ == self@[cap] && reasons.wf(),
                None => !self@.contains_key(cap),
            },
    {
        if self.keys.contains(cap) {
            Some(&self.reasons[cap.index()])
        } else {
            None
        }
    }

    /// Gives `cap` an entry unless it has one.
    pub fn touch(&mut self, cap: Capability)
        requires
            old(self).wf(),
        ensures
            final(self).wf(),
            final(self)@ == with_key(old(self)@, cap),
    {
        self.keys.insert(cap);
        proof {
            lemma_rank(cap);
            assert forall|i: int|
                0 <= i < CAPABILITY_COUNT && !self.keys@.contains(
                    Capability::at_rank(i),
                ) implies (#[trigger] self.reasons@[i])@.len() == 0 by {
                assert(!old(self).keys@.contains(Capability::at_rank(i)));
            }
            if !old(self)@.contains_key(cap) {
                assert(old(self).reasons@[cap.rank()]@.len() == 0);
                assert(old(self).reasons@[cap.rank()]@ =~= Seq::<ReasonView>::empty());
            }
            assert forall|c: Capability| #[trigger]
                final(self)@.contains_key(c) implies final(self)@[c] == with_key(
                old(self)@,
                cap,
            )[c] by {
                lemma_rank(c);
            }
            assert(final(self)@ =~= with_key(old(self)@, cap));
        }
    }

    /// Adds `reason` to the reasons for `cap`.
    pub fn add(&mut self, cap: Capability, reason: Reason)
        requires
            old(self).wf(),
        ensures
            final(self).wf(),
            final(self)@ == with_reason(old(self)@, cap, reason@),
    {
        let i = cap.index();
        self.keys.insert(cap);
        self.reasons[i].insert(reason);
        proof {
            lemma_rank(cap);
            assert forall|k: int|
                0 <= k < CAPABILITY_COUNT && !self.keys@.contains(
                    Capability::at_rank(k),
                ) implies (#[trigger] self.reasons@[k])@.len() == 0 by {
                assert(!old(self).keys@.contains(Capability::at_rank(k)));
                assert(k != i);
            }
            assert forall|c: Capability| #[trigger]
                final(self)@.contains_key(c) implies final(self)@[c] == with_reason(
                old(self)@,
                cap,
                reason@,
            )[c] by {
                lemma_rank(c);
                if c != cap {
                    assert(c.rank() != i);
                }
            }
            assert(final(self)@ =~= with_reason(old(self)@, cap, reason@));
        }
    }

    /// Adds `reason` to the reasons for each member of `set`.
    pub fn add_for_each(&mut self, set: &CapabilitySet, reason: &Reason)
        requires
            old(self).wf(),
        ensures
            final(self).wf(),
            final(self)@ == with_reason_for_each(old(self)@, set@, reason@),
    {
        let mut i: usize = 0;
        while i < CAPABILITY_COUNT
            invariant
                i <= CAPABILITY_COUNT,
                self.wf(),
                forall|r: int|
                    0 <= r < CAPABILITY_COUNT ==> self@.contains_key(
                        #[trigger] Capability::at_rank(r),
                    ) == (old(self)@.contains_key(Capability::at_rank(r)) || (r < i
                        && set@.contains(Capability::at_rank(r)))),
                forall|r: int|
                    0 <= r < CAPABILITY_COUNT ==> (#[trigger] self.reasons@[r])@ == if r < i
                        && set@.contains(Capability::at_rank(r)) {
                        inserted(old(self).reasons@[r]@, reason@)
                    } else {
                        old(self).reasons@[r]@
                    },
            decreases CAPABILITY_COUNT - i,
        {
            let cap = Capability::from_index(i);
            let ghost before = *self;
            if set.contains(cap) {
                self.add(cap, reason.clone());
            }
            proof {
                assert forall|r: int| 0 <= r < CAPABILITY_COUNT implies self@.contains_key(
                    #[trigger] Capability::at_rank(r),
                ) == (old(self)@.contains_key(Capability::at_rank(r)) || (r < i + 1
                    && set@.contains(Capability::at_rank(r)))) by {
                    let c = Capability::at_rank(r);
                    assert(before@.contains_key(c) == (old(self)@.contains_key(c) || (r < i
                        && set@.contains(c))));
                    if r == i {
                        assert(c == cap);
                    } else {
                        assert(c != cap);
                    }
                }
                assert forall|r: int| 0 <= r < CAPABILITY_COUNT implies (
                #[trigger] self.reasons@[r])@ == if r < i + 1 && set@.contains(
                    Capability::at_rank(r),
                ) {
                    inserted(old(self).reasons@[r]@, reason@)
                } else {
                    old(self).reasons@[r]@
                } by {
                    let c = Capability::at_rank(r);
                    assert(before.reasons@[r]@ == if r < i && set@.contains(c) {
                        inserted(old(self).reasons@[r]@, reason@)
                    } else {
                        old(self).reasons@[r]@
                    });
                    if set@.contains(cap) {
                        if r == i {
                            assert(c == cap);
                            assert(self@[cap] == inserted(reasons_at(before@, cap), reason@));
                            if !before@.contains_key(cap) {
                                assert(before.reasons@[r]@.len() == 0);
                                assert(before.reasons@[r]@ =~= Seq::<ReasonView>::empty());
                            }
                        } else {
                            assert(c != cap);
                            if self@.contains_key(c) {
                                assert(self@[c] == before@[c]);
                            } else {
                                assert(self.reasons@[r]@.len() == 0);
                                assert(before.reasons@[r]@.len() == 0);
                                assert(self.reasons@[r]@ =~= before.reasons@[r]@);
                            }
                        }
                    }
                }
            }
            i += 1;
        }
        proof {
            let want = with_reason_for_each(old(self)@, set@, reason@);
            assert forall|c: Capability| final(self)@.contains_key(c) == want.contains_key(c) by {
                lemma_rank(c);
                assert(final(self)@.contains_key(Capability::at_rank(c.rank())) == (old(
                    self,
                )@.contains_key(Capability::at_rank(c.rank())) || (c.rank() < CAPABILITY_COUNT
                    && set@.contains(Capability::at_rank(c.rank())))));
            }
            assert forall|c: Capability| #[trigger]
                final(self)@.contains_key(c) implies final(self)@[c] == want[c] by {
                lemma_rank(c);
                let r = c.rank();
                assert(final(self).reasons@[r]@ == if r < CAPABILITY_COUNT && set@.contains(
                    Capability::at_rank(r),
                ) {
                    inserted(old(self).reasons@[r]@, reason@)
                } else {
                    old(self).reasons@[r]@
                });
                if set@.contains(c) && !old(self)@.contains_key(c) {
                    assert(old(self).reasons@[r]@.len() == 0);
                    assert(old(self).reasons@[r]@ =~= Seq::<ReasonView>::empty());
                }
            }
            assert(final(self)@ =~= want);
        }
    }

    /// Drops the entries of the capabilities that are not critical.
    pub fn retain_critical(&mut self)
        requires
            old(self).wf(),
        ensures
            final(self).wf(),
            final(self)@ == old(self)@.restrict(Set::new(|c: Capability| c.critical())),
    {
        let mut i: usize = 0;
        while i < CAPABILITY_COUNT
            invariant
                i <= CAPABILITY_COUNT,
                self.wf(),
                forall|r: int|
                    0 <= r < CAPABILITY_COUNT ==> self@.contains_key(
                        #[trigger] Capability::at_rank(r),
                    ) == (old(self)@.contains_key(Capability::at_rank(r)) && !(r < i
                        && !Capability::at_rank(r).critical())),
                forall|r: int|
                    0 <= r < CAPABILITY_COUNT && self@.contains_key(Capability::at_rank(r)) ==> (
                    #[trigger] self.reasons@[r])@ == old(self).reasons@[r]@,
            decreases CAPABILITY_COUNT - i,
        {
            let cap = Capability::from_index(i);
            let ghost before = *self;
            if !cap.is_critical() {
                self.keys.remove(cap);
                self.reasons[i] = UniqueVec::new();
            }
            proof {
                assert forall|r: int| 0 <= r < CAPABILITY_COUNT implies self@.contains_key(
                    #[trigger] Capability::at_rank(r),
                ) == (old(self)@.contains_key(Capability::at_rank(r)) && !(r < i + 1
                    && !Capability::at_rank(r).critical())) by {
                    let c = Capability::at_rank(r);
                    assert(before@.contains_key(c) == (old(self)@.contains_key(c) && !(r < i
                        && !c.critical())));
                    if r == i {
                        assert(c == cap);
                    } else {
                        assert(c != cap);
                    }
                }
                assert forall|r: int|
                    0 <= r < CAPABILITY_COUNT && self@.contains_key(
                        Capability::at_rank(r),
                    ) implies (#[trigger] self.reasons@[r])@ == old(self).reasons@[r]@ by {
                    let c = Capability::at_rank(r);
                    assert(before@.contains_key(c));
                    assert(before.reasons@[r]@ == old(self).reasons@[r]@);
                    if r == i {
                        assert(c == cap);
                    }
                }
                assert forall|r: int| 0 <= r < CAPABILITY_COUNT implies (
                #[trigger] self.reasons@[r]).wf() by {
                    assert(before.reasons@[r].wf());
                }
                assert forall|r: int|
                    0 <= r < CAPABILITY_COUNT && !self.keys@.contains(
                        Capability::at_rank(r),
                    ) implies (#[trigger] self.reasons@[r])@.len() == 0 by {
                    let c = Capability::at_rank(r);
                    if r == i {
                    } else {
                        assert(c != cap);
                        assert(!before.keys@.contains(c));
                        assert(before.reasons@[r]@.len() == 0);
                    }
                }
            }
            i += 1;
        }
        proof {
            let want = old(self)@.restrict(Set::new(|c: Capability| c.critical()));
            assert forall|c: Capability| final(self)@.contains_key(c) == want.contains_key(c) by {
                lemma_rank(c);
                assert(final(self)@.contains_key(Capability::at_rank(c.rank())) == (old(
                    self,
                )@.contains_key(Capability::at_rank(c.rank())) && !(c.rank() < CAPABILITY_COUNT
                    && !Capability::at_rank(c.rank()).critical())));
            }
            assert forall|c: Capability| #[trigger]
                final(self)@.contains_key(c) implies final(self)@[c] == want[c] by {
                lemma_rank(c);
                assert(final(self)@.contains_key(Capability::at_rank(c.rank())));
            }
            assert(final(self)@ =~= want);
        }
    }

    /// A copy of the map.
    pub fn duplicate(&self) -> (r: Self)
        requires
            self.wf(),
        ensures
            r.wf(),
            r@ == self@,
    {
        let mut reasons: Vec<Reasons> = Vec::new();
        let mut i: usize = 0;
        while i < CAPABILITY_COUNT
            invariant
                i <= CAPABILITY_COUNT,
                self.wf(),
                reasons@.len() == i,
                forall|k: int| 0 <= k < i ==> (#[trigger] reasons@[k])@ == self.reasons@[k]@,
            decreases CAPABILITY_COUNT - i,
        {
            reasons.push(self.reasons[i].duplicate());
            i += 1;
        }
        let r = CapsMap { keys: self.keys, reasons };
        proof {
            assert forall|k: int| 0 <= k < CAPABILITY_COUNT implies (#[trigger] r.reasons@[k]).wf() by {
                assert(self.reasons@[k].wf());
            }
            assert forall|k: int|
                0 <= k < CAPABILITY_COUNT && !r.keys@.contains(
                    Capability::at_rank(k),
                ) implies (#[trigger] r.reasons@[k])@.len() == 0 by {
                assert(self.reasons@[k]@.len() == 0);
            }
            assert forall|c: Capability| #[trigger] r@.contains_key(c) implies r@[c] == self@[c] by {
                lemma_rank(c);
            }
            assert(r@ =~= self@);
        }
        r
    }
}

} // verus!
