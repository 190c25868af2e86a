//! How a crate is used by the crates that depend on it.

use vstd::prelude::*;

verus! {

/// How is the main target depending on a crate?
#[derive(Clone, Copy, Debug, PartialEq, Eq, Hash, PartialOrd, Ord, Structural)]
pub enum DepKind {
    Unknown,
    Normal,
    Build,
    Dev,
    ProcMacro,
}

/// How a crate is used; the same as `DepKind`.
pub type CrateKind = DepKind;

/// The number of kinds.
pub const DEP_KIND_COUNT: usize = 5;

impl DepKind {
    /// The place of the kind in the order of the enumeration.
    pub open spec fn rank(self) -> int {
        match self {
            DepKind::Unknown => 0,
            DepKind::Normal => 1,
            DepKind::Build => 2,
            DepKind::Dev => 3,
            DepKind::ProcMacro => 4,
        }
    }

    /// The kind at a place in the order.
    pub open spec fn at_rank(rank: int) -> DepKind {
        if rank == 0 {
            DepKind::Unknown
        } else if rank == 1 {
            DepKind::Normal
        } else if rank == 2 {
            DepKind::Build
        } else if rank == 3 {
            DepKind::Dev
        } else {
            DepKind::ProcMacro
        }
    }

    /// The kind at a place in the order.
    pub fn from_index(index: usize) -> (r: DepKind)
        requires
            index < DEP_KIND_COUNT,
        ensures
            r == DepKind::at_rank(index as int),
            r.rank() == index,
    {
        if index == 0 {
            DepKind::Unknown
        } else if index == 1 {
            DepKind::Normal
        } else if index == 2 {
            DepKind::Build
        } else if index == 3 {
            DepKind::Dev
        } else {
            DepKind::ProcMacro
        }
    }

    /// The words for the kind.
    pub fn as_str(&self) -> (r: &'static str)
        ensures
            r@ == match *self {
                DepKind::Unknown => "⚠️ unknown dependency type"@,
                DepKind::Normal => "normal dependency"@,
                DepKind::Build => "build-dependency"@,
                DepKind::Dev => "dev-dependency"@,
                DepKind::ProcMacro => "proc-macro"@,
            },
    {
        match self {
            DepKind::Unknown => "⚠️ unknown dependency type",
            DepKind::Normal => "normal dependency",
            DepKind::Build => "build-dependency",
            DepKind::Dev => "dev-dependency",
            DepKind::ProcMacro => "proc-macro",
        }
    }
}

/// How a dependency is used, given the kind of one edge to it and one kind of
/// the dependent.
///
/// `Unknown` is the most viral. Then all dependencies of a build dependency
/// are build dependencies, and all dependencies on or of a proc-macro are
/// proc-macros. A normal dependency inherits the kind of the dependent, and
/// a dev dependency of anything else is a dev dependency.
pub open spec fn combined(edge: DepKind, dependent: DepKind) -> DepKind {
    if edge == DepKind::Unknown || dependent == DepKind::Unknown {
        DepKind::Unknown
    } else if edge == DepKind::Build || dependent == DepKind::Build {
        DepKind::Build
    } else if edge == DepKind::ProcMacro || dependent == DepKind::ProcMacro {
        DepKind::ProcMacro
    } else if edge == DepKind::Normal {
        dependent
    } else {
        DepKind::Dev
    }
}

/// How a dependency is used, given the kind of one edge to it and one kind of
/// the dependent.
pub fn combine(edge: DepKind, dependent: DepKind) -> (r: DepKind)
    ensures
        r == combined(edge, dependent),
{
    match (edge, dependent) {
        (_, DepKind::Unknown) | (DepKind::Unknown, _) => DepKind::Unknown,
        (_, DepKind::Build) | (DepKind::Build, _) => DepKind::Build,
        (_, DepKind::ProcMacro) | (DepKind::ProcMacro, _) => DepKind::ProcMacro,
        (DepKind::Normal, kind) => kind,
        (DepKind::Dev, _) => DepKind::Dev,
    }
}

/// Whether an edge of the kinds `edge` gives the kind `kind` to a dependency
/// of a crate of the kinds `dependent`: it is what one kind of the edge and
/// one kind of the dependent combine to.
#[verifier::opaque]
pub open spec fn gives(edge: DepKindSet, dependent: DepKindSet, kind: DepKind) -> bool {
    exists|e: DepKind, d: DepKind|
        edge.has(e) && dependent.has(d) && kind == #[trigger] combined(e, d)
}

/// What an edge gives, it gives from one kind of the dependent.
pub proof fn lemma_gives_from_one(edge: DepKindSet, dependent: DepKindSet, kind: DepKind)
    ensures
        gives(edge, dependent, kind) <==> exists|d: DepKind|
            dependent.has(d) && #[trigger] gives(edge, DepKindSet::of_kind(d), kind),
{
    reveal(gives);
    if gives(edge, dependent, kind) {
        let (e, d) = choose|e: DepKind, d: DepKind|
            edge.has(e) && dependent.has(d) && kind == #[trigger] combined(e, d);
        assert(edge.has(e) && DepKindSet::of_kind(d).has(d) && kind == combined(e, d));
        assert(dependent.has(d) && gives(edge, DepKindSet::of_kind(d), kind));
    }
    if exists|d: DepKind| dependent.has(d) && #[trigger] gives(edge, DepKindSet::of_kind(d), kind) {
        let d = choose|d: DepKind|
            dependent.has(d) && #[trigger] gives(edge, DepKindSet::of_kind(d), kind);
        let (e, d2) = choose|e: DepKind, d2: DepKind|
            edge.has(e) && DepKindSet::of_kind(d).has(d2) && kind == #[trigger] combined(e, d2);
        assert(d2 == d);
        assert(edge.has(e) && dependent.has(d) && kind == combined(e, d));
    }
}

/// All the ways in which a crate is used.
#[derive(Clone, Copy, Debug, PartialEq, Eq, Structural)]
pub struct DepKindSet {
    pub unknown: bool,
    pub normal: bool,
    pub build: bool,
    pub dev: bool,
    pub proc_macro: bool,
}

/// All the ways in which a crate is used; the same as `DepKindSet`.
pub type CrateInfo = DepKindSet;

impl View for DepKindSet {
    type V = Set<DepKind>;

    open spec fn view(&self) -> Set<DepKind> {
        Set::new(|k: DepKind| self.has(k))
    }
}

impl DepKindSet {
    /// Whether the set holds `kind`.
    pub open spec fn has(&self, kind: DepKind) -> bool {
        match kind {
            DepKind::Unknown => self.unknown,
            DepKind::Normal => self.normal,
            DepKind::Build => self.build,
            DepKind::Dev => self.dev,
            DepKind::ProcMacro => self.proc_macro,
        }
    }

    /// The number of kinds in the set.
    pub open spec fn count(&self) -> int {
        (if self.unknown {
            1int
        } else {
            0
        }) + (if self.normal {
            1int
        } else {
            0
        }) + (if self.build {
            1int
        } else {
            0
        }) + (if self.dev {
            1int
        } else {
            0
        }) + (if self.proc_macro {
            1int
        } else {
            0
        })
    }

    /// Every kind of `self` is one of `other`.
    pub open spec fn subset_of(&self, other: &DepKindSet) -> bool {
        forall|k: DepKind| #[trigger] self.has(k) ==> other.has(k)
    }

    /// The set holds no kind.
    pub open spec fn none_set(&self) -> bool {
        !self.unknown && !self.normal && !self.build && !self.dev && !self.proc_macro
    }

    /// The kinds of a dependency, given the kinds of the edge to it and the
    /// kinds of the dependent: each kind of the one combined with each kind
    /// of the other.
    pub open spec fn combined_with(&self, dependent: &DepKindSet) -> Set<DepKind> {
        Set::new(|k: DepKind| gives(*self, *dependent, k))
    }

    /// The set without kinds.
    pub open spec fn none() -> DepKindSet {
        DepKindSet { unknown: false, normal: false, build: false, dev: false, proc_macro: false }
    }

    /// The set of one kind.
    pub open spec fn of_kind(kind: DepKind) -> DepKindSet {
        DepKindSet {
            unknown: kind == DepKind::Unknown,
            normal: kind == DepKind::Normal,
            build: kind == DepKind::Build,
            dev: kind == DepKind::Dev,
            proc_macro: kind == DepKind::ProcMacro,
        }
    }

    /// The empty set.
    pub fn new() -> (r: Self)
        ensures
            r == DepKindSet::none(),
            r@ == Set::<DepKind>::empty(),
            r.count() == 0,
    {
        let r = DepKindSet {
            unknown: false,
            normal: false,
            build: false,
            dev: false,
            proc_macro: false,
        };
        assert(r@ =~= Set::<DepKind>::empty());
        r
    }

    /// The set of one kind.
    pub fn of(kind: DepKind) -> (r: Self)
        ensures
            r == DepKindSet::of_kind(kind),
            r@ == set![kind],
    {
        let r = DepKindSet {
            unknown: kind == DepKind::Unknown,
            normal: kind == DepKind::Normal,
            build: kind == DepKind::Build,
            dev: kind == DepKind::Dev,
            proc_macro: kind == DepKind::ProcMacro,
        };
        assert(r@ =~= set![kind]);
        r
    }

    /// The set of the given kinds.
    pub fn from_slice(kinds: &[DepKind]) -> (r: Self)
        ensures
            forall|k: DepKind| r.has(k) == kinds@.contains(k),
    {
        let mut r = DepKindSet::new();
        let mut i: usize = 0;
        while i < kinds.len()
            invariant
                i <= kinds.len(),
                forall|k: DepKind| r.has(k) == kinds@.take(i as int).contains(k),
            decreases kinds.len() - i,
        {
            let ghost before = r;
            r.insert(kinds[i]);
            proof {
                let upto = kinds@.take(i + 1);
                assert forall|k: DepKind| r.has(k) == upto.contains(k) by {
                    if before.has(k) {
                        let j = choose|j: int|
                            0 <= j < kinds@.take(i as int).len() && kinds@.take(i as int)[j] == k;
                        assert(upto[j] == k);
                    }
                    if k == kinds@[i as int] {
                        assert(upto[i as int] == k);
                    }
                    if upto.contains(k) {
                        let j = choose|j: int| 0 <= j < upto.len() && upto[j] == k;
                        if j < i {
                            assert(kinds@.take(i as int)[j] == k);
                        }
                    }
                }
            }
            i += 1;
        }
        assert(kinds@.take(kinds@.len() as int) =~= kinds@);
        r
    }

    /// Whether the set holds `kind`.
    pub fn contains(&self, kind: DepKind) -> (r: bool)
        ensures
            r == self.has(kind),
    {
        match kind {
            DepKind::Unknown => self.unknown,
            DepKind::Normal => self.normal,
            DepKind::Build => self.build,
            DepKind::Dev => self.dev,
            DepKind::ProcMacro => self.proc_macro,
        }
    }

    /// Adds `kind`.
    pub fn insert(&mut self, kind: DepKind)
        ensures
            forall|k: DepKind| final(self).has(k) == (k == kind || old(self).has(k)),
            final(self)@ == old(self)@.insert(kind),
    {
        match kind {
            DepKind::Unknown => {
                self.unknown = true;
            },
            DepKind::Normal => {
                self.normal = true;
            },
            DepKind::Build => {
                self.build = true;
            },
            DepKind::Dev => {
                self.dev = true;
            },
            DepKind::ProcMacro => {
                self.proc_macro = true;
            },
        }
        assert(final(self)@ =~= old(self)@.insert(kind));
    }

    /// Whether the set holds nothing.
    pub fn is_empty(&self) -> (r: bool)
        ensures
            r == self.none_set(),
            r == (self.count() == 0),
            r == forall|k: DepKind| !self.has(k),
    {
        let r = !(self.unknown || self.normal || self.build || self.dev || self.proc_macro);
        proof {
            if !r {
                if self.unknown {
                    assert(self.has(DepKind::Unknown));
                } else if self.normal {
                    assert(self.has(DepKind::Normal));
                } else if self.build {
                    assert(self.has(DepKind::Build));
                } else if self.dev {
                    assert(self.has(DepKind::Dev));
                } else {
                    assert(self.has(DepKind::ProcMacro));
                }
            }
        }
        r
    }

    /// The kinds of both sets.
    pub fn union(&self, other: &DepKindSet) -> (r: DepKindSet)
        ensures
            forall|k: DepKind| r.has(k) == (self.has(k) || other.has(k)),
    {
        DepKindSet {
            unknown: self.unknown || other.unknown,
            normal: self.normal || other.normal,
            build: self.build || other.build,
            dev: self.dev || other.dev,
            proc_macro: self.proc_macro || other.proc_macro,
        }
    }

    /// Whether every kind of this set is one of `other`.
    pub fn is_subset(&self, other: &DepKindSet) -> (r: bool)
        ensures
            r == self.subset_of(other),
    {
        let r = (!self.unknown || other.unknown) && (!self.normal || other.normal) && (!self.build
            || other.build) && (!self.dev || other.dev) && (!self.proc_macro || other.proc_macro);
        proof {
            if !r {
                if self.unknown && !other.unknown {
                    assert(self.has(DepKind::Unknown) && !other.has(DepKind::Unknown));
                } else if self.normal && !other.normal {
                    assert(self.has(DepKind::Normal) && !other.has(DepKind::Normal));
                } else if self.build && !other.build {
                    assert(self.has(DepKind::Build) && !other.has(DepKind::Build));
                } else if self.dev && !other.dev {
                    assert(self.has(DepKind::Dev) && !other.has(DepKind::Dev));
                } else {
                    assert(self.has(DepKind::ProcMacro) && !other.has(DepKind::ProcMacro));
                }
            }
        }
        r
    }

    /// The kinds in the order of the enumeration.
    pub fn to_vec(&self) -> (r: Vec<DepKind>)
        ensures
            forall|k: DepKind| r@.contains(k) == self.has(k),
            forall|i: int, j: int| 0 <= i < j < r@.len() ==> r@[i].rank() < r@[j].rank(),
    {
        let mut out: Vec<DepKind> = Vec::new();
        let mut i: usize = 0;
        while i < DEP_KIND_COUNT
            invariant
                i <= DEP_KIND_COUNT,
                forall|r: int|
                    0 <= r < DEP_KIND_COUNT ==> out@.contains(#[trigger] DepKind::at_rank(r)) == (r
                        < i && self.has(DepKind::at_rank(r))),
                forall|a: int, b: int| 0 <= a < b < out@.len() ==> out@[a].rank() < out@[b].rank(),
                forall|a: int| 0 <= a < out@.len() ==> (#[trigger] out@[a]).rank() < i,
            decreases DEP_KIND_COUNT - i,
        {
            let kind = DepKind::from_index(i);
            let ghost before = out@;
            if self.contains(kind) {
                out.push(kind);
            }
            proof {
                assert forall|r: int| 0 <= r < DEP_KIND_COUNT implies out@.contains(
                    #[trigger] DepKind::at_rank(r),
                ) == (r < i + 1 && self.has(DepKind::at_rank(r))) by {
                    let k = DepKind::at_rank(r);
                    assert(before.contains(k) == (r < i && self.has(k)));
                    if before.contains(k) {
                        let j = choose|j: int| 0 <= j < before.len() && before[j] == k;
                        assert(out@[j] == k);
                    }
                    if out@.contains(k) && !before.contains(k) {
                        let j = choose|j: int| 0 <= j < out@.len() && out@[j] == k;
                        if j < before.len() {
                            assert(before[j] == k);
                        }
                    }
                    if r == i && self.has(kind) {
                        assert(out@[before.len() as int] == k);
                    }
                }
            }
            i += 1;
        }
        proof {
            assert forall|k: DepKind| out@.contains(k) == self.has(k) by {
                lemma_kind_rank(k);
                assert(out@.contains(DepKind::at_rank(k.rank())) == (k.rank() < DEP_KIND_COUNT
                    && self.has(DepKind::at_rank(k.rank()))));
            }
        }
        out
    }
}

/// Each kind has its own place in the order.
pub proof fn lemma_kind_rank(k: DepKind)
    ensures
        0 <= k.rank() < DEP_KIND_COUNT,
        DepKind::at_rank(k.rank()) == k,
{
}

/// What an edge gives to the dependencies of a crate, kind by kind.
///
/// `Unknown` comes with any `Unknown`. `Build` comes with any `Build` that
/// meets no `Unknown`, and `ProcMacro` with any `ProcMacro` that meets neither.
/// Of the rest, a normal edge hands on `Normal` and `Dev`, and a dev edge
/// gives `Dev`.
pub open spec fn given(edge: DepKindSet, dependent: DepKindSet) -> DepKindSet {
    DepKindSet {
        unknown: (edge.unknown && !dependent.none_set()) || (dependent.unknown && !edge.none_set()),
        build: (edge.build && (dependent.normal || dependent.build || dependent.dev
            || dependent.proc_macro)) || (dependent.build && (edge.normal || edge.build || edge.dev
            || edge.proc_macro)),
        proc_macro: (edge.proc_macro && (dependent.normal || dependent.dev || dependent.proc_macro))
            || (dependent.proc_macro && (edge.normal || edge.dev || edge.proc_macro)),
        normal: edge.normal && dependent.normal,
        dev: (edge.normal && dependent.dev) || (edge.dev && (dependent.normal || dependent.dev)),
    }
}

/// `given` holds exactly the kinds that the edge gives.
pub proof fn lemma_given(edge: DepKindSet, dependent: DepKindSet, kind: DepKind)
    ensures
        given(edge, dependent).has(kind) == gives(edge, dependent, kind),
{
    reveal(gives);
    if gives(edge, dependent, kind) {
        let (e, d) = choose|e: DepKind, d: DepKind|
            edge.has(e) && dependent.has(d) && kind == #[trigger] combined(e, d);
        assert(given(edge, dependent).has(combined(e, d)));
    }
    if given(edge, dependent).has(kind) {
        let u = DepKind::Unknown;
        let n = DepKind::Normal;
        let b = DepKind::Build;
        let v = DepKind::Dev;
        let p = DepKind::ProcMacro;
        let any_edge = if edge.unknown {
            u
        } else if edge.normal {
            n
        } else if edge.build {
            b
        } else if edge.dev {
            v
        } else {
            p
        };
        let any_dependent = if dependent.unknown {
            u
        } else if dependent.normal {
            n
        } else if dependent.build {
            b
        } else if dependent.dev {
            v
        } else {
            p
        };
        let known_edge = if edge.normal {
            n
        } else if edge.build {
            b
        } else if edge.dev {
            v
        } else {
            p
        };
        let known_dependent = if dependent.normal {
            n
        } else if dependent.build {
            b
        } else if dependent.dev {
            v
        } else {
            p
        };
        let plain_edge = if edge.normal {
            n
        } else if edge.dev {
            v
        } else {
            p
        };
        let plain_dependent = if dependent.normal {
            n
        } else if dependent.dev {
            v
        } else {
            p
        };
        let (e, d) = match kind {
            DepKind::Unknown => if edge.unknown && !dependent.none_set() {
                (u, any_dependent)
            } else {
                (any_edge, u)
            },
            DepKind::Build => if edge.build && (dependent.normal || dependent.build
                || dependent.dev || dependent.proc_macro) {
                (b, known_dependent)
            } else {
                (known_edge, b)
            },
            DepKind::ProcMacro => if edge.proc_macro && (dependent.normal || dependent.dev
                || dependent.proc_macro) {
                (p, plain_dependent)
            } else {
                (plain_edge, p)
            },
            DepKind::Normal => (n, n),
            DepKind::Dev => if edge.normal && dependent.dev {
                (n, v)
            } else {
                (v, if dependent.normal {
                    n
                } else {
                    v
                })
            },
        };
        assert(edge.has(e) && dependent.has(d) && kind == combined(e, d));
    }
}

/// A crate without kinds gives nothing to its dependencies.
pub proof fn lemma_gives_nothing(edge: DepKindSet, dependent: DepKindSet, kind: DepKind)
    requires
        dependent.none_set(),
    ensures
        !gives(edge, dependent, kind),
{
    lemma_given(edge, dependent, kind);
}

/// We are looking at a dependency. How is it used, given the kinds of the
/// edge to it and the kinds of the crate that depends on it?
pub fn dependency_kind_from_edge_and_dependent(edge: &DepKindSet, dependent: &DepKindSet) -> (r:
    DepKindSet)
    ensures
        r == given(*edge, *dependent),
        r@ == edge.combined_with(dependent),
        forall|k: DepKind| r.has(k) == #[trigger] gives(*edge, *dependent, k),
{
    let edge_known = edge.normal || edge.build || edge.dev || edge.proc_macro;
    let dependent_known = dependent.normal || dependent.build || dependent.dev
        || dependent.proc_macro;
    let edge_plain = edge.normal || edge.dev || edge.proc_macro;
    let dependent_plain = dependent.normal || dependent.dev || dependent.proc_macro;
    let r = DepKindSet {
        unknown: (edge.unknown && (dependent.unknown || dependent_known)) || (dependent.unknown && (
        edge.unknown || edge_known)),
        build: (edge.build && dependent_known) || (dependent.build && edge_known),
        proc_macro: (edge.proc_macro && dependent_plain) || (dependent.proc_macro && edge_plain),
        normal: edge.normal && dependent.normal,
        dev: (edge.normal && dependent.dev) || (edge.dev && (dependent.normal || dependent.dev)),
    };
    proof {
        assert forall|k: DepKind| r.has(k) == #[trigger] gives(*edge, *dependent, k) by {
            lemma_given(*edge, *dependent, k);
        }
        assert(r@ =~= edge.combined_with(dependent));
    }
    r
}

impl Default for DepKindSet {
    fn default() -> (r: Self)
        ensures
            r == DepKindSet::none(),
    {
        DepKindSet::new()
    }
}

} // verus!
