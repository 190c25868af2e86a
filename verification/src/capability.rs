//! Capabilities and sets of them.

use vstd::prelude::*;

verus! {

/// A capability a crate can be granted, or is suspected of having.
#[derive(Clone, Copy, Debug, Hash, PartialEq, Eq, PartialOrd, Ord, Structural)]
pub enum Capability {
    /// This crate has a custom build step (build.rs).
    ///
    /// Not contagious: depending on a crate with a build step does not give
    /// this capability.
    BuildRs,
    /// Allocate memory (`Box::new`, `Vec::new`, …)
    Alloc,
    /// Call `panic!`
    Panic,
    /// Read the current time and/or date
    Time,
    /// Read environment variables, process info, …
    Sysinfo,
    /// Read and write to stdin, stdout, stderr
    Stdio,
    /// Spawn thread
    Thread,
    /// Connect over the network and/or listen for incoming network traffic
    Net,
    /// Open a file on disk for reading or writing
    FS,
    /// Contains unsafe code blocks or functions
    Unsafe,
    /// May run any command, at build time or later
    Command,
    /// We don't know
    Unknown,
    /// Everything: the catch-all, used as an "allow" rule
    Wildcard,
}

/// The number of capabilities.
pub const CAPABILITY_COUNT: usize = 13;

impl Capability {
    /// The place of the capability in the order of the enumeration.
    pub open spec fn rank(self) -> int {
        match self {
            Capability::BuildRs => 0,
            Capability::Alloc => 1,
            Capability::Panic => 2,
            Capability::Time => 3,
            Capability::Sysinfo => 4,
            Capability::Stdio => 5,
            Capability::Thread => 6,
            Capability::Net => 7,
            Capability::FS => 8,
            Capability::Unsafe => 9,
            Capability::Command => 10,
            Capability::Unknown => 11,
            Capability::Wildcard => 12,
        }
    }

    /// The capability at a place in the order.
    pub open spec fn at_rank(rank: int) -> Capability {
        if rank == 0 {
            Capability::BuildRs
        } else if rank == 1 {
            Capability::Alloc
        } else if rank == 2 {
            Capability::Panic
        } else if rank == 3 {
            Capability::Time
        } else if rank == 4 {
            Capability::Sysinfo
        } else if rank == 5 {
            Capability::Stdio
        } else if rank == 6 {
            Capability::Thread
        } else if rank == 7 {
            Capability::Net
        } else if rank == 8 {
            Capability::FS
        } else if rank == 9 {
            Capability::Unsafe
        } else if rank == 10 {
            Capability::Command
        } else if rank == 11 {
            Capability::Unknown
        } else {
            Capability::Wildcard
        }
    }

    /// A critical capability could lead to all others: code that runs at
    /// build time, unsafe code, the running of commands, and what is not
    /// known or not bounded.
    pub open spec fn critical(self) -> bool {
        self == Capability::BuildRs || self == Capability::Unsafe || self == Capability::Command
            || self == Capability::Unknown || self == Capability::Wildcard
    }

    /// The place of the capability in the order of the enumeration.
    pub fn index(&self) -> (r: usize)
        ensures
            r == self.rank(),
            r < CAPABILITY_COUNT,
    {
        match self {
            Capability::BuildRs => 0,
            Capability::Alloc => 1,
            Capability::Panic => 2,
            Capability::Time => 3,
            Capability::Sysinfo => 4,
            Capability::Stdio => 5,
            Capability::Thread => 6,
            Capability::Net => 7,
            Capability::FS => 8,
            Capability::Unsafe => 9,
            Capability::Command => 10,
            Capability::Unknown => 11,
            Capability::Wildcard => 12,
        }
    }

    /// The capability at a place in the order.
    pub fn from_index(index: usize) -> (r: Capability)
        requires
            index < CAPABILITY_COUNT,
        ensures
            r == Capability::at_rank(index as int),
            r.rank() == index,
    {
        if index == 0 {
            Capability::BuildRs
        } else if index == 1 {
            Capability::Alloc
        } else if index == 2 {
            Capability::Panic
        } else if index == 3 {
            Capability::Time
        } else if index == 4 {
            Capability::Sysinfo
        } else if index == 5 {
            Capability::Stdio
        } else if index == 6 {
            Capability::Thread
        } else if index == 7 {
            Capability::Net
        } else if index == 8 {
            Capability::FS
        } else if index == 9 {
            Capability::Unsafe
        } else if index == 10 {
            Capability::Command
        } else if index == 11 {
            Capability::Unknown
        } else {
            Capability::Wildcard
        }
    }

    /// Any capability that is critical could in theory lead to all other
    /// capabilities.
    pub fn is_critical(&self) -> (r: bool)
        ensures
            r == self.critical(),
    {
        match self {
            Capability::Alloc
            | Capability::Panic
            | Capability::Time
            | Capability::Sysinfo
            | Capability::Stdio
            | Capability::Thread
            | Capability::Net
            | Capability::FS => false,
            Capability::BuildRs
            | Capability::Unsafe
            | Capability::Command
            | Capability::Unknown
            | Capability::Wildcard => true,
        }
    }

    /// The name of the capability, as configuration files write it.
    pub fn name(&self) -> (r: &'static str)
        ensures
            r@ == match *self {
                Capability::BuildRs => "build.rs"@,
                Capability::Alloc => "alloc"@,
                Capability::Panic => "panic"@,
                Capability::Time => "time"@,
                Capability::Sysinfo => "sysinfo"@,
                Capability::Stdio => "stdio"@,
                Capability::Thread => "thread"@,
                Capability::Net => "net"@,
                Capability::FS => "fs"@,
                Capability::Unsafe => "unsafe"@,
                Capability::Command => "command"@,
                Capability::Unknown => "unknown"@,
                Capability::Wildcard => "*"@,
            },
    {
        match self {
            Capability::BuildRs => "build.rs",
            Capability::Alloc => "alloc",
            Capability::Panic => "panic",
            Capability::Time => "time",
            Capability::Sysinfo => "sysinfo",
            Capability::Stdio => "stdio",
            Capability::Thread => "thread",
            Capability::Net => "net",
            Capability::FS => "fs",
            Capability::Unsafe => "unsafe",
            Capability::Command => "command",
            Capability::Unknown => "unknown",
            Capability::Wildcard => "*",
        }
    }

    /// A pictogram for the capability.
    pub fn emoji(&self) -> (r: &'static str)
        ensures
            r@ == match *self {
                Capability::BuildRs => "🛠️ "@,
                Capability::Alloc => "📦"@,
                Capability::Panic => "❗️"@,
                Capability::Time => "⏰"@,
                Capability::Sysinfo => "🖥️ "@,
                Capability::Stdio => "📝"@,
                Capability::Thread => "🧵"@,
                Capability::Net => "🌐"@,
                Capability::FS => "📁"@,
                Capability::Unsafe => "⚡"@,
                Capability::Command => "⚠️ "@,
                Capability::Unknown => "❓"@,
                Capability::Wildcard => "🃏 "@,
            },
    {
        match self {
            Capability::BuildRs => "🛠️ ",
            Capability::Alloc => "📦",
            Capability::Panic => "❗️",
            Capability::Time => "⏰",
            Capability::Sysinfo => "🖥️ ",
            Capability::Stdio => "📝",
            Capability::Thread => "🧵",
            Capability::Net => "🌐",
            Capability::FS => "📁",
            Capability::Unsafe => "⚡",
            Capability::Command => "⚠️ ",
            Capability::Unknown => "❓",
            Capability::Wildcard => "🃏 ",
        }
    }
}

/// Each capability has its own place in the order.
pub proof fn lemma_rank(c: Capability)
    ensures
        0 <= c.rank() < CAPABILITY_COUNT,
        Capability::at_rank(c.rank()) == c,
{
}

/// A set of capabilities.
#[derive(Clone, Copy, Debug, PartialEq, Eq)]
pub struct CapabilitySet {
    present: [bool; 13],
}

impl View for CapabilitySet {
    type V = Set<Capability>;

    closed spec fn view(&self) -> Set<Capability> {
        Set::new(|c: Capability| self.present@[c.rank()])
    }
}

/// The set that a set of capabilities comes down to: where it holds the
/// catch-all `Wildcard` it is that alone, else where it holds `Unknown` it is
/// that alone, for then nothing bounds what the code may do.
pub open spec fn absorbed(caps: Set<Capability>) -> Set<Capability> {
    if caps.contains(Capability::Wildcard) {
        set![Capability::Wildcard]
    } else if caps.contains(Capability::Unknown) {
        set![Capability::Unknown]
    } else {
        caps
    }
}

impl CapabilitySet {
    /// The empty set.
    pub fn new() -> (r: Self)
        ensures
            r@ == Set::<Capability>::empty(),
    {
        let r = CapabilitySet { present: [false; 13] };
        assert(r@ =~= Set::<Capability>::empty());
        r
    }

    /// The set of the given capabilities.
    pub fn from_slice(caps: &[Capability]) -> (r: Self)
        ensures
            r@ == caps@.to_set(),
    {
        let mut r = CapabilitySet::new();
        let mut i: usize = 0;
        while i < caps.len()
            invariant
                i <= caps.len(),
                r@ == caps@.take(i as int).to_set(),
            decreases caps.len() - i,
        {
            let ghost before = r@;
            r.insert(caps[i]);
            proof {
                let upto = caps@.take(i + 1);
                assert(upto =~= caps@.take(i as int).push(caps@[i as int]));
                assert(upto.to_set() =~= before.insert(caps@[i as int])) by {
                    assert forall|c: Capability| upto.to_set().contains(c) == before.insert(
                        caps@[i as int],
                    ).contains(c) by {
                        if upto.contains(c) {
                            let k = choose|k: int| 0 <= k < upto.len() && upto[k] == c;
                            if k < i {
                                assert(caps@.take(i as int)[k] == c);
                            }
                        }
                        if caps@.take(i as int).contains(c) {
                            let k = choose|k: int|
                                0 <= k < caps@.take(i as int).len() && caps@.take(i as int)[k] == c;
                            assert(upto[k] == c);
                        }
                        assert(upto[i as int] == caps@[i as int]);
                    }
                }
            }
            i += 1;
        }
        assert(caps@.take(caps@.len() as int) =~= caps@);
        r
    }

    /// Whether the set holds `cap`.
    pub fn contains(&self, cap: Capability) -> (r: bool)
        ensures
            r == self@.contains(cap),
    {
        self.present[cap.index()]
    }

    /// Adds `cap`; tells whether it was new.
    pub fn insert(&mut self, cap: Capability) -> (added: bool)
        ensures
            final(self)@ == old(self)@.insert(cap),
            added == !old(self)@.contains(cap),
    {
        let i = cap.index();
        let added = !self.present[i];
        self.present[i] = true;
        proof {
            assert forall|c: Capability| final(self)@.contains(c) == old(self)@.insert(
                cap,
            ).contains(c) by {
                lemma_rank(c);
                lemma_rank(cap);
            }
            assert(final(self)@ =~= old(self)@.insert(cap));
        }
        added
    }

    /// Removes `cap`.
    pub fn remove(&mut self, cap: Capability)
        ensures
            final(self)@ == old(self)@.remove(cap),
    {
        let i = cap.index();
        self.present[i] = false;
        proof {
            assert forall|c: Capability| final(self)@.contains(c) == old(self)@.remove(
                cap,
            ).contains(c) by {
                lemma_rank(c);
                lemma_rank(cap);
            }
            assert(final(self)@ =~= old(self)@.remove(cap));
        }
    }

    /// Adds each member of `other`.
    pub fn extend(&mut self, other: &CapabilitySet)
        ensures
            final(self)@ == old(self)@.union(other@),
    {
        let mut i: usize = 0;
        while i < CAPABILITY_COUNT
            invariant
                i <= CAPABILITY_COUNT,
                forall|r: int|
                    0 <= r < CAPABILITY_COUNT ==> self@.contains(#[trigger] Capability::at_rank(r))
                        == (old(self)@.contains(Capability::at_rank(r)) || (r < i
                        && other@.contains(Capability::at_rank(r)))),
            decreases CAPABILITY_COUNT - i,
        {
            let cap = Capability::from_index(i);
            let ghost before = self@;
            if other.contains(cap) {
                self.insert(cap);
            }
            proof {
                assert forall|r: int| 0 <= r < CAPABILITY_COUNT implies self@.contains(
                    #[trigger] Capability::at_rank(r),
                ) == (old(self)@.contains(Capability::at_rank(r)) || (r < i + 1
                    && other@.contains(Capability::at_rank(r)))) by {
                    let c = Capability::at_rank(r);
                    assert(before.contains(c) == (old(self)@.contains(c) || (r < i
                        && other@.contains(c))));
                    if r == i {
                        assert(c == cap);
                    } else {
                        assert(c != cap);
                    }
                }
            }
            i += 1;
        }
        proof {
            assert forall|c: Capability| final(self)@.contains(c) == old(self)@.union(
                other@,
            ).contains(c) by {
                lemma_rank(c);
                assert(final(self)@.contains(Capability::at_rank(c.rank())) == (old(
                    self,
                )@.contains(Capability::at_rank(c.rank())) || (c.rank() < CAPABILITY_COUNT
                    && other@.contains(Capability::at_rank(c.rank())))));
            }
            assert(final(self)@ =~= old(self)@.union(other@));
        }
    }

    /// Whether the set holds nothing.
    pub fn is_empty(&self) -> (r: bool)
        ensures
            r == (self@ == Set::<Capability>::empty()),
    {
        let mut i: usize = 0;
        while i < CAPABILITY_COUNT
            invariant
                i <= CAPABILITY_COUNT,
                forall|c: Capability| c.rank() < i ==> !self@.contains(c),
            decreases CAPABILITY_COUNT - i,
        {
            let cap = Capability::from_index(i);
            if self.contains(cap) {
                return false;
            }
            proof {
                assert forall|c: Capability| c.rank() < i + 1 implies !self@.contains(c) by {
                    lemma_rank(c);
                }
            }
            i += 1;
        }
        proof {
            assert forall|c: Capability| !self@.contains(c) by {
                lemma_rank(c);
            }
            assert(self@ =~= Set::<Capability>::empty());
        }
        true
    }

    /// The members in the order of the enumeration.
    pub fn to_vec(&self) -> (r: Vec<Capability>)
        ensures
            r@.to_set() == self@,
            forall|i: int, j: int| 0 <= i < j < r@.len() ==> r@[i].rank() < r@[j].rank(),
    {
        let mut out: Vec<Capability> = Vec::new();
        let mut i: usize = 0;
        while i < CAPABILITY_COUNT
            invariant
                i <= CAPABILITY_COUNT,
                forall|c: Capability| out@.contains(c) == (c.rank() < i && self@.contains(c)),
                forall|a: int, b: int| 0 <= a < b < out@.len() ==> out@[a].rank() < out@[b].rank(),
                forall|a: int| 0 <= a < out@.len() ==> out@[a].rank() < i,
            decreases CAPABILITY_COUNT - i,
        {
            let cap = Capability::from_index(i);
            let ghost before = out@;
            if self.contains(cap) {
                out.push(cap);
            }
            proof {
                assert forall|c: Capability|
                    out@.contains(c) == (c.rank() < i + 1 && self@.contains(c)) by {
                    lemma_rank(c);
                    if before.contains(c) {
                        let k = choose|k: int| 0 <= k < before.len() && before[k] == c;
                        assert(out@[k] == c);
                    }
                    if out@.contains(c) && !before.contains(c) {
                        let k = choose|k: int| 0 <= k < out@.len() && out@[k] == c;
                        if k < before.len() {
                            assert(before[k] == c);
                        }
                    }
                    if c == cap && self@.contains(cap) {
                        assert(out@[before.len() as int] == cap);
                    }
                }
            }
            i += 1;
        }
        proof {
            assert forall|c: Capability| out@.to_set().contains(c) == self@.contains(c) by {
                lemma_rank(c);
            }
            assert(out@.to_set() =~= self@);
        }
        out
    }

    /// The set that this set comes down to once `Wildcard` or `Unknown`
    /// absorbs the rest.
    pub fn absorb(&self) -> (r: CapabilitySet)
        ensures
            r@ == absorbed(self@),
    {
        if self.contains(Capability::Wildcard) {
            let mut r = CapabilitySet::new();
            r.insert(Capability::Wildcard);
            assert(r@ =~= set![Capability::Wildcard]);
            r
        } else if self.contains(Capability::Unknown) {
            let mut r = CapabilitySet::new();
            r.insert(Capability::Unknown);
            assert(r@ =~= set![Capability::Unknown]);
            r
        } else {
            *self
        }
    }

    /// Whether a member is critical.
    pub fn has_critical(&self) -> (r: bool)
        ensures
            r == exists|c: Capability| self@.contains(c) && c.critical(),
    {
        let r = self.contains(Capability::BuildRs) || self.contains(Capability::Unsafe)
            || self.contains(Capability::Command) || self.contains(Capability::Unknown)
            || self.contains(Capability::Wildcard);
        proof {
            if self@.contains(Capability::BuildRs) {
                assert(self@.contains(Capability::BuildRs) && Capability::BuildRs.critical());
            } else if self@.contains(Capability::Unsafe) {
                assert(self@.contains(Capability::Unsafe) && Capability::Unsafe.critical());
            } else if self@.contains(Capability::Command) {
                assert(self@.contains(Capability::Command) && Capability::Command.critical());
            } else if self@.contains(Capability::Unknown) {
                assert(self@.contains(Capability::Unknown) && Capability::Unknown.critical());
            } else if self@.contains(Capability::Wildcard) {
                assert(self@.contains(Capability::Wildcard) && Capability::Wildcard.critical());
            }
        }
        r
    }

    /// The members that are not in `other`.
    pub fn difference(&self, other: &CapabilitySet) -> (r: CapabilitySet)
        ensures
            r@ == self@.difference(other@),
    {
        let mut out = *self;
        let mut i: usize = 0;
        while i < CAPABILITY_COUNT
            invariant
                i <= CAPABILITY_COUNT,
                forall|r: int|
                    0 <= r < CAPABILITY_COUNT ==> out@.contains(#[trigger] Capability::at_rank(r))
                        == (self@.contains(Capability::at_rank(r)) && !(r < i && other@.contains(
                        Capability::at_rank(r),
                    ))),
            decreases CAPABILITY_COUNT - i,
        {
            let cap = Capability::from_index(i);
            let ghost before = out@;
            if other.contains(cap) {
                out.remove(cap);
            }
            proof {
                assert forall|r: int| 0 <= r < CAPABILITY_COUNT implies out@.contains(
                    #[trigger] Capability::at_rank(r),
                ) == (self@.contains(Capability::at_rank(r)) && !(r < i + 1 && other@.contains(
                    Capability::at_rank(r),
                ))) by {
                    let c = Capability::at_rank(r);
                    assert(before.contains(c) == (self@.contains(c) && !(r < i && other@.contains(
                        c,
                    ))));
                    if r == i {
                        assert(c == cap);
                    } else {
                        assert(c != cap);
                    }
                }
            }
            i += 1;
        }
        proof {
            assert forall|c: Capability| out@.contains(c) == self@.difference(other@).contains(
                c,
            ) by {
                lemma_rank(c);
                assert(out@.contains(Capability::at_rank(c.rank())) == (self@.contains(
                    Capability::at_rank(c.rank()),
                ) && !(c.rank() < CAPABILITY_COUNT && other@.contains(
                    Capability::at_rank(c.rank()),
                ))));
            }
            assert(out@ =~= self@.difference(other@));
        }
        out
    }
}

/// A set with the catch-all comes down to the catch-all alone.
pub proof fn lemma_catch_all_absorbs(caps: Set<Capability>)
    requires
        caps.contains(Capability::Wildcard),
    ensures
        absorbed(caps) == set![Capability::Wildcard],
{
}

} // verus!
