//! Small collections that keep what came first in front and hold nothing
//! twice.

use vstd::prelude::*;
use crate::text::str_eq;

verus! {

/// A value that is compared and copied by what it stands for.
pub trait Item: View + Sized {
    /// Whether both stand for the same.
    fn same(&self, other: &Self) -> (r: bool)
        ensures
            r == (self@ == other@),
    ;

    /// A copy that stands for the same.
    fn duplicate(&self) -> (r: Self)
        ensures
            r@ == self@,
    ;
}

/// A set that remembers the order in which its items came.
#[derive(Debug, PartialEq, Eq)]
pub struct UniqueVec<T> {
    pub items: Vec<T>,
}

impl<T: Item> View for UniqueVec<T> {
    type V = Seq<T::V>;

    open spec fn view(&self) -> Seq<T::V> {
        self.items@.map_values(|t: T| t@)
    }
}

impl<T: Item> UniqueVec<T> {
    /// No item occurs twice.
    pub open spec fn wf(&self) -> bool {
        self@.no_duplicates()
    }

    /// The empty set.
    pub fn new() -> (r: Self)
        ensures
            r@ == Seq::<T::V>::empty(),
            r.wf(),
    {
        let r = UniqueVec { items: Vec::new() };
        assert(r@ =~= Seq::<T::V>::empty());
        r
    }

    /// The number of items.
    pub fn len(&self) -> (n: usize)
        ensures
            n == self@.len(),
    {
        self.items.len()
    }

    /// Whether the set holds nothing.
    pub fn is_empty(&self) -> (r: bool)
        ensures
            r == (self@.len() == 0),
    {
        self.items.len() == 0
    }

    /// The item at index `i`.
    pub fn get(&self, i: usize) -> (r: &T)
        requires
            i < self@.len(),
        ensures
            r@ == self@[i as int],
    {
        &self.items[i]
    }

    /// Whether the set holds an item that stands for the same as `x`.
    pub fn contains(&self, x: &T) -> (r: bool)
        ensures
            r == self@.contains(x@),
    {
        let mut i: usize = 0;
        while i < self.items.len()
            invariant
                i <= self.items.len(),
                forall|k: int| 0 <= k < i ==> self@[k] != x@,
            decreases self.items.len() - i,
        {
            if self.items[i].same(x) {
                assert(self@[i as int] == x@);
                return true;
            }
            i += 1;
        }
        false
    }

    /// Adds `x` at the end unless the set holds it already.
    pub fn insert(&mut self, x: T) -> (added: bool)
        requires
            old(self).wf(),
        ensures
            final(self).wf(),
            added == !old(self)@.contains(x@),
            final(self)@ == inserted(old(self)@, x@),
    {
        if self.contains(&x) {
            false
        } else {
            self.items.push(x);
            assert(self@ =~= old(self)@.push(x@));
            true
        }
    }

    /// A copy of the set.
    pub fn duplicate(&self) -> (r: Self)
        ensures
            r@ == self@,
    {
        let mut items: Vec<T> = Vec::new();
        let mut i: usize = 0;
        while i < self.items.len()
            invariant
                i <= self.items.len(),
                items@.map_values(|t: T| t@) == self@.take(i as int),
            decreases self.items.len() - i,
        {
            let copy = self.items[i].duplicate();
            let ghost before = items@.map_values(|t: T| t@);
            items.push(copy);
            assert(items@.map_values(|t: T| t@) =~= before.push(copy@));
            assert(self@.take(i + 1) =~= self@.take(i as int).push(self@[i as int]));
            i += 1;
        }
        assert(self@.take(self@.len() as int) =~= self@);
        UniqueVec { items }
    }
}

/// `s` with `x` at its end unless `s` holds `x`.
pub open spec fn inserted<A>(s: Seq<A>, x: A) -> Seq<A> {
    if s.contains(x) {
        s
    } else {
        s.push(x)
    }
}

/// Inserting keeps a sequence free of duplicates, and what it then holds is
/// what it held and the new item.
pub proof fn lemma_inserted<A>(s: Seq<A>, x: A)
    requires
        s.no_duplicates(),
    ensures
        inserted(s, x).no_duplicates(),
        inserted(s, x).to_set() == s.to_set().insert(x),
{
    let r = inserted(s, x);
    assert forall|a: A| r.to_set().contains(a) == s.to_set().insert(x).contains(a) by {
        if s.contains(x) {
        } else {
            if r.contains(a) {
                let i = choose|i: int| 0 <= i < r.len() && r[i] == a;
                if i < s.len() {
                    assert(s[i] == a);
                }
            }
            if s.contains(a) {
                let i = choose|i: int| 0 <= i < s.len() && s[i] == a;
                assert(r[i] == a);
            }
            assert(r[s.len() as int] == x);
        }
    }
    assert(r.to_set() =~= s.to_set().insert(x));
}

/// A map from names to values that remembers the order in which the names
/// came.
#[derive(Debug, PartialEq, Eq)]
pub struct NameMap<V> {
    pub entries: Vec<(String, V)>,
}

impl<V: View> View for NameMap<V> {
    type V = Seq<(Seq<char>, V::V)>;

    open spec fn view(&self) -> Seq<(Seq<char>, V::V)> {
        self.entries@.map_values(|e: (String, V)| (e.0@, e.1@))
    }
}

/// The names of a list of entries.
pub open spec fn names_of<A>(entries: Seq<(Seq<char>, A)>) -> Seq<Seq<char>> {
    entries.map_values(|e: (Seq<char>, A)| e.0)
}

/// Index of the entry of `entries[..n]` named `name`.
pub open spec fn position_of<A>(entries: Seq<(Seq<char>, A)>, name: Seq<char>, n: nat) -> Option<
    int,
>
    decreases n,
{
    if n == 0 || n > entries.len() {
        None
    } else {
        match position_of(entries, name, (n - 1) as nat) {
            Some(i) => Some(i),
            None => if entries[n - 1].0 == name {
                Some(n - 1)
            } else {
                None
            },
        }
    }
}

/// Index of the entry named `name`.
pub open spec fn position<A>(entries: Seq<(Seq<char>, A)>, name: Seq<char>) -> Option<int> {
    position_of(entries, name, entries.len())
}

/// The value under `name`.
pub open spec fn value_of<A>(entries: Seq<(Seq<char>, A)>, name: Seq<char>) -> Option<A> {
    match position(entries, name) {
        Some(i) => Some(entries[i].1),
        None => None,
    }
}

/// `position_of` finds the first entry with the name, if there is one.
pub proof fn lemma_position_of<A>(entries: Seq<(Seq<char>, A)>, name: Seq<char>, n: nat)
    requires
        n <= entries.len(),
    ensures
        match position_of(entries, name, n) {
            Some(i) => 0 <= i < n && entries[i].0 == name && forall|j: int|
                0 <= j < i ==> entries[j].0 != name,
            None => forall|j: int| 0 <= j < n ==> entries[j].0 != name,
        },
    decreases n,
{
    if n > 0 {
        lemma_position_of(entries, name, (n - 1) as nat);
    }
}

impl<V: View> NameMap<V> {
    /// No name occurs twice.
    pub open spec fn wf(&self) -> bool {
        names_of(self@).no_duplicates()
    }

    /// The empty map.
    pub fn new() -> (r: Self)
        ensures
            r@ == Seq::<(Seq<char>, V::V)>::empty(),
            r.wf(),
    {
        let r = NameMap { entries: Vec::new() };
        assert(r@ =~= Seq::<(Seq<char>, V::V)>::empty());
        r
    }

    /// The number of entries.
    pub fn len(&self) -> (n: usize)
        ensures
            n == self@.len(),
    {
        self.entries.len()
    }

    /// Whether the map holds nothing.
    pub fn is_empty(&self) -> (r: bool)
        ensures
            r == (self@.len() == 0),
    {
        self.entries.len() == 0
    }

    /// Index of the entry named `name`.
    pub fn position(&self, name: &str) -> (r: Option<usize>)
        ensures
            match r {
                Some(i) => position(self@, name@) == Some(i as int) && i < self@.len(),
                None => position(self@, name@) is None,
            },
    {
        let mut i: usize = 0;
        while i < self.entries.len()
            invariant
                i <= self.entries.len(),
                position_of(self@, name@, i as nat) is None,
            decreases self.entries.len() - i,
        {
            if str_eq(self.entries[i].0.as_str(), name) {
                proof {
                    lemma_position_of(self@, name@, i as nat);
                    lemma_position_rest(self@, name@, (i + 1) as nat, self@.len());
                }
                return Some(i);
            }
            i += 1;
        }
        None
    }

    /// Whether the map has an entry named `name`.
    pub fn contains_key(&self, name: &str) -> (r: bool)
        ensures
            r == (position(self@, name@) is Some),
    {
        self.position(name).is_some()
    }

    /// The value under `name`.
    pub fn get(&self, name: &str) -> (r: Option<&V>)
        ensures
            match r {
                Some(v) => value_of(self@, name@) == Some(v@),
                None => value_of(self@, name@) is None,
            },
    {
        match self.position(name) {
            Some(i) => Some(&self.entries[i].1),
            None => None,
        }
    }

    /// The name of the entry at index `i`.
    pub fn name_at(&self, i: usize) -> (r: &str)
        requires
            i < self@.len(),
        ensures
            r@ == self@[i as int].0,
    {
        self.entries[i].0.as_str()
    }

    /// Index of the entry named `name`, which is added with `value` at the
    /// end where the map has none.
    pub fn slot(&mut self, name: &str, value: V) -> (i: usize)
        requires
            old(self).wf(),
        ensures
            final(self).wf(),
            i < final(self)@.len(),
            final(self)@ == with_slot(old(self)@, name@, value@),
            match position(old(self)@, name@) {
                Some(at) => i == at,
                None => i == old(self)@.len(),
            },
            final(self)@[i as int].0 == name@,
    {
        match self.position(name) {
            Some(i) => {
                proof {
                    lemma_position_of(self@, name@, self@.len());
                }
                i
            },
            None => {
                let ghost before = self@;
                proof {
                    lemma_position_of(before, name@, before.len());
                }
                self.entries.push((name.to_owned(), value));
                proof {
                    assert(self@ =~= before.push((name@, value@)));
                    assert(names_of(self@) =~= names_of(before).push(name@));
                    assert forall|a: int, b: int|
                        0 <= a < names_of(self@).len() && 0 <= b < names_of(self@).len() && a
                            != b implies names_of(self@)[a] != names_of(self@)[b] by {
                        if a < before.len() && b < before.len() {
                            assert(names_of(before)[a] != names_of(before)[b]);
                        } else if a < before.len() {
                            assert(before[a].0 != name@);
                        } else {
                            assert(before[b].0 != name@);
                        }
                    }
                }
                self.entries.len() - 1
            },
        }
    }
}

/// `entries` with an entry for `name`: unchanged where it has one, else with
/// `(name, value)` at its end.
pub open spec fn with_slot<A>(entries: Seq<(Seq<char>, A)>, name: Seq<char>, value: A) -> Seq<
    (Seq<char>, A),
> {
    if position(entries, name) is Some {
        entries
    } else {
        entries.push((name, value))
    }
}

/// Once an entry was found among the first `n`, it is found among any more.
pub proof fn lemma_position_rest<A>(
    entries: Seq<(Seq<char>, A)>,
    name: Seq<char>,
    n: nat,
    m: nat,
)
    requires
        n <= m <= entries.len(),
        position_of(entries, name, n) is Some,
    ensures
        position_of(entries, name, m) == position_of(entries, name, n),
    decreases m - n,
{
    if n < m {
        lemma_position_rest(entries, name, n, (m - 1) as nat);
    }
}

/// Each name occurs once, and no list holds an item twice.
pub open spec fn refs_wf<T: Item>(map: &NameMap<UniqueVec<T>>) -> bool {
    &&& map.wf()
    &&& forall|i: int| 0 <= i < map.entries@.len() ==> (#[trigger] map.entries@[i]).1.wf()
}

/// `entries` with `item` added to the list under `name`, which is made where
/// there is none.
pub open spec fn with_reference<A>(
    entries: Seq<(Seq<char>, Seq<A>)>,
    name: Seq<char>,
    item: A,
) -> Seq<(Seq<char>, Seq<A>)> {
    let base = with_slot(entries, name, Seq::empty());
    match position(base, name) {
        Some(i) => base.update(i, (name, inserted(base[i].1, item))),
        None => base,
    }
}

/// Adds `item` to the list under `name`.
pub fn add_reference<T: Item>(map: &mut NameMap<UniqueVec<T>>, name: &str, item: T)
    requires
        refs_wf(old(map)),
    ensures
        refs_wf(final(map)),
        final(map)@ == with_reference(old(map)@, name@, item@),
{
    let i = map.slot(name, UniqueVec::new());
    let ghost base = map@;
    let ghost held = *map;
    proof {
        assert forall|k: int| 0 <= k < map.entries@.len() implies (#[trigger] map.entries@[k]).1.wf() by {
            if k < old(map).entries@.len() {
                assert(old(map).entries@[k].1.wf());
                assert(map@[k] == old(map)@[k]);
                assert(map.entries@[k].1@ == old(map).entries@[k].1@);
            } else {
                assert(map@[k] == (name@, Seq::<T::V>::empty()));
            }
        }
        lemma_slot_position(old(map)@, name@, Seq::<T::V>::empty());
    }
    map.entries[i].1.insert(item);
    proof {
        assert(map@ =~= base.update(i as int, (name@, inserted(base[i as int].1, item@))));
        assert(names_of(map@) =~= names_of(base));
        assert forall|k: int| 0 <= k < map.entries@.len() implies (#[trigger] map.entries@[k]).1.wf() by {
            if k != i {
                assert(held.entries@[k].1.wf());
            }
        }
    }
}

/// After a slot was made for `name`, `name` is found at it.
pub proof fn lemma_slot_position<A>(entries: Seq<(Seq<char>, A)>, name: Seq<char>, value: A)
    ensures
        position(with_slot(entries, name, value), name) == match position(entries, name) {
            Some(i) => Some(i),
            None => Some(entries.len() as int),
        },
{
    let base = with_slot(entries, name, value);
    lemma_position_of(entries, name, entries.len());
    if position(entries, name) is None {
        lemma_position_prefix(entries, base, name, entries.len());
    }
}

/// Two lists that agree on their first `n` entries agree on where a name is
/// found among those.
pub proof fn lemma_position_prefix<A>(
    a: Seq<(Seq<char>, A)>,
    b: Seq<(Seq<char>, A)>,
    name: Seq<char>,
    n: nat,
)
    requires
        n <= a.len(),
        n <= b.len(),
        forall|i: int| 0 <= i < n ==> a[i] == b[i],
    ensures
        position_of(a, name, n) == position_of(b, name, n),
    decreases n,
{
    if n > 0 {
        lemma_position_prefix(a, b, name, (n - 1) as nat);
    }
}

} // verus!
