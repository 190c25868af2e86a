//! Random samples of a list.

use rand::Rng;
use vstd::prelude::*;

verus! {

#[verifier::external_type_specification]
#[verifier::external_body]
pub struct ExThreadRng(rand::rngs::ThreadRng);

/// `rand::rng` hands out the random number generator of the current thread.
#[verifier::external_body]
fn thread_rng() -> (rng: rand::rngs::ThreadRng)
{
    rand::rng()
}

/// `Rng::random_range` draws a number from `0..=max`: whatever is drawn lies
/// in that range.
#[verifier::external_body]
fn random_up_to(rng: &mut rand::rngs::ThreadRng, max: usize) -> (drawn: usize)
    ensures
        drawn <= max,
{
    rng.random_range(0..=max)
}

/// Whether `sample` is a sample of at most `n` of `items`: it holds as many
/// items as there are, up to `n`; each is an item of the list, none is taken
/// twice, and the item at a place is the item of the list at that place or a
/// later one that took the place.
pub open spec fn is_sample<T>(items: Seq<T>, n: nat, sample: Seq<T>, picks: Seq<int>) -> bool {
    &&& sample.len() == if items.len() < n {
        items.len()
    } else {
        n
    }
    &&& picks.len() == sample.len()
    &&& picks.no_duplicates()
    &&& forall|k: int|
        0 <= k < sample.len() ==> 0 <= (#[trigger] picks[k]) < items.len() && sample[k]
            == items[picks[k]] && (picks[k] == k || picks[k] >= n)
}

/// The items that a list of references refers to.
pub open spec fn referred<T>(sample: Seq<&T>) -> Seq<T> {
    sample.map_values(|t: &T| *t)
}

/// Draws a random sample of `n` of `items`, each item being as likely as any
/// other to be in it, in one pass over the list.
pub fn reservoir_sample<'a, T>(items: &'a Vec<T>, n: usize, rng: &mut rand::rngs::ThreadRng) -> (r:
    Vec<&'a T>)
    ensures
        exists|picks: Seq<int>| is_sample(items@, n as nat, referred(r@), picks),
{
    let mut reservoir: Vec<&'a T> = Vec::new();
    let ghost mut picks: Seq<int> = Seq::empty();
    let mut i: usize = 0;
    while i < items.len() && i < n
        invariant
            i <= items.len(),
            i <= n,
            reservoir@.len() == i,
            picks.len() == i,
            forall|k: int| 0 <= k < i ==> #[trigger] picks[k] == k,
            forall|k: int| 0 <= k < i ==> *(#[trigger] reservoir@[k]) == items@[k],
        decreases items.len() - i,
    {
        reservoir.push(&items[i]);
        proof {
            picks = picks.push(i as int);
        }
        i += 1;
    }
    while i < items.len()
        invariant
            i <= items.len(),
            reservoir@.len() == picks.len(),
            reservoir@.len() == if items@.len() < n {
                items@.len()
            } else {
                n as nat
            },
            reservoir@.len() <= i,
            picks.no_duplicates(),
            forall|k: int|
                0 <= k < picks.len() ==> 0 <= (#[trigger] picks[k]) < i && *reservoir@[k]
                    == items@[picks[k]] && (picks[k] == k || picks[k] >= n),
        decreases items.len() - i,
    {
        let j = random_up_to(rng, i);
        if j < n {
            let ghost before = picks;
            reservoir[j] = &items[i];
            proof {
                picks = picks.update(j as int, i as int);
                assert forall|a: int, b: int|
                    0 <= a < picks.len() && 0 <= b < picks.len() && a != b implies picks[a]
                    != picks[b] by {
                    if a != j && b != j {
                        assert(before[a] != before[b]);
                    } else if a == j {
                        assert(before[b] < i);
                    } else {
                        assert(before[a] < i);
                    }
                }
            }
        }
        i += 1;
    }
    proof {
        assert(is_sample(items@, n as nat, referred(reservoir@), picks));
    }
    reservoir
}

/// Draws a random sample of `n` of `items` with the random number generator
/// of the current thread.
pub fn reservoir_sample_of<'a, T>(items: &'a Vec<T>, n: usize) -> (r: Vec<&'a T>)
    ensures
        exists|picks: Seq<int>| is_sample(items@, n as nat, referred(r@), picks),
{
    let mut rng = thread_rng();
    reservoir_sample(items, n, &mut rng)
}

} // verus!
