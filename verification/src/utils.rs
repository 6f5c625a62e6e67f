use vstd::prelude::*;
use std::collections::HashSet;
use std::hash::Hash;
use vstd::std_specs::hash::obeys_key_model;
use vstd::std_specs::iter::IteratorSpec;

verus! {

broadcast use vstd::std_specs::hash::group_hash_axioms;

/// Pairs the values of `first` and `second` place by place, up to the end of the shorter
/// one.
pub fn zip<X, Y>(first: Vec<X>, second: Vec<Y>) -> (r: Vec<(X, Y)>)
    ensures
        r@.len() == if first@.len() <= second@.len() {
            first@.len()
        } else {
            second@.len()
        },
        forall|i: int| 0 <= i < r@.len() ==> (#[trigger] r@[i]) == (first@[i], second@[i]),
{
    let mut left = first;
    let mut right = second;
    let count = if left.len() <= right.len() {
        left.len()
    } else {
        right.len()
    };
    left.truncate(count);
    right.truncate(count);
    let mut backwards: Vec<(X, Y)> = Vec::new();
    while left.len() > 0
        invariant
            count <= first@.len(),
            count <= second@.len(),
            left@.len() == right@.len(),
            left@.len() <= count,
            backwards@.len() == count - left@.len(),
            left@ == first@.subrange(0, left@.len() as int),
            right@ == second@.subrange(0, right@.len() as int),
            forall|i: int|
                0 <= i < backwards@.len() ==> (#[trigger] backwards@[i]) == (
                    first@[count - 1 - i],
                    second@[count - 1 - i],
                ),
        decreases left@.len(),
    {
        let x = left.pop().unwrap();
        let y = right.pop().unwrap();
        backwards.push((x, y));
    }
    let mut pairs: Vec<(X, Y)> = Vec::new();
    while backwards.len() > 0
        invariant
            count <= first@.len(),
            count <= second@.len(),
            backwards@.len() <= count,
            pairs@.len() == count - backwards@.len(),
            forall|i: int|
                0 <= i < backwards@.len() ==> (#[trigger] backwards@[i]) == (
                    first@[count - 1 - i],
                    second@[count - 1 - i],
                ),
            forall|i: int| 0 <= i < pairs@.len() ==> (#[trigger] pairs@[i]) == (first@[i], second@[i]),
        decreases backwards@.len(),
    {
        let pair = backwards.pop().unwrap();
        pairs.push(pair);
    }
    pairs
}

/// What all of `sets` have in common; nothing where there is no set at all.
pub open spec fn intersection_of<A>(sets: Seq<Set<A>>) -> Set<A> {
    if sets.len() == 0 {
        Set::empty()
    } else {
        Set::new(|a: A| forall|i: int| 0 <= i < sets.len() ==> (#[trigger] sets[i]).contains(a))
    }
}

/// Whether every one of `sets` holds `item`.
fn in_all<A: Eq + Hash>(sets: &Vec<&HashSet<A>>, item: &A) -> (r: bool)
    requires
        obeys_key_model::<A>(),
    ensures
        r == forall|i: int| 0 <= i < sets@.len() ==> (#[trigger] sets@[i])@.contains(*item),
{
    let mut index: usize = 0;
    while index < sets.len()
        invariant
            obeys_key_model::<A>(),
            index <= sets@.len(),
            forall|i: int| 0 <= i < index ==> (#[trigger] sets@[i])@.contains(*item),
        decreases sets@.len() - index,
    {
        if !sets[index].contains(item) {
            return false;
        }
        index = index + 1;
    }
    true
}

/// A list of sets of which the common part can be taken.
pub trait IntersectAll<A> {
    /// What each set of the list holds, in the order of the list.
    spec fn spec_sets(&self) -> Seq<Set<A>>;

    /// The set of what every set of the list holds. A list without sets gives the empty
    /// set.
    fn intersect_all(&self) -> (r: HashSet<A>)
        requires
            obeys_key_model::<A>(),
        ensures
            r@ == intersection_of(self.spec_sets()),
    ;
}

impl<A: Eq + Hash + Copy + Clone> IntersectAll<A> for Vec<&HashSet<A>> {
    open spec fn spec_sets(&self) -> Seq<Set<A>> {
        Seq::new(self@.len(), |i: int| self@[i]@)
    }

    fn intersect_all(&self) -> (r: HashSet<A>) {
        let sets = self;
        let mut common: HashSet<A> = HashSet::new();
        if sets.len() == 0 {
            return common;
        }
        let first = sets[0];
        let ghost all = Seq::new(sets@.len(), |i: int| sets@[i]@);
        proof {
            let keys = first.iter().remaining();
            assert forall|a: A| keys.len() == 0 implies !intersection_of(all).contains(a) by {
                if intersection_of(all).contains(a) {
                    assert(all[0].contains(a));
                    assert(keys.unref().to_set().contains(a));
                    assert(keys.unref().contains(a));
                }
            }
            assert(keys.len() == 0 ==> common@ =~= intersection_of(all));
        }
        for item in it: first.iter()
            invariant
                obeys_key_model::<A>(),
                sets@.len() > 0,
                first == sets@[0],
                all == Seq::new(sets@.len(), |i: int| sets@[i]@),
                it.seq().unref().to_set() == first@,
                common@ == Set::new(
                    |a: A| intersection_of(all).contains(a) && exists|j: int| 0 <= j < it.index() && *it.seq()[j] == a,
                ),
                it.index() == it.seq().len() ==> common@ == intersection_of(all),
        {
            let ghost before = common@;
            let ghost at = it.index();
            let ghost walk = it.seq();
            let shared = in_all(sets, item);
            proof {
                assert(shared == intersection_of(all).contains(*item)) by {
                    if shared {
                        assert forall|i: int| 0 <= i < all.len() implies (#[trigger] all[i]).contains(*item) by {
                            assert(sets@[i]@.contains(*item));
                        }
                    } else {
                        let i = choose|i: int| 0 <= i < sets@.len() && !(#[trigger] sets@[i])@.contains(*item);
                        assert(!all[i].contains(*item));
                    }
                }
            }
            if shared {
                common.insert(*item);
            }
            proof {
                let wanted = Set::new(
                    |a: A| intersection_of(all).contains(a) && exists|j: int| 0 <= j < at + 1 && *walk[j] == a,
                );
                assert forall|a: A| common@.contains(a) <==> wanted.contains(a) by {
                    if common@.contains(a) {
                        if before.contains(a) {
                            let j = choose|j: int| 0 <= j < at && *walk[j] == a;
                            assert(0 <= j < at + 1 && *walk[j] == a);
                        } else {
                            assert(*walk[at] == a);
                        }
                    }
                    if wanted.contains(a) {
                        let j = choose|j: int| 0 <= j < at + 1 && *walk[j] == a;
                        if j < at {
                            assert(before.contains(a));
                        }
                    }
                }
                assert(common@ =~= wanted);
                assert forall|a: A| at + 1 == walk.len() && intersection_of(all).contains(a) implies common@.contains(
                    a,
                ) by {
                    assert(all[0].contains(a));
                    assert(walk.unref().to_set().contains(a));
                    assert(walk.unref().contains(a));
                    let j = choose|j: int| 0 <= j < walk.unref().len() && walk.unref()[j] == a;
                    assert(*walk[j] == a);
                }
                assert(at + 1 == walk.len() ==> common@ =~= intersection_of(all));
            }
        }
        common
    }
}

} // verus!
