use vstd::prelude::*;
use bit_set::BitSet;
use crate::storage::component::TypeId;

verus! {

/// The key of a table: a set of bit positions, one for each component type of the table.
/// The bits live in a `bit_set::BitSet`; what it holds is named by `bits`.
#[derive(Debug)]
#[verifier::external_body]
pub struct Signature {
    set: BitSet,
}

/// The bit positions that a signature holds.
pub uninterp spec fn bits(s: Signature) -> Set<usize>;

/// `BitSet::new`: a set that holds no position.
#[verifier::external_body]
fn bitset_new() -> (r: Signature)
    ensures
        bits(r) == Set::<usize>::empty(),
{
    Signature { set: BitSet::new() }
}

/// `BitSet::insert`: afterwards the set holds `value` besides what it held. The result
/// tells whether `value` was new. The position `usize::MAX` is left out: the set cannot
/// grow to hold it.
#[verifier::external_body]
fn bitset_insert(s: &mut Signature, value: usize) -> (r: bool)
    requires
        value < usize::MAX,
    ensures
        bits(*final(s)) == bits(*old(s)).insert(value),
        r == !bits(*old(s)).contains(value),
{
    s.set.insert(value)
}

/// `BitSet::union_with`: afterwards the set holds what it held and what `other` holds.
#[verifier::external_body]
fn bitset_union_with(s: &mut Signature, other: &Signature)
    ensures
        bits(*final(s)) == bits(*old(s)).union(bits(*other)),
{
    s.set.union_with(&other.set)
}

/// `BitSet::is_subset`: whether `other` holds every position that `s` holds.
#[verifier::external_body]
fn bitset_is_subset(s: &Signature, other: &Signature) -> (r: bool)
    ensures
        r == bits(*s).subset_of(bits(*other)),
{
    s.set.is_subset(&other.set)
}

/// `BitSet`'s `==`: whether the two sets hold the same positions.
#[verifier::external_body]
fn bitset_eq(s: &Signature, other: &Signature) -> (r: bool)
    ensures
        r == (bits(*s) == bits(*other)),
{
    s.set == other.set
}

/// `p` is the place of `id` in `registry`: the first index at which it stands.
pub open spec fn is_position(registry: Seq<TypeId>, id: TypeId, p: int) -> bool {
    &&& 0 <= p < registry.len()
    &&& registry[p] == id
    &&& forall|j: int| 0 <= j < p ==> registry[j] != id
}

/// The bit positions that stand for `types`: the place of each of them in `registry`.
pub open spec fn key_of(registry: Seq<TypeId>, types: Set<TypeId>) -> Set<usize> {
    Set::new(
        |p: usize| exists|id: TypeId| types.contains(id) && #[trigger] is_position(registry, id, p as int),
    )
}

/// Every identity in `types` stands somewhere in `registry`.
pub open spec fn registered(registry: Seq<TypeId>, types: Set<TypeId>) -> bool {
    forall|id: TypeId| #[trigger] types.contains(id) ==> registry.contains(id)
}

/// An identity that stands in the registry has a place in it.
pub proof fn lemma_position_exists(registry: Seq<TypeId>, id: TypeId) -> (p: int)
    requires
        registry.contains(id),
    ensures
        is_position(registry, id, p),
    decreases registry.len(),
{
    let i = choose|i: int| 0 <= i < registry.len() && registry[i] == id;
    if exists|j: int| 0 <= j < i && registry[j] == id {
        let j = choose|j: int| 0 <= j < i && registry[j] == id;
        let shorter = registry.subrange(0, i);
        assert(shorter[j] == id);
        let p = lemma_position_exists(shorter, id);
        assert(registry[p] == shorter[p]);
        assert forall|k: int| 0 <= k < p implies registry[k] != id by {
            assert(registry[k] == shorter[k]);
        }
        p
    } else {
        i
    }
}

/// An identity has one place at most, and two identities never share a place.
pub proof fn lemma_position_unique(registry: Seq<TypeId>, a: TypeId, p: int, b: TypeId, q: int)
    requires
        is_position(registry, a, p),
        is_position(registry, b, q),
    ensures
        a == b <==> p == q,
{
}

/// No type, no bit.
pub proof fn lemma_key_of_empty(registry: Seq<TypeId>)
    ensures
        key_of(registry, Set::<TypeId>::empty()) == Set::<usize>::empty(),
{
    assert(key_of(registry, Set::<TypeId>::empty()) =~= Set::<usize>::empty());
}

/// One more type is one more bit: the bit of its place.
pub proof fn lemma_key_of_insert(registry: Seq<TypeId>, types: Set<TypeId>, id: TypeId, p: usize)
    requires
        is_position(registry, id, p as int),
    ensures
        key_of(registry, types.insert(id)) == key_of(registry, types).insert(p),
{
    let bigger = key_of(registry, types.insert(id));
    let smaller = key_of(registry, types).insert(p);
    assert forall|q: usize| bigger.contains(q) implies smaller.contains(q) by {
        let t = choose|t: TypeId| types.insert(id).contains(t) && is_position(registry, t, q as int);
        if t == id {
            lemma_position_unique(registry, id, p as int, t, q as int);
        } else {
            assert(types.contains(t) && is_position(registry, t, q as int));
        }
    }
    assert forall|q: usize| smaller.contains(q) implies bigger.contains(q) by {
        if q == p {
            assert(types.insert(id).contains(id) && is_position(registry, id, q as int));
        } else {
            let t = choose|t: TypeId| types.contains(t) && is_position(registry, t, q as int);
            assert(types.insert(id).contains(t) && is_position(registry, t, q as int));
        }
    }
    assert(bigger =~= smaller);
}

/// The key of a union is the union of the keys.
pub proof fn lemma_key_of_union(registry: Seq<TypeId>, a: Set<TypeId>, b: Set<TypeId>)
    ensures
        key_of(registry, a.union(b)) == key_of(registry, a).union(key_of(registry, b)),
{
    let whole = key_of(registry, a.union(b));
    let parts = key_of(registry, a).union(key_of(registry, b));
    assert forall|q: usize| whole.contains(q) implies parts.contains(q) by {
        let t = choose|t: TypeId| a.union(b).contains(t) && is_position(registry, t, q as int);
        if a.contains(t) {
            assert(a.contains(t) && is_position(registry, t, q as int));
        } else {
            assert(b.contains(t) && is_position(registry, t, q as int));
        }
    }
    assert forall|q: usize| parts.contains(q) implies whole.contains(q) by {
        if key_of(registry, a).contains(q) {
            let t = choose|t: TypeId| a.contains(t) && is_position(registry, t, q as int);
            assert(a.union(b).contains(t) && is_position(registry, t, q as int));
        } else {
            let t = choose|t: TypeId| b.contains(t) && is_position(registry, t, q as int);
            assert(a.union(b).contains(t) && is_position(registry, t, q as int));
        }
    }
    assert(whole =~= parts);
}

/// Among registered types, one key holds another exactly when the types do.
pub proof fn lemma_key_of_subset(registry: Seq<TypeId>, a: Set<TypeId>, b: Set<TypeId>)
    requires
        registered(registry, a),
        registry.len() <= usize::MAX,
    ensures
        key_of(registry, a).subset_of(key_of(registry, b)) <==> a.subset_of(b),
{
    if a.subset_of(b) {
        assert forall|q: usize| key_of(registry, a).contains(q) implies key_of(registry, b).contains(q) by {
            let t = choose|t: TypeId| a.contains(t) && is_position(registry, t, q as int);
            assert(b.contains(t) && is_position(registry, t, q as int));
        }
    }
    if key_of(registry, a).subset_of(key_of(registry, b)) {
        assert forall|id: TypeId| a.contains(id) implies b.contains(id) by {
            let p = lemma_position_exists(registry, id);
            let q = p as usize;
            assert(a.contains(id) && is_position(registry, id, q as int));
            assert(key_of(registry, a).contains(q));
            assert(key_of(registry, b).contains(q));
            let t = choose|t: TypeId| b.contains(t) && is_position(registry, t, q as int);
            lemma_position_unique(registry, id, p, t, q as int);
        }
    }
}

/// Among registered types, equal keys mean equal types.
pub proof fn lemma_key_of_injective(registry: Seq<TypeId>, a: Set<TypeId>, b: Set<TypeId>)
    requires
        registered(registry, a),
        registered(registry, b),
        registry.len() <= usize::MAX,
        key_of(registry, a) == key_of(registry, b),
    ensures
        a == b,
{
    lemma_key_of_subset(registry, a, b);
    lemma_key_of_subset(registry, b, a);
    assert(a =~= b);
}

/// A registry that grows at its end keeps the place of every identity it held.
pub proof fn lemma_key_of_push(registry: Seq<TypeId>, added: TypeId, types: Set<TypeId>)
    requires
        registered(registry, types),
    ensures
        key_of(registry.push(added), types) == key_of(registry, types),
{
    let longer = registry.push(added);
    assert forall|q: usize| key_of(longer, types).contains(q) implies key_of(registry, types).contains(q) by {
        let t = choose|t: TypeId| types.contains(t) && is_position(longer, t, q as int);
        let p = lemma_position_exists(registry, t);
        assert(longer[p] == registry[p]);
        if p < q {
            assert(longer[p] != t);
        }
        assert forall|j: int| 0 <= j < q implies registry[j] != t by {
            assert(longer[j] == registry[j]);
        }
        assert(types.contains(t) && is_position(registry, t, q as int));
    }
    assert forall|q: usize| key_of(registry, types).contains(q) implies key_of(longer, types).contains(q) by {
        let t = choose|t: TypeId| types.contains(t) && is_position(registry, t, q as int);
        assert(longer[q as int] == registry[q as int]);
        assert forall|j: int| 0 <= j < q implies longer[j] != t by {
            assert(longer[j] == registry[j]);
        }
        assert(types.contains(t) && is_position(longer, t, q as int));
    }
    assert(key_of(longer, types) =~= key_of(registry, types));
}

/// The place of `id` in `type_map`, or `None` where it does not stand there.
pub fn position(type_map: &[TypeId], id: TypeId) -> (r: Option<usize>)
    ensures
        match r {
            Some(p) => is_position(type_map@, id, p as int) && p < usize::MAX,
            None => !type_map@.contains(id),
        },
{
    let mut index: usize = 0;
    while index < type_map.len()
        invariant
            index <= type_map@.len(),
            forall|j: int| 0 <= j < index ==> type_map@[j] != id,
        decreases type_map@.len() - index,
    {
        if type_map[index] == id {
            return Some(index);
        }
        index = index + 1;
    }
    None
}

impl Signature {
    /// Whether this key stands for exactly `types`, with places taken from `registry`.
    pub open spec fn stands_for(self, registry: Seq<TypeId>, types: Set<TypeId>) -> bool {
        bits(self) == key_of(registry, types)
    }

    /// The key of no type at all.
    pub fn new() -> (r: Self)
        ensures
            bits(r) == Set::<usize>::empty(),
    {
        bitset_new()
    }

    /// The key of the one type `id`. The identity has to stand in `type_map`.
    pub fn single(type_map: &[TypeId], id: TypeId) -> (r: Self)
        requires
            type_map@.contains(id),
        ensures
            r.stands_for(type_map@, set![id]),
    {
        let mut key = bitset_new();
        let place = position(type_map, id);
        match place {
            Some(p) => {
                let fresh = bitset_insert(&mut key, p);
                proof {
                    lemma_key_of_empty(type_map@);
                    lemma_key_of_insert(type_map@, Set::<TypeId>::empty(), id, p);
                    assert(Set::<TypeId>::empty().insert(id) =~= set![id]);
                }
            },
            None => {},
        }
        key
    }

    /// Adds the bit of the type `id` to the key. Returns whether the bit was new.
    pub fn insert(&mut self, type_map: &[TypeId], id: TypeId) -> (r: bool)
        requires
            type_map@.contains(id),
        ensures
            forall|types: Set<TypeId>|
                old(self).stands_for(type_map@, types) ==> final(self).stands_for(
                    type_map@,
                    types.insert(id),
                ),
            forall|p: int| is_position(type_map@, id, p) ==> bits(*final(self)) == bits(*old(self)).insert(p as usize)
                && r == !bits(*old(self)).contains(p as usize),
    {
        let place = position(type_map, id);
        match place {
            Some(p) => {
                let fresh = bitset_insert(self, p);
                proof {
                    assert forall|types: Set<TypeId>| old(self).stands_for(type_map@, types) implies self.stands_for(
                        type_map@,
                        types.insert(id),
                    ) by {
                        lemma_key_of_insert(type_map@, types, id, p);
                    }
                    assert forall|q: int| is_position(type_map@, id, q) implies q == p by {
                        lemma_position_unique(type_map@, id, p as int, id, q);
                    }
                }
                fresh
            },
            None => false,
        }
    }

    /// Adds every bit of `other` to the key.
    pub fn union_with(&mut self, other: &Signature)
        ensures
            bits(*final(self)) == bits(*old(self)).union(bits(*other)),
    {
        bitset_union_with(self, other)
    }

    /// Whether `other` holds every bit of this key.
    pub fn is_subset(&self, other: &Signature) -> (r: bool)
        ensures
            r == bits(*self).subset_of(bits(*other)),
    {
        bitset_is_subset(self, other)
    }

    /// Whether the two keys hold the same bits.
    pub fn same_as(&self, other: &Signature) -> (r: bool)
        ensures
            r == (bits(*self) == bits(*other)),
    {
        bitset_eq(self, other)
    }
}

} // verus!
