use vstd::prelude::*;
use core::marker::PhantomData;
use crate::storage::component::{Component, TypeId};
use crate::storage::signature::{bits, key_of, lemma_key_of_subset, lemma_key_of_union, registered, Signature};
use crate::storage::table::EntityTable;
use crate::utils::zip;
use crate::world::World;

verus! {

/// What a query needs a table to have: a set of component types, and the key that
/// stands for them.
pub trait TTableKey {
    /// The component types that the query reads or writes.
    spec fn required() -> Set<TypeId>;

    /// The key of the required types, with places taken from `type_map`. Every required
    /// type has to stand in `type_map`.
    fn get_key(type_map: &[TypeId]) -> (r: Signature)
        requires
            registered(type_map@, Self::required()),
        ensures
            r.stands_for(type_map@, Self::required()),
    ;
}

impl<'a, T: Component> TTableKey for &'a T {
    open spec fn required() -> Set<TypeId> {
        set![T::spec_type_id()]
    }

    fn get_key(type_map: &[TypeId]) -> (r: Signature) {
        proof {
            assert(Self::required().contains(T::spec_type_id()));
        }
        Signature::single(type_map, T::type_id())
    }
}

impl<'a, T: Component> TTableKey for &'a mut T {
    open spec fn required() -> Set<TypeId> {
        set![T::spec_type_id()]
    }

    fn get_key(type_map: &[TypeId]) -> (r: Signature) {
        proof {
            assert(Self::required().contains(T::spec_type_id()));
        }
        Signature::single(type_map, T::type_id())
    }
}

impl<A: TTableKey, B: TTableKey> TTableKey for (A, B) {
    open spec fn required() -> Set<TypeId> {
        A::required().union(B::required())
    }

    fn get_key(type_map: &[TypeId]) -> (r: Signature) {
        proof {
            assert forall|id: TypeId| #[trigger] A::required().contains(id) implies type_map@.contains(id) by {
                assert(Self::required().contains(id));
            }
            assert forall|id: TypeId| #[trigger] B::required().contains(id) implies type_map@.contains(id) by {
                assert(Self::required().contains(id));
            }
            lemma_key_of_union(type_map@, A::required(), B::required());
        }
        let mut bit_set_a = A::get_key(type_map);
        let bit_set_b = B::get_key(type_map);
        bit_set_a.union_with(&bit_set_b);
        bit_set_a
    }
}

/// One kind of thing that a query can ask of each row: a reference to one component, or
/// a pair of such things.
pub trait TQueryItem<'a>: TTableKey {
    /// What the query yields for one row.
    type Item;

    /// What the query yields for a table: one item for each row, first row first.
    spec fn fetched(table: EntityTable) -> Seq<Self::Item>;

    /// In a table that has the required types there is one item for each row.
    proof fn fetched_each_row(table: EntityTable)
        requires
            table.wf(),
            Self::required().subset_of(table.spec_types().to_set()),
        ensures
            Self::fetched(table).len() == table.rows(),
    ;

    /// The items of `table`. The table has to hold every required component type.
    fn get_data(table: &'a EntityTable) -> (r: Vec<Self::Item>)
        requires
            table.wf(),
            Self::required().subset_of(table.spec_types().to_set()),
        ensures
            r@ == Self::fetched(*table),
    ;
}

impl<'a, T: Component> TQueryItem<'a> for &'a T {
    type Item = &'a T;

    open spec fn fetched(table: EntityTable) -> Seq<Self::Item> {
        Seq::new(table.rows(), |row: int| &T::restored(table.column_of(T::spec_type_id())[row]))
    }

    proof fn fetched_each_row(table: EntityTable) {
    }

    fn get_data(table: &'a EntityTable) -> (r: Vec<Self::Item>) {
        proof {
            assert(Self::required().contains(T::spec_type_id()));
            assert(table.spec_types().to_set().contains(T::spec_type_id()));
        }
        let data = table.get::<T>();
        proof {
            assert forall|row: int| 0 <= row < data@.len() implies data@[row] == Self::fetched(*table)[row] by {
                (*data@[row]).restored_inverts_erased();
            }
            assert(data@ =~= Self::fetched(*table));
        }
        data
    }
}

impl<'a, A: TQueryItem<'a>, B: TQueryItem<'a>> TQueryItem<'a> for (A, B) {
    type Item = (A::Item, B::Item);

    open spec fn fetched(table: EntityTable) -> Seq<Self::Item> {
        Seq::new(table.rows(), |row: int| (A::fetched(table)[row], B::fetched(table)[row]))
    }

    proof fn fetched_each_row(table: EntityTable) {
    }

    fn get_data(table: &'a EntityTable) -> (r: Vec<Self::Item>) {
        proof {
            assert(A::required().subset_of(Self::required()));
            assert(B::required().subset_of(Self::required()));
            A::fetched_each_row(*table);
            B::fetched_each_row(*table);
        }
        let pairs = zip(A::get_data(table), B::get_data(table));
        proof {
            assert(pairs@ =~= Self::fetched(*table));
        }
        pairs
    }
}

/// What a query with the required key `key` yields over `tables`: the items of each
/// table whose key holds `key`, table after table in the order of `tables`.
pub open spec fn query_results<'a, Q: TQueryItem<'a>>(tables: Seq<EntityTable>, key: Set<usize>) -> Seq<
    Q::Item,
>
    decreases tables.len(),
{
    if tables.len() == 0 {
        Seq::empty()
    } else {
        let earlier = query_results::<Q>(tables.drop_last(), key);
        if key.subset_of(tables.last().spec_key()) {
            earlier + Q::fetched(tables.last())
        } else {
            earlier
        }
    }
}

/// A query that is ready to run on a world.
pub struct QueryInit<'world, Q> {
    world: &'world World,
    _marker: PhantomData<Q>,
}

impl<'world, Q: TQueryItem<'world>> QueryInit<'world, Q> {
    /// The world that the query will run on.
    pub closed spec fn spec_world(&self) -> World {
        *self.world
    }

    /// The query `Q`, ready to run on `world`.
    pub fn new(world: &'world World) -> (r: Self)
        ensures
            r.spec_world() == *world,
    {
        Self { world, _marker: PhantomData }
    }

    /// Runs the query: walks the tables in their order and, in each table that holds
    /// every required component type, the rows in their order.
    pub fn execute(self) -> (r: Vec<Q::Item>)
        requires
            self.spec_world().wf(),
        ensures
            r@ == self.spec_world().spec_query::<Q>(),
    {
        let tables = self.world.tables();
        let type_id_index = self.world.type_id_index();
        proof {
            assert(registered(type_id_index@, Q::required()));
        }
        let component_keys = Q::get_key(type_id_index.as_slice());
        let ghost key = bits(component_keys);
        let mut items: Vec<Q::Item> = Vec::new();
        let mut index: usize = 0;
        while index < tables.len()
            invariant
                self.spec_world().wf(),
                tables@ == self.spec_world().spec_tables(),
                type_id_index@ == self.spec_world().spec_registry(),
                key == bits(component_keys),
                key == key_of(type_id_index@, Q::required()),
                index <= tables@.len(),
                items@ == query_results::<Q>(tables@.subrange(0, index as int), key),
            decreases tables@.len() - index,
        {
            let table = &tables[index];
            proof {
                let upto = tables@.subrange(0, index + 1);
                assert(upto.drop_last() =~= tables@.subrange(0, index as int));
                assert(upto.last() == *table);
                lemma_key_of_subset(type_id_index@, Q::required(), table.spec_types().to_set());
            }
            if table.has_signature(&component_keys) {
                let mut data = Q::get_data(table);
                items.append(&mut data);
            }
            index = index + 1;
        }
        proof {
            assert(tables@.subrange(0, tables@.len() as int) =~= tables@);
        }
        items
    }
}

} // verus!
