use vstd::prelude::*;
use std::collections::HashMap;
use crate::storage::component::{Component, TypeId, TypeInfo, Value};
use crate::storage::query::{query_results, QueryInit, TQueryItem, TTableKey};
use crate::storage::signature::{
    bits, key_of, lemma_key_of_empty, lemma_key_of_injective, lemma_key_of_push, lemma_key_of_subset, registered,
    Signature,
};
use crate::storage::table::{
    component_map, ids_of, is_first_row, lemma_component_map_add, lemma_component_map_filter,
    lemma_first_row, lemma_index_of, lemma_index_of_contained, made_of, of_other_type, row_added,
    same_but_column,
    types_of, value_of_type, EntityTable,
};

verus! {

broadcast use vstd::std_specs::hash::group_hash_axioms;

/// The handle of a table.
#[derive(Eq, PartialEq, Structural, Hash, Copy, Clone, Debug)]
pub enum TableId {
    Value(u64),
}

/// Hands out table handles: 0, 1, 2 and so on.
#[derive(Eq, PartialEq, Structural, Hash, Copy, Clone, Debug)]
pub struct TableIdGen {
    current: u64,
}

impl TableIdGen {
    /// The number the next handle will carry.
    pub closed spec fn spec_current(&self) -> u64 {
        self.current
    }

    /// A generator that has handed out nothing yet.
    pub fn new() -> (r: Self)
        ensures
            r.spec_current() == 0,
    {
        TableIdGen { current: 0 }
    }

    /// A handle that was not handed out before.
    pub fn next(&mut self) -> (r: TableId)
        requires
            old(self).spec_current() < u64::MAX,
        ensures
            r == TableId::Value(old(self).spec_current()),
            final(self).spec_current() == old(self).spec_current() + 1,
    {
        let result = self.current;
        self.current += 1;
        TableId::Value(result)
    }
}

impl Default for TableIdGen {
    /// A generator that has handed out nothing yet.
    fn default() -> (r: Self)
        ensures
            r.spec_current() == 0,
    {
        TableIdGen::new()
    }
}

/// The identifier of an entity.
#[derive(Eq, PartialEq, Structural, Hash, Copy, Clone, Debug)]
pub enum EntityId {
    Value(u64),
}

/// Hands out entity identifiers: 0, 1, 2 and so on. None comes twice.
#[derive(Eq, PartialEq, Structural, Hash, Copy, Clone, Debug)]
pub struct EntityIdGen {
    current: u64,
}

impl EntityIdGen {
    /// The number the next identifier will carry.
    pub closed spec fn spec_current(&self) -> u64 {
        self.current
    }

    /// A generator that has handed out nothing yet.
    pub fn new() -> (r: Self)
        ensures
            r.spec_current() == 0,
    {
        EntityIdGen { current: 0 }
    }

    /// An identifier that was not handed out before.
    pub fn next(&mut self) -> (r: EntityId)
        requires
            old(self).spec_current() < u64::MAX,
        ensures
            r == EntityId::Value(old(self).spec_current()),
            final(self).spec_current() == old(self).spec_current() + 1,
    {
        let result = self.current;
        self.current += 1;
        EntityId::Value(result)
    }
}

impl Default for EntityIdGen {
    /// A generator that has handed out nothing yet.
    fn default() -> (r: Self)
        ensures
            r.spec_current() == 0,
    {
        EntityIdGen::new()
    }
}

/// The component types that a world knows from the start, in the order of their bits.
pub fn gen_typeid_map() -> (r: Vec<TypeId>)
    ensures
        r@ == seq![
            TypeId::I8,
            TypeId::I16,
            TypeId::I32,
            TypeId::I64,
            TypeId::I128,
            TypeId::Isize,
            TypeId::U8,
            TypeId::U16,
            TypeId::U32,
            TypeId::U64,
            TypeId::U128,
            TypeId::Usize,
            TypeId::Bool,
            TypeId::Char,
            TypeId::String,
            TypeId::Str,
        ],
        forall|id: TypeId| r@.contains(id),
{
    let map = vec![
        TypeId::I8,
        TypeId::I16,
        TypeId::I32,
        TypeId::I64,
        TypeId::I128,
        TypeId::Isize,
        TypeId::U8,
        TypeId::U16,
        TypeId::U32,
        TypeId::U64,
        TypeId::U128,
        TypeId::Usize,
        TypeId::Bool,
        TypeId::Char,
        TypeId::String,
        TypeId::Str,
    ];
    proof {
        assert forall|id: TypeId| map@.contains(id) by {
            assert(map@[id.spec_rank() as int] == id);
        }
    }
    map
}

/// The component types of `components`, as a set.
pub open spec fn type_set(components: Seq<Value>) -> Set<TypeId> {
    types_of(components).to_set()
}

/// The place in the table list that a handle stands for.
pub open spec fn table_index(id: TableId) -> int {
    id->0 as int
}

/// The component types of the first `n` values of `components` are those of the whole
/// list up to there, and one more value adds its type.
pub proof fn lemma_type_set_step(components: Seq<Value>, n: int)
    requires
        0 <= n < components.len(),
    ensures
        type_set(components.subrange(0, n + 1)) == type_set(components.subrange(0, n)).insert(
            components[n].spec_type_id(),
        ),
        type_set(components.subrange(0, 0)) == Set::<TypeId>::empty(),
        type_set(components.subrange(0, components.len() as int)) == type_set(components),
{
    let shorter = types_of(components.subrange(0, n));
    let longer = types_of(components.subrange(0, n + 1));
    let added = components[n].spec_type_id();
    assert forall|id: TypeId| longer.to_set().contains(id) implies shorter.to_set().insert(added).contains(id) by {
        let j = choose|j: int| 0 <= j < longer.len() && longer[j] == id;
        if j < n {
            assert(shorter[j] == id);
        }
    }
    assert forall|id: TypeId| shorter.to_set().insert(added).contains(id) implies longer.to_set().contains(id) by {
        if id == added {
            assert(longer[n] == id);
        } else {
            let j = choose|j: int| 0 <= j < shorter.len() && shorter[j] == id;
            assert(longer[j] == id);
        }
    }
    assert(longer.to_set() =~= shorter.to_set().insert(added));
    assert(type_set(components.subrange(0, 0)) =~= Set::<TypeId>::empty());
    assert(components.subrange(0, components.len() as int) =~= components);
}

/// The key of `entity`: the bit of the type of each of its values.
fn entity_key(type_map: &[TypeId], entity: &Vec<Value>) -> (r: Signature)
    requires
        forall|id: TypeId| #[trigger] type_map@.contains(id),
    ensures
        r.stands_for(type_map@, type_set(entity@)),
{
    let mut bit_set = Signature::new();
    let mut index: usize = 0;
    proof {
        lemma_key_of_empty(type_map@);
        if entity@.len() > 0 {
            lemma_type_set_step(entity@, 0);
        } else {
            assert(type_set(entity@.subrange(0, 0)) =~= Set::<TypeId>::empty());
        }
    }
    while index < entity.len()
        invariant
            index <= entity@.len(),
            forall|id: TypeId| #[trigger] type_map@.contains(id),
            bit_set.stands_for(type_map@, type_set(entity@.subrange(0, index as int))),
        decreases entity@.len() - index,
    {
        let id = entity[index].type_info().id;
        proof {
            lemma_type_set_step(entity@, index as int);
        }
        let fresh = bit_set.insert(type_map, id);
        index = index + 1;
    }
    proof {
        assert(entity@.subrange(0, entity@.len() as int) =~= entity@);
    }
    bit_set
}

/// The descriptor of the type of each value of `entity`, in their order.
fn entity_infos(entity: &Vec<Value>) -> (r: Vec<TypeInfo>)
    ensures
        ids_of(r@) == types_of(entity@),
{
    let mut infos: Vec<TypeInfo> = Vec::new();
    let mut index: usize = 0;
    while index < entity.len()
        invariant
            index <= entity@.len(),
            infos@.len() == index,
            forall|k: int| 0 <= k < index ==> (#[trigger] infos@[k]).id == entity@[k].spec_type_id(),
        decreases entity@.len() - index,
    {
        infos.push(entity[index].type_info());
        index = index + 1;
    }
    proof {
        assert(ids_of(infos@) =~= types_of(entity@));
    }
    infos
}

/// Whether one of `infos` describes the type `id`.
fn describes_type(infos: &Vec<TypeInfo>, id: TypeId) -> (r: bool)
    ensures
        r == ids_of(infos@).contains(id),
{
    let mut index: usize = 0;
    while index < infos.len()
        invariant
            index <= infos@.len(),
            forall|j: int| 0 <= j < index ==> ids_of(infos@)[j] != id,
        decreases infos@.len() - index,
    {
        if infos[index].id == id {
            assert(ids_of(infos@)[index as int] == id);
            return true;
        }
        index = index + 1;
    }
    false
}

/// The values of `components` that are of none of the types that `comp_to_remove`
/// describes, in their order.
fn without_types(components: Vec<Value>, comp_to_remove: &Vec<TypeInfo>) -> (r: Vec<Value>)
    ensures
        r@ == components@.filter(of_other_type(ids_of(comp_to_remove@))),
{
    let ghost all = components@;
    let ghost keep = of_other_type(ids_of(comp_to_remove@));
    let mut rest = components;
    let mut kept: Vec<Value> = Vec::new();
    proof {
        reveal(Seq::filter);
        assert(all.subrange(0, 0).filter(keep) =~= Seq::<Value>::empty());
    }
    while rest.len() > 0
        invariant
            keep == of_other_type(ids_of(comp_to_remove@)),
            rest@.len() <= all.len(),
            rest@ == all.subrange(all.len() - rest@.len(), all.len() as int),
            kept@ == all.subrange(0, all.len() - rest@.len()).filter(keep),
        decreases rest@.len(),
    {
        let ghost done = all.len() - rest@.len();
        let component = rest.remove(0);
        let info = component.type_info();
        proof {
            reveal(Seq::filter);
            assert(component == all[done]);
            assert(all.subrange(0, done + 1).drop_last() =~= all.subrange(0, done));
            assert(rest@ =~= all.subrange(done + 1, all.len() as int));
        }
        if !describes_type(comp_to_remove, info.id) {
            kept.push(component);
        }
    }
    proof {
        assert(all.subrange(0, all.len() as int) =~= all);
    }
    kept
}

/// How many items a query with the required key `key` yields over the first `i` of
/// `tables`.
pub open spec fn results_before<'a, Q: TQueryItem<'a>>(tables: Seq<EntityTable>, key: Set<usize>, i: int) -> int {
    query_results::<Q>(tables.subrange(0, i), key).len() as int
}

/// What `spawn` leaves behind. The row of `entity`, made of `components`, stands at the
/// end of the table that is known under the key of their types; where there was no such
/// table, a new one stands at the end of the table list, with one column for each value
/// in the order of `components`. Nothing else has changed.
pub open spec fn spawned(before: World, after: World, components: Seq<Value>, entity: EntityId) -> bool {
    let key = key_of(before.spec_registry(), type_set(components));
    let target = match before.find_table(key) {
        Some(i) => i,
        None => before.spec_tables().len() as int,
    };
    &&& after.spec_registry() == before.spec_registry()
    &&& after.spec_locations() == before.spec_locations().insert(entity->0, TableId::Value(target as u64))
    &&& before.find_table(key) is Some ==> {
        &&& after.spec_tables() == before.spec_tables().update(target, after.table(target))
        &&& row_added(before.table(target), after.table(target), components, entity)
    }
    &&& before.find_table(key) is None ==> {
        &&& after.spec_tables() == before.spec_tables().push(after.table(target))
        &&& after.table(target).spec_key() == key
        &&& made_of(after.table(target), components, entity)
    }
}

/// The registry is short enough for its places to be bit positions, and every component
/// type has a bit. Every table is well formed, is known under the key of its own
/// component types and shares that key with no other table. Every entity that has a
/// place owns exactly one row, in the table that its place names, and carries a number
/// below `next`.
pub open spec fn world_inv(
    tables: Seq<EntityTable>,
    locations: Map<u64, TableId>,
    registry: Seq<TypeId>,
    next: u64,
) -> bool {
    &&& registry.len() <= usize::MAX
    &&& tables.len() <= usize::MAX
    &&& forall|id: TypeId| #[trigger] registry.contains(id)
    &&& forall|i: int|
        0 <= i < tables.len() ==> (#[trigger] tables[i]).wf() && tables[i].spec_key() == key_of(
            registry,
            tables[i].spec_types().to_set(),
        ) && tables[i].spec_entities().no_duplicates()
    &&& forall|i: int, j: int|
        0 <= i < tables.len() && 0 <= j < tables.len() && i != j ==> (#[trigger] tables[i]).spec_key() != (
        #[trigger] tables[j]).spec_key()
    &&& forall|number: u64| #[trigger]
        locations.contains_key(number) ==> {
            &&& 0 <= table_index(locations[number]) < tables.len()
            &&& tables[table_index(locations[number])].spec_entities().contains(EntityId::Value(number))
            &&& number < next
        }
    &&& forall|i: int, row: int|
        0 <= i < tables.len() && 0 <= row < tables[i].rows() ==> locations.contains_key(
            (#[trigger] tables[i].spec_entities()[row])->0,
        ) && locations[tables[i].spec_entities()[row]->0] == TableId::Value(i as u64)
}

/// All tables, all entities and the place of each entity. An entity lives in the table
/// whose component types are exactly those of the entity.
pub struct World {
    table_id_gen: TableIdGen,
    entity_id_gen: EntityIdGen,
    type_id_index: Vec<TypeId>,
    entity_id_to_table_id: HashMap<u64, TableId>,
    tables: Vec<EntityTable>,
}

impl World {
    /// The tables, in the order in which they were made. A table's handle is its place.
    pub closed spec fn spec_tables(&self) -> Seq<EntityTable> {
        self.tables@
    }

    /// The table at place `i`.
    pub open spec fn table(&self, i: int) -> EntityTable {
        self.spec_tables()[i]
    }

    /// The table handle of each entity that the world holds, by the entity's number.
    pub closed spec fn spec_locations(&self) -> Map<u64, TableId> {
        self.entity_id_to_table_id@
    }

    /// The handle of the table in which `entity` lives, or `None` for an entity that the
    /// world does not hold.
    pub open spec fn location(&self, entity: EntityId) -> Option<TableId> {
        if self.spec_locations().contains_key(entity->0) {
            Some(self.spec_locations()[entity->0])
        } else {
            None
        }
    }

    /// The component types that have a bit, in the order of their bits.
    pub closed spec fn spec_registry(&self) -> Seq<TypeId> {
        self.type_id_index@
    }

    /// The number that the next fresh entity identifier will carry.
    pub closed spec fn spec_next_entity(&self) -> u64 {
        self.entity_id_gen.spec_current()
    }

    /// Whether the world holds `entity`.
    pub open spec fn is_live(&self, entity: EntityId) -> bool {
        self.location(entity) is Some
    }

    /// The table in which `entity` lives.
    pub open spec fn home(&self, entity: EntityId) -> EntityTable {
        self.table(table_index(self.location(entity)->0))
    }

    /// The component types of `entity`.
    pub open spec fn types_of_entity(&self, entity: EntityId) -> Set<TypeId> {
        self.home(entity).spec_types().to_set()
    }

    /// The component values of `entity`, each under its type.
    pub open spec fn components_of(&self, entity: EntityId) -> Map<TypeId, Value> {
        self.home(entity).values_of(entity)
    }

    /// The world as a map: each entity that it holds, with its component values.
    pub open spec fn view(&self) -> Map<EntityId, Map<TypeId, Value>> {
        Map::new(|entity: EntityId| self.is_live(entity), |entity: EntityId| self.components_of(entity))
    }

    /// The place of the table whose key holds the bits `key`, if there is one.
    pub open spec fn find_table(&self, key: Set<usize>) -> Option<int> {
        if exists|i: int| 0 <= i < self.spec_tables().len() && (#[trigger] self.table(i)).spec_key() == key {
            Some(choose|i: int| 0 <= i < self.spec_tables().len() && (#[trigger] self.table(i)).spec_key() == key)
        } else {
            None
        }
    }

    /// The next table handle is the number of tables.
    pub closed spec fn counters_agree(&self) -> bool {
        self.table_id_gen.spec_current() == self.tables@.len()
    }

    /// The world's parts fit together: see `world_inv`.
    pub open spec fn wf(&self) -> bool {
        &&& self.counters_agree()
        &&& world_inv(self.spec_tables(), self.spec_locations(), self.spec_registry(), self.spec_next_entity())
    }

    /// A world without tables and without entities, in which every component type has
    /// its bit.
    pub fn new() -> (r: Self)
        ensures
            r.wf(),
            r.spec_tables().len() == 0,
            forall|entity: EntityId| !r.is_live(entity),
            r@ == Map::<EntityId, Map<TypeId, Value>>::empty(),
            r.spec_next_entity() == 0,
    {
        World {
            table_id_gen: TableIdGen::new(),
            entity_id_gen: EntityIdGen::new(),
            type_id_index: gen_typeid_map(),
            entity_id_to_table_id: HashMap::new(),
            tables: Vec::new(),
        }
    }

    /// Gives the component type `T` one more place at the end of the registry. The bit
    /// of a type is its first place, so no key changes.
    pub fn register_component<T: Component>(&mut self)
        requires
            old(self).wf(),
        ensures
            final(self).wf(),
            final(self).spec_registry() == old(self).spec_registry().push(T::spec_type_id()),
            final(self).spec_tables() == old(self).spec_tables(),
            final(self).spec_next_entity() == old(self).spec_next_entity(),
            final(self).spec_locations() == old(self).spec_locations(),
    {
        let id = T::type_id();
        self.type_id_index.push(id);
        let places = self.type_id_index.len();
        proof {
            let before = old(self).spec_registry();
            assert forall|t: TypeId| #[trigger] self.spec_registry().contains(t) by {
                assert(before.contains(t));
                let p = choose|p: int| 0 <= p < before.len() && before[p] == t;
                assert(self.spec_registry()[p] == t);
            }
            assert forall|i: int| 0 <= i < self.tables@.len() implies (#[trigger] self.tables@[i]).spec_key()
                == key_of(self.spec_registry(), self.tables@[i].spec_types().to_set()) by {
                lemma_key_of_push(before, id, self.tables@[i].spec_types().to_set());
            }
        }
    }

    /// The place of the table that is known under `key`, or `None` where there is none.
    pub fn find_table_index(&self, key: &Signature) -> (r: Option<usize>)
        requires
            self.wf(),
        ensures
            r == match self.find_table(bits(*key)) {
                Some(i) => Some(i as usize),
                None => None,
            },
            r is Some ==> r->0 < self.spec_tables().len() && self.table(r->0 as int).spec_key() == bits(*key),
    {
        let mut index: usize = 0;
        while index < self.tables.len()
            invariant
                self.wf(),
                index <= self.tables@.len(),
                forall|j: int| 0 <= j < index ==> (#[trigger] self.table(j)).spec_key() != bits(*key),
            decreases self.tables@.len() - index,
        {
            if self.tables[index].id().same_as(key) {
                proof {
                    assert(self.table(index as int).spec_key() == bits(*key));
                    let found = self.find_table(bits(*key))->0;
                    assert(self.table(found).spec_key() == bits(*key));
                }
                return Some(index);
            }
            index = index + 1;
        }
        None
    }

    /// In a well-formed world the key of a set of component types names the one table
    /// that holds exactly these types.
    pub proof fn lemma_table_fits(&self, components: Seq<Value>, i: int)
        requires
            self.wf(),
            types_of(components).no_duplicates(),
            0 <= i < self.spec_tables().len(),
            self.table(i).spec_key() == key_of(self.spec_registry(), type_set(components)),
        ensures
            self.table(i).fits(components),
            self.find_table(key_of(self.spec_registry(), type_set(components))) == Some(i),
    {
        let registry = self.spec_registry();
        assert(registered(registry, self.table(i).spec_types().to_set()));
        assert(registered(registry, type_set(components)));
        lemma_key_of_injective(registry, self.table(i).spec_types().to_set(), type_set(components));
    }

    /// Seen as a map, spawning adds one entry and changes no other.
    pub proof fn lemma_spawned_view(before: World, after: World, components: Seq<Value>, entity: EntityId)
        requires
            before.wf(),
            types_of(components).no_duplicates(),
            !before.is_live(entity),
            spawned(before, after, components, entity),
        ensures
            after@ == before@.insert(entity, component_map(components)),
            after.types_of_entity(entity) == type_set(components),
    {
        let key = key_of(before.spec_registry(), type_set(components));
        let tables = before.spec_tables();
        assert forall|i: int, row: int| 0 <= i < tables.len() && 0 <= row < tables[i].rows() implies (
        #[trigger] tables[i].spec_entities()[row]) != entity by {
            assert(before.spec_locations().contains_key(tables[i].spec_entities()[row]->0));
        }
        let target = match before.find_table(key) {
            Some(i) => i,
            None => tables.len() as int,
        };
        let landed = after.table(target);
        if before.find_table(key) is Some {
            before.lemma_table_fits(components, target);
            EntityTable::lemma_row_added_values(tables[target], landed, components, entity);
        } else {
            assert(landed.spec_entities()[0] == entity);
            assert(is_first_row(landed.spec_entities(), entity, 0));
            lemma_first_row(landed.spec_entities(), entity, 0);
            assert forall|id: TypeId| types_of(components).contains(id) implies landed.column_of(id)[0]
                == value_of_type(components, id) by {
                lemma_index_of_contained(types_of(components), id);
                let k = types_of(components).index_of(id);
                assert(landed.spec_column(k) == seq![components[k]]);
            }
            assert(landed.values_of(entity) =~= component_map(components));
        }
        assert(after.is_live(entity) && after.home(entity) == landed);
        assert forall|other: EntityId| other != entity && before.is_live(other) implies after.components_of(other)
            == before.components_of(other) by {
            let home = table_index(before.location(other)->0);
            assert(before.spec_locations().contains_key(other->0));
            assert(after.location(other) == before.location(other));
            if home != target {
                assert(after.table(home) == before.table(home));
            }
        }
        assert(after@ =~= before@.insert(entity, component_map(components)));
    }

    /// Puts a new entity made of `entity` into the world and returns its identifier:
    /// `entity_id` where one is given, a fresh one otherwise. The values must be of
    /// different types. An identifier that is given must have come from this world and
    /// belong to no entity that the world holds.
    pub fn spawn(&mut self, entity: Vec<Value>, entity_id: Option<EntityId>) -> (r: EntityId)
        requires
            old(self).wf(),
            types_of(entity@).no_duplicates(),
            match entity_id {
                Some(id) => !old(self).is_live(id) && id->0 < old(self).spec_next_entity(),
                None => old(self).spec_next_entity() < u64::MAX,
            },
        ensures
            final(self).wf(),
            r == match entity_id {
                Some(id) => id,
                None => EntityId::Value(old(self).spec_next_entity()),
            },
            final(self).spec_next_entity() == if entity_id is None {
                old(self).spec_next_entity() + 1
            } else {
                old(self).spec_next_entity() as int
            },
            spawned(*old(self), *final(self), entity@, r),
            final(self)@ == old(self)@.insert(r, component_map(entity@)),
            final(self).types_of_entity(r) == type_set(entity@),
    {
        let table_key = entity_key(self.type_id_index.as_slice(), &entity);
        let found = self.find_table_index(&table_key);
        let new_entity_id = match entity_id {
            Some(id) => id,
            None => self.entity_id_gen.next(),
        };
        let EntityId::Value(number) = new_entity_id;
        let ghost registry = self.spec_registry();
        let ghost before = self.tables@;
        proof {
            assert forall|i: int, row: int| 0 <= i < before.len() && 0 <= row < before[i].rows() implies (
            #[trigger] before[i].spec_entities()[row]) != new_entity_id by {
                assert(old(self).spec_locations().contains_key(before[i].spec_entities()[row]->0));
            }
        }
        match found {
            Some(index) => {
                proof {
                    let table = self.tables@[index as int];
                    assert(registered(registry, table.spec_types().to_set()));
                    assert(registered(registry, type_set(entity@)));
                    lemma_key_of_injective(registry, table.spec_types().to_set(), type_set(entity@));
                }
                self.tables[index].add_entity(entity, new_entity_id);
                let previous = self.entity_id_to_table_id.insert(number, TableId::Value(index as u64));
                proof {
                    let after = self.tables@;
                    assert(after == before.update(index as int, after[index as int]));
                    let grown = after[index as int].spec_entities();
                    assert(grown == before[index as int].spec_entities().push(new_entity_id));
                    assert forall|i: int, j: int| 0 <= i < after.len() && 0 <= j < after.len() && i != j implies (
                    #[trigger] after[i]).spec_key() != (#[trigger] after[j]).spec_key() by {
                        assert(before[i].spec_key() == after[i].spec_key());
                        assert(before[j].spec_key() == after[j].spec_key());
                    }
                    assert forall|other: u64| #[trigger]
                        self.spec_locations().contains_key(other) implies after[table_index(
                        self.spec_locations()[other],
                    )].spec_entities().contains(EntityId::Value(other)) by {
                        if other == number {
                            assert(grown[grown.len() - 1] == new_entity_id);
                        } else {
                            let home = table_index(old(self).spec_locations()[other]);
                            let row = choose|row: int|
                                0 <= row < before[home].spec_entities().len() && before[home].spec_entities()[row]
                                    == EntityId::Value(other);
                            assert(after[home].spec_entities()[row] == EntityId::Value(other));
                        }
                    }
                }
            },
            None => {
                let infos = entity_infos(&entity);
                let ghost components = entity@;
                let mut table = EntityTable::new(infos, table_key);
                proof {
                    assert(table.spec_types() =~= types_of(components));
                    assert forall|k: int| 0 <= k < table.spec_types().len() implies (#[trigger] table.spec_column(
                        k,
                    )) =~= Seq::<Value>::empty() by {}
                }
                table.add_entity(entity, new_entity_id);
                proof {
                    assert(table.spec_entities() =~= seq![new_entity_id]);
                    assert forall|k: int| 0 <= k < components.len() implies #[trigger] table.spec_column(k)
                        == seq![components[k]] by {
                        lemma_index_of(types_of(components), k);
                        assert(table.spec_column(k) =~= seq![components[k]]);
                    }
                }
                self.tables.push(table);
                let count = self.tables.len();
                let new_table_id = self.table_id_gen.next();
                let previous = self.entity_id_to_table_id.insert(number, new_table_id);
                proof {
                    let after = self.tables@;
                    let last = before.len() as int;
                    assert(after[last].spec_entities()[0] == new_entity_id);
                    assert forall|i: int, j: int| 0 <= i < after.len() && 0 <= j < after.len() && i != j implies (
                    #[trigger] after[i]).spec_key() != (#[trigger] after[j]).spec_key() by {
                        if i < last {
                            assert(old(self).table(i).spec_key() == after[i].spec_key());
                        }
                        if j < last {
                            assert(old(self).table(j).spec_key() == after[j].spec_key());
                        }
                    }
                    assert forall|other: u64| #[trigger]
                        self.spec_locations().contains_key(other) implies after[table_index(
                        self.spec_locations()[other],
                    )].spec_entities().contains(EntityId::Value(other)) by {
                        if other != number {
                            let home = table_index(old(self).spec_locations()[other]);
                            assert(after[home] == before[home]);
                        }
                    }
                }
            },
        }
        proof {
            Self::lemma_spawned_view(*old(self), *self, entity@, new_entity_id);
        }
        new_entity_id
    }

    /// Takes `entity` out of the world and hands its component values to the caller, in
    /// the order of the columns of its table. Returns `None`, and changes nothing, where
    /// the world does not hold `entity`.
    pub fn remove(&mut self, entity: EntityId) -> (r: Option<Vec<Value>>)
        requires
            old(self).wf(),
        ensures
            r is Some <==> old(self).is_live(entity),
            r is None ==> *final(self) == *old(self),
            r is Some ==> final(self).wf() && !final(self).is_live(entity) && final(self)@ == old(self)@.remove(
                entity,
            ) && types_of(r->0@).no_duplicates() && component_map(r->0@) == old(self)@[entity],
            final(self).spec_registry() == old(self).spec_registry(),
            final(self).spec_next_entity() == old(self).spec_next_entity(),
    {
        let EntityId::Value(number) = entity;
        let table_id = match self.entity_id_to_table_id.get(&number) {
            Some(id) => *id,
            None => {
                return None;
            },
        };
        let TableId::Value(raw) = table_id;
        assert(self.spec_locations().contains_key(number) && table_index(table_id) == raw);
        let index = raw as usize;
        let ghost before = self.tables@;
        let ghost home = before[index as int];
        assert(home.spec_entities().contains(entity));
        let gone = self.entity_id_to_table_id.remove(&number);
        let removed = self.tables[index].remove_entity(entity);
        proof {
            let after = self.tables@;
            let left = after[index as int];
            assert(after == before.update(index as int, left));
            EntityTable::lemma_row_removed_values(home, left, entity);
            home.lemma_removed_values(entity, removed->0@);
            assert forall|i: int, j: int| 0 <= i < after.len() && 0 <= j < after.len() && i != j implies (
            #[trigger] after[i]).spec_key() != (#[trigger] after[j]).spec_key() by {
                assert(before[i].spec_key() == after[i].spec_key());
                assert(before[j].spec_key() == after[j].spec_key());
            }
            assert forall|i: int| 0 <= i < after.len() implies (#[trigger] after[i]).wf() && after[i].spec_key()
                == key_of(self.spec_registry(), after[i].spec_types().to_set())
                && after[i].spec_entities().no_duplicates() by {
                assert(before[i].wf());
            }
            assert forall|other: u64| #[trigger]
                self.spec_locations().contains_key(other) implies after[table_index(
                self.spec_locations()[other],
            )].spec_entities().contains(EntityId::Value(other)) by {
                let place = table_index(old(self).spec_locations()[other]);
                assert(before[place].spec_entities().contains(EntityId::Value(other)));
            }
            assert forall|i: int, row: int| 0 <= i < after.len() && 0 <= row < after[i].rows() implies self.spec_locations().contains_key(
                (#[trigger] after[i].spec_entities()[row])->0,
            ) && self.spec_locations()[after[i].spec_entities()[row]->0] == TableId::Value(i as u64) by {
                let other = after[i].spec_entities()[row];
                assert(after[i].spec_entities().contains(other));
                if i == index {
                    assert(home.spec_entities().contains(other));
                    let was = choose|was: int| 0 <= was < home.spec_entities().len() && home.spec_entities()[was]
                        == other;
                    assert(old(self).spec_locations().contains_key(home.spec_entities()[was]->0));
                } else {
                    assert(before[i].spec_entities()[row] == other);
                }
            }
            assert forall|other: EntityId| other != entity && old(self).is_live(other) implies self.components_of(
                other,
            ) == old(self).components_of(other) by {
                let place = table_index(old(self).location(other)->0);
                assert(old(self).spec_locations().contains_key(other->0));
                assert(before[place].spec_entities().contains(other));
            }
            assert(self@ =~= old(self)@.remove(entity));
        }
        removed
    }

    /// Gives `entity` the values of `comp_to_add` besides those it has. The entity moves
    /// to the table of its new set of component types and keeps its identifier. Returns
    /// `None`, and changes nothing, where the world does not hold `entity`. The new
    /// values must be of different types, and of types that the entity does not have.
    pub fn add_components(&mut self, comp_to_add: Vec<Value>, entity: EntityId) -> (r: Option<EntityId>)
        requires
            old(self).wf(),
            old(self).is_live(entity) ==> types_of(comp_to_add@).no_duplicates() && forall|id: TypeId|
                types_of(comp_to_add@).contains(id) ==> !old(self).types_of_entity(entity).contains(id),
        ensures
            r == if old(self).is_live(entity) {
                Some(entity)
            } else {
                None
            },
            r is None ==> *final(self) == *old(self),
            r is Some ==> final(self).wf() && final(self)@ == old(self)@.insert(
                entity,
                old(self)@[entity].union_prefer_right(component_map(comp_to_add@)),
            ),
            r is Some ==> final(self).types_of_entity(entity) == old(self).types_of_entity(entity).union(
                type_set(comp_to_add@),
            ),
            final(self).spec_registry() == old(self).spec_registry(),
            final(self).spec_next_entity() == old(self).spec_next_entity(),
    {
        let ghost had = self.types_of_entity(entity);
        let ghost live = self.is_live(entity);
        proof {
            if live {
                assert(self.spec_locations().contains_key(entity->0));
            }
        }
        match self.remove(entity) {
            None => None,
            Some(removed) => {
                let ghost kept = removed@;
                let ghost added = comp_to_add@;
                let mut new_components = removed;
                let mut rest = comp_to_add;
                new_components.append(&mut rest);
                proof {
                    let whole = types_of(kept + added);
                    assert(component_map(kept).dom() =~= had);
                    assert forall|i: int, j: int| 0 <= i < whole.len() && 0 <= j < whole.len() && i != j implies whole[i]
                        != whole[j] by {
                        let split = kept.len() as int;
                        if i < split && j < split {
                            assert(types_of(kept)[i] == whole[i] && types_of(kept)[j] == whole[j]);
                        } else if i >= split && j >= split {
                            assert(types_of(added)[i - split] == whole[i] && types_of(added)[j - split] == whole[j]);
                        } else {
                            let inner = if i < split {
                                i
                            } else {
                                j
                            };
                            let outer = if i < split {
                                j
                            } else {
                                i
                            };
                            assert(types_of(kept)[inner] == whole[inner]);
                            assert(types_of(added)[outer - split] == whole[outer]);
                            assert(types_of(kept).contains(whole[inner]));
                            assert(types_of(added).contains(whole[outer]));
                            assert(component_map(kept).dom().contains(whole[inner]));
                        }
                    }
                    lemma_component_map_add(kept, added);
                    assert(old(self)@.remove(entity).insert(
                        entity,
                        old(self)@[entity].union_prefer_right(component_map(added)),
                    ) =~= old(self)@.insert(entity, old(self)@[entity].union_prefer_right(component_map(added))));
                    assert(type_set(kept + added) =~= component_map(kept + added).dom());
                    assert(type_set(added) =~= component_map(added).dom());
                    assert(type_set(kept + added) =~= had.union(type_set(added)));
                }
                let respawned = self.spawn(new_components, Some(entity));
                Some(respawned)
            },
        }
    }

    /// Takes from `entity` its values of the types in `comp_to_remove`. The entity moves
    /// to the table of the component types that are left and keeps its identifier.
    /// Returns `None`, and changes nothing, where the world does not hold `entity`.
    pub fn remove_components(&mut self, comp_to_remove: Vec<TypeInfo>, entity: EntityId) -> (r: Option<
        EntityId,
    >)
        requires
            old(self).wf(),
        ensures
            r == if old(self).is_live(entity) {
                Some(entity)
            } else {
                None
            },
            r is None ==> *final(self) == *old(self),
            r is Some ==> final(self).wf() && final(self)@ == old(self)@.insert(
                entity,
                old(self)@[entity].remove_keys(ids_of(comp_to_remove@).to_set()),
            ),
            r is Some ==> final(self).types_of_entity(entity) == old(self).types_of_entity(entity).difference(
                ids_of(comp_to_remove@).to_set(),
            ),
            final(self).spec_registry() == old(self).spec_registry(),
            final(self).spec_next_entity() == old(self).spec_next_entity(),
    {
        proof {
            if self.is_live(entity) {
                assert(self.spec_locations().contains_key(entity->0));
            }
        }
        let ghost had = self.types_of_entity(entity);
        match self.remove(entity) {
            None => None,
            Some(removed) => {
                let ghost all = removed@;
                let ghost ids = ids_of(comp_to_remove@);
                let new_components = without_types(removed, &comp_to_remove);
                proof {
                    lemma_component_map_filter(all, ids);
                    assert(old(self)@.remove(entity).insert(
                        entity,
                        old(self)@[entity].remove_keys(ids.to_set()),
                    ) =~= old(self)@.insert(entity, old(self)@[entity].remove_keys(ids.to_set())));
                    assert(component_map(all).dom() =~= had);
                    assert(type_set(new_components@) =~= component_map(new_components@).dom());
                    assert(type_set(new_components@) =~= had.difference(ids.to_set()));
                }
                let respawned = self.spawn(new_components, Some(entity));
                Some(respawned)
            },
        }
    }

    /// What the query `Q` yields on this world: see `query_results`.
    pub open spec fn spec_query<'a, Q: TQueryItem<'a>>(&self) -> Seq<Q::Item> {
        query_results::<Q>(self.spec_tables(), key_of(self.spec_registry(), Q::required()))
    }

    /// Whether the query `Q` visits the rows of the table at place `i`.
    pub open spec fn query_visits<'a, Q: TQueryItem<'a>>(&self, i: int) -> bool {
        Q::required().subset_of(self.table(i).spec_types().to_set())
    }

    /// The tables, in the order in which they were made.
    pub fn tables(&self) -> (r: &Vec<EntityTable>)
        ensures
            r@ == self.spec_tables(),
    {
        &self.tables
    }

    /// The component types that have a bit, in the order of their bits.
    pub fn type_id_index(&self) -> (r: &Vec<TypeId>)
        ensures
            r@ == self.spec_registry(),
    {
        &self.type_id_index
    }

    /// How many items the query `Q` yields before it comes to the table at place `i`.
    pub open spec fn query_offset<'a, Q: TQueryItem<'a>>(&self, i: int) -> int {
        results_before::<Q>(self.spec_tables(), key_of(self.spec_registry(), Q::required()), i)
    }

    /// Every value of the component type `T` for writing: the rows of each table that has
    /// a column for `T`, table after table and row after row, as the query for `&T`
    /// yields them. What the caller writes through an item becomes the value in its row.
    /// No row comes or goes and no other column changes.
    pub fn query_mut<'a, T: Component>(&'a mut self) -> (r: Vec<&'a mut T>)
        requires
            old(self).wf(),
        ensures
            r@.len() == old(self).spec_query::<&'a T>().len(),
            forall|j: int| 0 <= j < r@.len() ==> *(#[trigger] r@[j]) == *old(self).spec_query::<&'a T>()[j],
            final(self).wf(),
            final(self).spec_registry() == old(self).spec_registry(),
            final(self).spec_locations() == old(self).spec_locations(),
            final(self).spec_next_entity() == old(self).spec_next_entity(),
            final(self).spec_tables().len() == old(self).spec_tables().len(),
            forall|i: int|
                0 <= i < old(self).spec_tables().len() ==> same_but_column(
                    old(self).table(i),
                    #[trigger] final(self).table(i),
                    T::spec_type_id(),
                ),
            forall|i: int, row: int|
                0 <= i < old(self).spec_tables().len() && old(self).query_visits::<&'a T>(i) && 0 <= row < old(
                    self,
                ).table(i).rows() ==> (#[trigger] final(self).table(i).column_of(T::spec_type_id())[row])
                    == (*final(r@[old(self).query_offset::<&'a T>(i) + row])).erased(),
    {
        proof {
            assert(registered(self.spec_registry(), <&'a T as TTableKey>::required()));
        }
        let component_keys = <&'a T as TTableKey>::get_key(self.type_id_index.as_slice());
        let ghost id = T::spec_type_id();
        let ghost key = bits(component_keys);
        let ghost registry = self.spec_registry();
        let ghost before = self.tables@;
        let ghost end = final(self).tables@;
        let ghost total = before.len() as int;
        let whole = self.tables.as_mut_slice();
        let mut rest: &'a mut [EntityTable] = whole;
        let mut items: Vec<&'a mut T> = Vec::new();
        while rest.len() > 0
            invariant
                id == T::spec_type_id(),
                key == bits(component_keys),
                key == key_of(registry, <&'a T as TTableKey>::required()),
                registry.len() <= usize::MAX,
                forall|t: TypeId| #[trigger] registry.contains(t),
                total == before.len(),
                rest@.len() <= total,
                rest@ == before.subrange(total - rest@.len(), total),
                forall|i: int|
                    0 <= i < total ==> (#[trigger] before[i]).wf() && before[i].spec_key() == key_of(
                        registry,
                        before[i].spec_types().to_set(),
                    ),
                total - rest@.len() <= end.len(),
                end.subrange(total - rest@.len(), end.len() as int) == final(rest)@,
                items@.len() == query_results::<&'a T>(before.subrange(0, total - rest@.len()), key).len(),
                forall|j: int|
                    0 <= j < items@.len() ==> *(#[trigger] items@[j]) == *query_results::<&'a T>(
                        before.subrange(0, total - rest@.len()),
                        key,
                    )[j],
                forall|i: int|
                    0 <= i < total - rest@.len() ==> same_but_column(before[i], #[trigger] end[i], id),
                forall|i: int|
                    0 <= i < total - rest@.len() && key.subset_of((#[trigger] before[i]).spec_key())
                        ==> 0 <= results_before::<&'a T>(before, key, i) && results_before::<&'a T>(before, key, i)
                        + before[i].rows() <= items@.len(),
                forall|i: int, row: int|
                    0 <= i < total - rest@.len() && key.subset_of(before[i].spec_key()) && 0 <= row
                        < before[i].rows() ==> (#[trigger] end[i].column_of(id)[row])
                        == (*final(items@[results_before::<&'a T>(before, key, i) + row])).erased(),
            decreases rest@.len(),
        {
            let ghost done = total - rest@.len();
            let ghost earlier = items@;
            let both = rest;
            let (head, tail) = both.split_at_mut(1);
            let ghost head_end = final(head)@;
            let ghost tail_end = final(tail)@;
            rest = tail;
            proof {
                assert(end.subrange(done, end.len() as int) == head_end + tail_end);
                assert(head@[0] == before[done]);
                let upto = before.subrange(0, done + 1);
                assert(upto.drop_last() =~= before.subrange(0, done));
                assert(upto.last() == before[done]);
                lemma_key_of_subset(registry, <&'a T as TTableKey>::required(), before[done].spec_types().to_set());
            }
            match head.first_mut() {
                Some(table) => {
                    proof {
                        assert(head_end.len() == 1 && head_end[0] == *final(table));
                        assert((head_end + tail_end)[0] == head_end[0]);
                        assert(end.subrange(done, end.len() as int)[0] == end[done]);
                        let from_here = end.subrange(done, end.len() as int);
                        assert(from_here.len() == 1 + tail_end.len());
                        assert forall|j: int| 0 <= j < tail_end.len() implies end.subrange(
                            done + 1,
                            end.len() as int,
                        )[j] == tail_end[j] by {
                            assert(from_here[1 + j] == tail_end[j]);
                            assert(from_here[1 + j] == end[done + 1 + j]);
                        }
                        assert(end.subrange(done + 1, end.len() as int) =~= tail_end);
                    }
                    let ghost table_end = *final(table);
                    if table.has_signature(&component_keys) {
                        proof {
                            assert(<&'a T as TTableKey>::required().contains(id));
                            assert(before[done].spec_types().to_set().contains(id));
                        }
                        let mut data = table.get_mut::<T>();
                        proof {
                            assert forall|row: int| 0 <= row < data@.len() implies *(#[trigger] data@[row])
                                == *<&'a T as TQueryItem<'a>>::fetched(before[done])[row] by {
                                (*data@[row]).restored_inverts_erased();
                            }
                        }
                        let ghost fresh = data@;
                        items.append(&mut data);
                        proof {
                            assert forall|j: int| 0 <= j < earlier.len() implies items@[j] == earlier[j] by {}
                            assert forall|row: int| 0 <= row < fresh.len() implies items@[earlier.len() + row]
                                == fresh[row] by {}
                            assert(results_before::<&'a T>(before, key, done) == earlier.len());
                            let offset = results_before::<&'a T>(before, key, done);
                            assert forall|row: int| 0 <= row < before[done].rows() implies (
                            #[trigger] end[done].column_of(id)[row]) == (*final(items@[offset + row])).erased() by {
                                assert(table_end.column_of(id)[row] == (*final(fresh[row])).erased());
                            }
                        }
                    }
                },
                None => {},
            }
        }
        proof {
            assert(before.subrange(0, total) =~= before);
            assert forall|i: int| 0 <= i < total implies old(self).query_visits::<&'a T>(i) == key.subset_of(
                before[i].spec_key(),
            ) by {
                old(self).lemma_query_visits::<&'a T>(i);
            }
        }
        items
    }

    /// Every value of the component type `A`, for reading, beside the value of the
    /// component type `B` in the same row, for writing: the rows of each table that has
    /// columns for both, table after table and row after row, as the query for
    /// `(&A, &B)` yields them. The two types must differ. What the caller writes through
    /// the second part of an item becomes the value of `B` in its row. No row comes or
    /// goes and no other column changes.
    pub fn query_pair_mut<'a, A: Component, B: Component>(&'a mut self) -> (r: Vec<(&'a A, &'a mut B)>)
        requires
            old(self).wf(),
            A::spec_type_id() != B::spec_type_id(),
        ensures
            r@.len() == old(self).spec_query::<(&'a A, &'a B)>().len(),
            forall|j: int|
                0 <= j < r@.len() ==> *(#[trigger] r@[j]).0 == *old(self).spec_query::<(&'a A, &'a B)>()[j].0
                    && *r@[j].1 == *old(self).spec_query::<(&'a A, &'a B)>()[j].1,
            final(self).wf(),
            final(self).spec_registry() == old(self).spec_registry(),
            final(self).spec_locations() == old(self).spec_locations(),
            final(self).spec_next_entity() == old(self).spec_next_entity(),
            final(self).spec_tables().len() == old(self).spec_tables().len(),
            forall|i: int|
                0 <= i < old(self).spec_tables().len() ==> same_but_column(
                    old(self).table(i),
                    #[trigger] final(self).table(i),
                    B::spec_type_id(),
                ),
            forall|i: int, row: int|
                0 <= i < old(self).spec_tables().len() && old(self).query_visits::<(&'a A, &'a B)>(i) && 0 <= row < old(
                    self,
                ).table(i).rows() ==> (#[trigger] final(self).table(i).column_of(B::spec_type_id())[row])
                    == (*final(r@[old(self).query_offset::<(&'a A, &'a B)>(i) + row].1)).erased(),
    {
        proof {
            assert(registered(self.spec_registry(), <(&'a A, &'a B) as TTableKey>::required()));
        }
        let component_keys = <(&'a A, &'a B) as TTableKey>::get_key(self.type_id_index.as_slice());
        let ghost id = B::spec_type_id();
        let ghost key = bits(component_keys);
        let ghost registry = self.spec_registry();
        let ghost before = self.tables@;
        let ghost end = final(self).tables@;
        let ghost total = before.len() as int;
        let whole = self.tables.as_mut_slice();
        let mut rest: &'a mut [EntityTable] = whole;
        let mut items: Vec<(&'a A, &'a mut B)> = Vec::new();
        while rest.len() > 0
            invariant
                id == B::spec_type_id(),
                A::spec_type_id() != B::spec_type_id(),
                key == bits(component_keys),
                key == key_of(registry, <(&'a A, &'a B) as TTableKey>::required()),
                registry.len() <= usize::MAX,
                forall|t: TypeId| #[trigger] registry.contains(t),
                total == before.len(),
                rest@.len() <= total,
                rest@ == before.subrange(total - rest@.len(), total),
                forall|i: int|
                    0 <= i < total ==> (#[trigger] before[i]).wf() && before[i].spec_key() == key_of(
                        registry,
                        before[i].spec_types().to_set(),
                    ),
                total - rest@.len() <= end.len(),
                end.subrange(total - rest@.len(), end.len() as int) == final(rest)@,
                items@.len() == query_results::<(&'a A, &'a B)>(before.subrange(0, total - rest@.len()), key).len(),
                forall|j: int|
                    0 <= j < items@.len() ==> *(#[trigger] items@[j]).0 == *query_results::<(&'a A, &'a B)>(
                        before.subrange(0, total - rest@.len()),
                        key,
                    )[j].0 && *items@[j].1 == *query_results::<(&'a A, &'a B)>(
                        before.subrange(0, total - rest@.len()),
                        key,
                    )[j].1,
                forall|i: int|
                    0 <= i < total - rest@.len() ==> same_but_column(before[i], #[trigger] end[i], id),
                forall|i: int|
                    0 <= i < total - rest@.len() && key.subset_of((#[trigger] before[i]).spec_key())
                        ==> 0 <= results_before::<(&'a A, &'a B)>(before, key, i) && results_before::<(&'a A, &'a B)>(before, key, i)
                        + before[i].rows() <= items@.len(),
                forall|i: int, row: int|
                    0 <= i < total - rest@.len() && key.subset_of(before[i].spec_key()) && 0 <= row
                        < before[i].rows() ==> (#[trigger] end[i].column_of(id)[row])
                        == (*final(items@[results_before::<(&'a A, &'a B)>(before, key, i) + row].1)).erased(),
            decreases rest@.len(),
        {
            let ghost done = total - rest@.len();
            let ghost earlier = items@;
            let both = rest;
            let (head, tail) = both.split_at_mut(1);
            let ghost head_end = final(head)@;
            let ghost tail_end = final(tail)@;
            rest = tail;
            proof {
                assert(end.subrange(done, end.len() as int) == head_end + tail_end);
                assert(head@[0] == before[done]);
                let upto = before.subrange(0, done + 1);
                assert(upto.drop_last() =~= before.subrange(0, done));
                assert(upto.last() == before[done]);
                lemma_key_of_subset(registry, <(&'a A, &'a B) as TTableKey>::required(), before[done].spec_types().to_set());
            }
            match head.first_mut() {
                Some(table) => {
                    proof {
                        assert(head_end.len() == 1 && head_end[0] == *final(table));
                        assert((head_end + tail_end)[0] == head_end[0]);
                        assert(end.subrange(done, end.len() as int)[0] == end[done]);
                        let from_here = end.subrange(done, end.len() as int);
                        assert(from_here.len() == 1 + tail_end.len());
                        assert forall|j: int| 0 <= j < tail_end.len() implies end.subrange(
                            done + 1,
                            end.len() as int,
                        )[j] == tail_end[j] by {
                            assert(from_here[1 + j] == tail_end[j]);
                            assert(from_here[1 + j] == end[done + 1 + j]);
                        }
                        assert(end.subrange(done + 1, end.len() as int) =~= tail_end);
                    }
                    let ghost table_end = *final(table);
                    if table.has_signature(&component_keys) {
                        proof {
                            assert(<(&'a A, &'a B) as TTableKey>::required().contains(A::spec_type_id()));
                            assert(<(&'a A, &'a B) as TTableKey>::required().contains(id));
                            assert(before[done].spec_types().to_set().contains(A::spec_type_id()));
                            assert(before[done].spec_types().to_set().contains(id));
                        }
                        let mut data = table.get_pair_mut::<A, B>();
                        proof {
                            let shown = <(&'a A, &'a B) as TQueryItem<'a>>::fetched(before[done]);
                            assert forall|row: int| 0 <= row < data@.len() implies *(#[trigger] data@[row]).0
                                == *shown[row].0 && *data@[row].1 == *shown[row].1 by {
                                (*data@[row].0).restored_inverts_erased();
                                (*data@[row].1).restored_inverts_erased();
                            }
                        }
                        let ghost fresh = data@;
                        items.append(&mut data);
                        proof {
                            assert forall|j: int| 0 <= j < earlier.len() implies items@[j] == earlier[j] by {}
                            assert forall|row: int| 0 <= row < fresh.len() implies items@[earlier.len() + row]
                                == fresh[row] by {}
                            assert(results_before::<(&'a A, &'a B)>(before, key, done) == earlier.len());
                            let offset = results_before::<(&'a A, &'a B)>(before, key, done);
                            assert forall|row: int| 0 <= row < before[done].rows() implies (
                            #[trigger] end[done].column_of(id)[row]) == (*final(items@[offset + row].1)).erased() by {
                                assert(table_end.column_of(id)[row] == (*final(fresh[row].1)).erased());
                            }
                        }
                    }
                },
                None => {},
            }
        }
        proof {
            assert(before.subrange(0, total) =~= before);
            assert forall|i: int| 0 <= i < total implies old(self).query_visits::<(&'a A, &'a B)>(i) == key.subset_of(
                before[i].spec_key(),
            ) by {
                old(self).lemma_query_visits::<(&'a A, &'a B)>(i);
            }
        }
        items
    }

    /// The query `Q`, ready to run on this world.
    pub fn query<'world, Q: TQueryItem<'world>>(&'world self) -> (r: QueryInit<'world, Q>)
        ensures
            r.spec_world() == *self,
    {
        QueryInit::new(self)
    }

    /// Whether the query `Q` yields a row for `entity`: the world holds the entity, and
    /// the entity has every component type that the query requires.
    pub open spec fn query_includes<'a, Q: TQueryItem<'a>>(&self, entity: EntityId) -> bool {
        self.is_live(entity) && Q::required().subset_of(self.types_of_entity(entity))
    }

    /// The component types of an entity are the keys of its entry in the world's map.
    pub proof fn lemma_types_of_entity(&self, entity: EntityId)
        requires
            self.is_live(entity),
        ensures
            self@.dom().contains(entity),
            self@[entity].dom() == self.types_of_entity(entity),
    {
        assert(self@[entity].dom() =~= self.types_of_entity(entity));
    }

    /// A query walks the rows of a table exactly when the table has every component
    /// type that the query requires.
    pub proof fn lemma_query_visits<'a, Q: TQueryItem<'a>>(&self, i: int)
        requires
            self.wf(),
            0 <= i < self.spec_tables().len(),
        ensures
            key_of(self.spec_registry(), Q::required()).subset_of(self.table(i).spec_key())
                <==> self.query_visits::<Q>(i),
    {
        assert(registered(self.spec_registry(), Q::required()));
        assert(self.spec_tables()[i].wf());
        lemma_key_of_subset(self.spec_registry(), Q::required(), self.table(i).spec_types().to_set());
    }

    /// A query yields nothing where no table has every component type that it requires,
    /// and so on a world without tables.
    pub proof fn lemma_query_without_match_is_empty<'a, Q: TQueryItem<'a>>(&self)
        requires
            self.wf(),
            forall|i: int| 0 <= i < self.spec_tables().len() ==> !self.query_visits::<Q>(i),
        ensures
            self.spec_query::<Q>() == Seq::<Q::Item>::empty(),
    {
        let key = key_of(self.spec_registry(), Q::required());
        let tables = self.spec_tables();
        assert forall|i: int| 0 <= i < tables.len() implies !key.subset_of((#[trigger] tables[i]).spec_key()) by {
            self.lemma_query_visits::<Q>(i);
        }
        Self::lemma_no_match_no_results::<Q>(tables, key);
    }

    /// Tables of which none holds `key` give no results.
    pub proof fn lemma_no_match_no_results<'a, Q: TQueryItem<'a>>(tables: Seq<EntityTable>, key: Set<usize>)
        requires
            forall|i: int| 0 <= i < tables.len() ==> !key.subset_of((#[trigger] tables[i]).spec_key()),
        ensures
            query_results::<Q>(tables, key) == Seq::<Q::Item>::empty(),
        decreases tables.len(),
    {
        if tables.len() > 0 {
            let earlier = tables.drop_last();
            assert forall|i: int| 0 <= i < earlier.len() implies !key.subset_of((#[trigger] earlier[i]).spec_key()) by {
                assert(earlier[i] == tables[i]);
            }
            Self::lemma_no_match_no_results::<Q>(earlier, key);
            assert(!key.subset_of(tables[tables.len() - 1].spec_key()));
        }
    }

    /// What a query yields depends on the tables and the registry alone: asked again of
    /// a world in which neither has changed, it yields the same items in the same order.
    pub proof fn lemma_query_repeats<'a, Q: TQueryItem<'a>>(first: World, second: World)
        requires
            first.spec_tables() == second.spec_tables(),
            first.spec_registry() == second.spec_registry(),
        ensures
            first.spec_query::<Q>() == second.spec_query::<Q>(),
            first.spec_query::<Q>().len() == second.spec_query::<Q>().len(),
    {
    }

    /// After some component types were taken from an entity, the entity has exactly the
    /// types that are left. A query includes it as before if it requires none of the
    /// types that were taken, and no longer includes it if it requires one of them.
    pub proof fn lemma_remove_components_round_trip<'a, Q: TQueryItem<'a>>(
        before: World,
        after: World,
        entity: EntityId,
        taken: Set<TypeId>,
    )
        requires
            before.is_live(entity),
            after@ == before@.insert(entity, before@[entity].remove_keys(taken)),
        ensures
            after.is_live(entity),
            after.types_of_entity(entity) == before.types_of_entity(entity).difference(taken),
            after.query_includes::<Q>(entity) <==> before.query_includes::<Q>(entity) && Q::required().disjoint(
                taken,
            ),
    {
        before.lemma_types_of_entity(entity);
        assert(after@.dom().contains(entity));
        after.lemma_types_of_entity(entity);
        let had = before.types_of_entity(entity);
        let has = after.types_of_entity(entity);
        assert(has =~= had.difference(taken));
        if after.query_includes::<Q>(entity) {
            assert forall|id: TypeId| Q::required().contains(id) implies had.contains(id) && !taken.contains(id) by {
                assert(has.contains(id));
            }
        }
        if before.query_includes::<Q>(entity) && Q::required().disjoint(taken) {
            assert forall|id: TypeId| Q::required().contains(id) implies has.contains(id) by {
                assert(had.contains(id));
            }
        }
    }
}

} // verus!
