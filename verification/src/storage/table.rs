use vstd::prelude::*;
use crate::storage::column::{swap_removed, Column};
use crate::storage::component::{Component, TypeId, TypeInfo, Value};
use crate::storage::signature::{bits, Signature};
use crate::utils::zip;
use crate::world::EntityId;

verus! {

/// The component type of each value of `components`, in their order.
pub open spec fn types_of(components: Seq<Value>) -> Seq<TypeId> {
    Seq::new(components.len(), |j: int| components[j].spec_type_id())
}

/// The identity of each descriptor of `infos`, in their order.
pub open spec fn ids_of(infos: Seq<TypeInfo>) -> Seq<TypeId> {
    Seq::new(infos.len(), |k: int| infos[k].id)
}

/// The value among `components` that is of type `id`.
pub open spec fn value_of_type(components: Seq<Value>, id: TypeId) -> Value {
    components[types_of(components).index_of(id)]
}

/// In a sequence without duplicates an element is found where it stands.
pub proof fn lemma_index_of<A>(s: Seq<A>, i: int)
    requires
        s.no_duplicates(),
        0 <= i < s.len(),
    ensures
        s.index_of(s[i]) == i,
{
    let found = s.index_of(s[i]);
    assert(0 <= found < s.len() && s[found] == s[i]);
}

/// An element of a sequence is found at one of its places.
pub proof fn lemma_index_of_contained<A>(s: Seq<A>, x: A)
    requires
        s.contains(x),
    ensures
        0 <= s.index_of(x) < s.len(),
        s[s.index_of(x)] == x,
{
}

/// `row` is the first place at which `entity` stands in `entities`.
pub open spec fn is_first_row(entities: Seq<EntityId>, entity: EntityId, row: int) -> bool {
    &&& 0 <= row < entities.len()
    &&& entities[row] == entity
    &&& forall|j: int| 0 <= j < row ==> entities[j] != entity
}

/// The first place at which `entity` stands in `entities`.
pub open spec fn first_row(entities: Seq<EntityId>, entity: EntityId) -> int {
    choose|row: int| is_first_row(entities, entity, row)
}

/// The first place of an entity is the one place that meets `is_first_row`.
pub proof fn lemma_first_row(entities: Seq<EntityId>, entity: EntityId, row: int)
    requires
        is_first_row(entities, entity, row),
    ensures
        first_row(entities, entity) == row,
{
    let chosen = first_row(entities, entity);
    assert(is_first_row(entities, entity, chosen));
    if chosen < row {
        assert(entities[chosen] != entity);
    }
    if row < chosen {
        assert(entities[row] != entity);
    }
}

/// The values of `components`, each under its own type.
pub open spec fn component_map(components: Seq<Value>) -> Map<TypeId, Value> {
    Map::new(|id: TypeId| types_of(components).contains(id), |id: TypeId| value_of_type(components, id))
}

/// One more value, of a type that the list does not have yet, is one more entry.
pub proof fn lemma_component_map_push(components: Seq<Value>, added: Value)
    requires
        types_of(components.push(added)).no_duplicates(),
    ensures
        types_of(components).no_duplicates(),
        !types_of(components).contains(added.spec_type_id()),
        component_map(components.push(added)) == component_map(components).insert(added.spec_type_id(), added),
{
    let longer = components.push(added);
    let kinds = types_of(components);
    let more = types_of(longer);
    let last = components.len() as int;
    assert forall|i: int, j: int| 0 <= i < kinds.len() && 0 <= j < kinds.len() && i != j implies kinds[i] != kinds[j] by {
        assert(more[i] == kinds[i] && more[j] == kinds[j]);
    }
    if kinds.contains(added.spec_type_id()) {
        let i = choose|i: int| 0 <= i < kinds.len() && kinds[i] == added.spec_type_id();
        assert(more[i] == more[last]);
    }
    assert forall|id: TypeId| more.contains(id) <==> id == added.spec_type_id() || kinds.contains(id) by {
        if more.contains(id) {
            let i = choose|i: int| 0 <= i < more.len() && more[i] == id;
            if i < last {
                assert(kinds[i] == id);
            }
        }
        if kinds.contains(id) {
            let i = choose|i: int| 0 <= i < kinds.len() && kinds[i] == id;
            assert(more[i] == id);
        }
        if id == added.spec_type_id() {
            assert(more[last] == id);
        }
    }
    assert forall|id: TypeId| more.contains(id) implies value_of_type(longer, id) == if id == added.spec_type_id() {
        added
    } else {
        value_of_type(components, id)
    } by {
        if id == added.spec_type_id() {
            lemma_index_of(more, last);
        } else {
            lemma_index_of_contained(kinds, id);
            let i = kinds.index_of(id);
            assert(more[i] == id);
            lemma_index_of(more, i);
        }
    }
    assert(component_map(longer) =~= component_map(components).insert(added.spec_type_id(), added));
}

/// The values of two lists that share no type: those of the first and those of the
/// second.
pub proof fn lemma_component_map_add(first: Seq<Value>, second: Seq<Value>)
    requires
        types_of(first + second).no_duplicates(),
    ensures
        component_map(first + second) == component_map(first).union_prefer_right(component_map(second)),
    decreases second.len(),
{
    if second.len() == 0 {
        assert(first + second =~= first);
        assert(component_map(first) =~= component_map(first).union_prefer_right(component_map(second)));
    } else {
        let shorter = second.drop_last();
        let added = second.last();
        assert(first + second =~= (first + shorter).push(added));
        assert(second =~= shorter.push(added));
        lemma_component_map_push(first + shorter, added);
        lemma_component_map_add(first, shorter);
        assert(types_of(second).no_duplicates()) by {
            let whole = types_of(first + second);
            assert forall|i: int, j: int|
                0 <= i < second.len() && 0 <= j < second.len() && i != j implies types_of(second)[i] != types_of(
                second,
            )[j] by {
                assert(whole[first.len() + i] == types_of(second)[i]);
                assert(whole[first.len() + j] == types_of(second)[j]);
            }
        }
        lemma_component_map_push(shorter, added);
        assert(component_map(first + second) =~= component_map(first).union_prefer_right(component_map(second)));
    }
}

/// Whether a value is of none of the types `ids`.
pub open spec fn of_other_type(ids: Seq<TypeId>) -> spec_fn(Value) -> bool {
    |v: Value| !ids.contains(v.spec_type_id())
}

/// Leaving out the values of some types leaves out their entries and no others.
pub proof fn lemma_component_map_filter(components: Seq<Value>, ids: Seq<TypeId>)
    requires
        types_of(components).no_duplicates(),
    ensures
        types_of(components.filter(of_other_type(ids))).no_duplicates(),
        component_map(components.filter(of_other_type(ids))) == component_map(components).remove_keys(ids.to_set()),
    decreases components.len(),
{
    reveal(Seq::filter);
    let keep = of_other_type(ids);
    if components.len() == 0 {
        assert(component_map(components.filter(keep)) =~= component_map(components).remove_keys(ids.to_set()));
    } else {
        let shorter = components.drop_last();
        let added = components.last();
        assert(components =~= shorter.push(added));
        lemma_component_map_push(shorter, added);
        lemma_component_map_filter(shorter, ids);
        let kept = shorter.filter(keep);
        if keep(added) {
            assert(types_of(kept.push(added)).no_duplicates()) by {
                let more = types_of(kept.push(added));
                assert forall|i: int, j: int| 0 <= i < more.len() && 0 <= j < more.len() && i != j implies more[i]
                    != more[j] by {
                    if i < kept.len() && j < kept.len() {
                        assert(types_of(kept)[i] == more[i] && types_of(kept)[j] == more[j]);
                    } else {
                        let inner = if i < kept.len() {
                            i
                        } else {
                            j
                        };
                        assert(types_of(kept)[inner] == more[inner]);
                        assert(types_of(kept).contains(more[inner]));
                        assert(component_map(kept).dom().contains(more[inner]));
                        assert(component_map(shorter).dom().contains(more[inner]));
                    }
                }
            }
            lemma_component_map_push(kept, added);
        }
        assert(component_map(components.filter(keep)) =~= component_map(components).remove_keys(ids.to_set()));
    }
}

/// `after` is `before` with one more row: `entity` at the end of the entity list, and at
/// the end of each column the value of `components` that is of the column's type.
pub open spec fn row_added(
    before: EntityTable,
    after: EntityTable,
    components: Seq<Value>,
    entity: EntityId,
) -> bool {
    &&& after.spec_infos() == before.spec_infos()
    &&& after.spec_key() == before.spec_key()
    &&& after.spec_entities() == before.spec_entities().push(entity)
    &&& forall|k: int|
        0 <= k < before.spec_types().len() ==> (#[trigger] after.spec_column(k)) == before.spec_column(k).push(
            value_of_type(components, before.spec_types()[k]),
        )
}

/// `table` holds one row and nothing else: that of `entity`, with one column for each
/// value of `components`, in their order.
pub open spec fn made_of(table: EntityTable, components: Seq<Value>, entity: EntityId) -> bool {
    &&& table.spec_types() == types_of(components)
    &&& table.spec_entities() == seq![entity]
    &&& forall|k: int| 0 <= k < components.len() ==> (#[trigger] table.spec_column(k)) == seq![components[k]]
}

/// `after` is `before` but for the values in the column of the component type `id`: the
/// columns, the key, the entities and the number of rows are the same, and so is every
/// other column.
pub open spec fn same_but_column(before: EntityTable, after: EntityTable, id: TypeId) -> bool {
    &&& after.wf()
    &&& after.spec_infos() == before.spec_infos()
    &&& after.spec_key() == before.spec_key()
    &&& after.spec_entities() == before.spec_entities()
    &&& forall|k: int|
        0 <= k < before.spec_types().len() && before.spec_types()[k] != id ==> (#[trigger] after.spec_column(k))
            == before.spec_column(k)
}

/// `after` is `before` without the row `row`: in the entity list and in every column the
/// last row took its place.
pub open spec fn row_removed(before: EntityTable, after: EntityTable, row: int) -> bool {
    &&& after.spec_infos() == before.spec_infos()
    &&& after.spec_key() == before.spec_key()
    &&& after.spec_entities() == swap_removed(before.spec_entities(), row)
    &&& forall|k: int|
        0 <= k < before.spec_types().len() ==> (#[trigger] after.spec_column(k)) == swap_removed(
            before.spec_column(k),
            row,
        )
}

/// A column while a row is being added: it has its new value once the values of
/// `components` from place `n` on have been handed out.
spec fn filled(column: Seq<Value>, components: Seq<Value>, n: int, id: TypeId) -> Seq<Value> {
    if types_of(components).index_of(id) >= n {
        column.push(value_of_type(components, id))
    } else {
        column
    }
}

/// An archetype: the entities that have exactly one set of component types, one column
/// for each type and one row for each entity. Row `i` of every column belongs to the
/// entity at place `i` of the entity list.
#[derive(Debug)]
pub struct EntityTable {
    entities: Vec<EntityId>,
    id: Signature,
    columns: Vec<Column>,
    column_info: Vec<TypeInfo>,
}

impl EntityTable {
    /// The entities of the table; the entity at place `i` owns row `i`.
    pub closed spec fn spec_entities(&self) -> Seq<EntityId> {
        self.entities@
    }

    /// The descriptors of the columns, in the order of the columns.
    pub closed spec fn spec_infos(&self) -> Seq<TypeInfo> {
        self.column_info@
    }

    /// The component types of the columns, in the order of the columns.
    pub open spec fn spec_types(&self) -> Seq<TypeId> {
        ids_of(self.spec_infos())
    }

    /// The rows of column `k`.
    pub closed spec fn spec_column(&self, k: int) -> Seq<Value> {
        self.columns@[k]@
    }

    /// The rows of the column that holds the component type `id`.
    pub open spec fn column_of(&self, id: TypeId) -> Seq<Value> {
        self.spec_column(self.spec_types().index_of(id))
    }

    /// The bits of the key that the table was made with.
    pub closed spec fn spec_key(&self) -> Set<usize> {
        bits(self.id)
    }

    /// The number of rows.
    pub open spec fn rows(&self) -> nat {
        self.spec_entities().len()
    }

    /// There is one well-formed column for each descriptor, made for it.
    pub closed spec fn columns_match(&self) -> bool {
        &&& self.columns@.len() == self.column_info@.len()
        &&& forall|k: int|
            0 <= k < self.columns@.len() ==> (#[trigger] self.columns@[k]).wf()
                && self.columns@[k].spec_type_info() == self.column_info@[k]
    }

    /// The values in row `row`, each under the type of its column.
    pub open spec fn row_values(&self, row: int) -> Map<TypeId, Value> {
        Map::new(|id: TypeId| self.spec_types().contains(id), |id: TypeId| self.column_of(id)[row])
    }

    /// The values of `entity`: those in the first row that it owns.
    pub open spec fn values_of(&self, entity: EntityId) -> Map<TypeId, Value> {
        self.row_values(first_row(self.spec_entities(), entity))
    }

    /// No component type has two columns, and every column has one row for each entity.
    pub open spec fn wf(&self) -> bool {
        &&& self.columns_match()
        &&& self.spec_types().no_duplicates()
        &&& forall|k: int| 0 <= k < self.spec_types().len() ==> (#[trigger] self.spec_column(k)).len() == self.rows()
    }

    /// `components` holds one value for each column of the table and nothing else.
    pub open spec fn fits(&self, components: Seq<Value>) -> bool {
        &&& types_of(components).no_duplicates()
        &&& types_of(components).to_set() == self.spec_types().to_set()
    }

    /// Every value in a column is of the column's type.
    pub proof fn lemma_values_typed(&self, k: int, row: int)
        requires
            self.wf(),
            0 <= k < self.spec_types().len(),
            0 <= row < self.rows(),
        ensures
            self.spec_column(k)[row].spec_type_id() == self.spec_types()[k],
    {
        self.columns@[k].lemma_rows();
    }

    /// Adding a row for a new entity gives that entity the added values and leaves the
    /// values of every other entity as they were.
    pub proof fn lemma_row_added_values(
        before: EntityTable,
        after: EntityTable,
        components: Seq<Value>,
        entity: EntityId,
    )
        requires
            before.wf(),
            before.fits(components),
            before.spec_entities().no_duplicates(),
            !before.spec_entities().contains(entity),
            row_added(before, after, components, entity),
        ensures
            after.spec_entities().no_duplicates(),
            after.values_of(entity) == component_map(components),
            forall|other: EntityId|
                before.spec_entities().contains(other) ==> (#[trigger] after.values_of(other)) == before.values_of(
                    other,
                ),
            forall|other: EntityId| #[trigger]
                after.spec_entities().contains(other) <==> other == entity || before.spec_entities().contains(
                    other,
                ),
    {
        let old_list = before.spec_entities();
        let new_list = after.spec_entities();
        let types = before.spec_types();
        let rows = before.rows() as int;
        assert(after.spec_types() == types);
        assert forall|other: EntityId| #[trigger] new_list.contains(other) <==> other == entity || old_list.contains(
            other,
        ) by {
            if new_list.contains(other) {
                let i = choose|i: int| 0 <= i < new_list.len() && new_list[i] == other;
                if i < rows {
                    assert(old_list[i] == other);
                }
            }
            if old_list.contains(other) {
                let i = choose|i: int| 0 <= i < old_list.len() && old_list[i] == other;
                assert(new_list[i] == other);
            }
            if other == entity {
                assert(new_list[rows] == other);
            }
        }
        assert forall|k: int| 0 <= k < types.len() implies (#[trigger] after.spec_column(k))[rows] == value_of_type(
            components,
            types[k],
        ) by {
            assert(before.spec_column(k).len() == rows);
        }
        assert(after.values_of(entity) =~= component_map(components)) by {
            assert(is_first_row(new_list, entity, rows));
            lemma_first_row(new_list, entity, rows);
            assert forall|id: TypeId| types.contains(id) <==> types_of(components).contains(id) by {
                assert(types.to_set().contains(id) <==> types_of(components).to_set().contains(id));
            }
            assert forall|id: TypeId| types.contains(id) implies after.column_of(id)[rows] == value_of_type(
                components,
                id,
            ) by {
                lemma_index_of_contained(types, id);
            }
        }
        assert forall|other: EntityId| old_list.contains(other) implies (#[trigger] after.values_of(other))
            == before.values_of(other) by {
            let row = first_row(old_list, other);
            let i = choose|i: int| 0 <= i < old_list.len() && old_list[i] == other;
            assert(is_first_row(old_list, other, i));
            lemma_first_row(old_list, other, i);
            assert(is_first_row(new_list, other, row));
            lemma_first_row(new_list, other, row);
            assert forall|id: TypeId| types.contains(id) implies after.column_of(id)[row] == before.column_of(
                id,
            )[row] by {
                lemma_index_of_contained(types, id);
            }
            assert(after.values_of(other) =~= before.values_of(other));
        }
    }

    /// Taking the row of an entity out leaves the values of every other entity as they
    /// were, whichever row it now owns.
    pub proof fn lemma_row_removed_values(before: EntityTable, after: EntityTable, entity: EntityId)
        requires
            before.wf(),
            before.spec_entities().no_duplicates(),
            before.spec_entities().contains(entity),
            row_removed(before, after, first_row(before.spec_entities(), entity)),
        ensures
            after.spec_entities().no_duplicates(),
            !after.spec_entities().contains(entity),
            forall|other: EntityId|
                other != entity && before.spec_entities().contains(other) ==> (#[trigger] after.values_of(other))
                    == before.values_of(other),
            forall|other: EntityId| #[trigger]
                after.spec_entities().contains(other) <==> other != entity && before.spec_entities().contains(
                    other,
                ),
    {
        let old_list = before.spec_entities();
        let new_list = after.spec_entities();
        let types = before.spec_types();
        let last = old_list.len() - 1;
        let found = choose|i: int| 0 <= i < old_list.len() && old_list[i] == entity;
        assert(is_first_row(old_list, entity, found));
        lemma_first_row(old_list, entity, found);
        let gone = first_row(old_list, entity);
        assert(after.spec_types() == types);
        assert forall|i: int| 0 <= i < new_list.len() implies #[trigger] new_list[i] == old_list[if i == gone {
            last
        } else {
            i
        }] by {}
        assert forall|other: EntityId| #[trigger] new_list.contains(other) <==> other != entity && old_list.contains(
            other,
        ) by {
            if new_list.contains(other) {
                let i = choose|i: int| 0 <= i < new_list.len() && new_list[i] == other;
                assert(new_list[i] == old_list[if i == gone {
                    last
                } else {
                    i
                }]);
            }
            if other != entity && old_list.contains(other) {
                let i = choose|i: int| 0 <= i < old_list.len() && old_list[i] == other;
                if i == last {
                    assert(new_list[gone] == other);
                } else {
                    assert(new_list[i] == other);
                }
            }
        }
        assert forall|other: EntityId| other != entity && old_list.contains(other) implies (#[trigger] after.values_of(
            other,
        )) == before.values_of(other) by {
            let i = choose|i: int| 0 <= i < old_list.len() && old_list[i] == other;
            assert(is_first_row(old_list, other, i));
            lemma_first_row(old_list, other, i);
            let now = if i == last {
                gone
            } else {
                i
            };
            assert(new_list[now] == other);
            assert(is_first_row(new_list, other, now));
            lemma_first_row(new_list, other, now);
            assert forall|id: TypeId| types.contains(id) implies after.column_of(id)[now] == before.column_of(id)[i] by {
                lemma_index_of_contained(types, id);
                let k = types.index_of(id);
                assert(before.spec_column(k).len() == before.rows());
                assert(after.spec_column(k) == swap_removed(before.spec_column(k), gone));
            }
            assert(after.values_of(other) =~= before.values_of(other));
        }
    }

    /// The values that `remove_entity` hands out are those of the entity.
    pub proof fn lemma_removed_values(&self, entity: EntityId, removed: Seq<Value>)
        requires
            self.wf(),
            self.spec_entities().contains(entity),
            removed.len() == self.spec_types().len(),
            forall|k: int|
                0 <= k < removed.len() ==> (#[trigger] removed[k]) == self.spec_column(k)[first_row(
                    self.spec_entities(),
                    entity,
                )],
        ensures
            types_of(removed) == self.spec_types(),
            component_map(removed) == self.values_of(entity),
    {
        let list = self.spec_entities();
        let types = self.spec_types();
        let found = choose|i: int| 0 <= i < list.len() && list[i] == entity;
        let row = first_row(list, entity);
        assert(exists|i: int| is_first_row(list, entity, i)) by {
            Self::lemma_has_first_row(list, entity, found);
        }
        assert(is_first_row(list, entity, row));
        assert forall|k: int| 0 <= k < removed.len() implies types_of(removed)[k] == types[k] by {
            self.lemma_values_typed(k, row);
        }
        assert(types_of(removed) =~= types);
        assert forall|id: TypeId| types.contains(id) implies value_of_type(removed, id) == self.column_of(id)[row] by {
            lemma_index_of_contained(types, id);
        }
        assert(component_map(removed) =~= self.values_of(entity));
    }

    /// An entity that stands in a list has a first place in it.
    pub proof fn lemma_has_first_row(entities: Seq<EntityId>, entity: EntityId, at: int)
        requires
            0 <= at < entities.len(),
            entities[at] == entity,
        ensures
            exists|row: int| is_first_row(entities, entity, row),
        decreases at,
    {
        if exists|j: int| 0 <= j < at && entities[j] == entity {
            let j = choose|j: int| 0 <= j < at && entities[j] == entity;
            Self::lemma_has_first_row(entities, entity, j);
        } else {
            assert(is_first_row(entities, entity, at));
        }
    }

    /// A table without rows: one empty column for each descriptor of `type_infos`, in
    /// their order. `id` is the key under which the table is known.
    pub fn new(type_infos: Vec<TypeInfo>, id: Signature) -> (r: Self)
        requires
            ids_of(type_infos@).no_duplicates(),
        ensures
            r.wf(),
            r.spec_infos() == type_infos@,
            r.spec_key() == bits(id),
            r.rows() == 0,
    {
        let mut columns: Vec<Column> = Vec::new();
        let mut index: usize = 0;
        while index < type_infos.len()
            invariant
                index <= type_infos@.len(),
                columns@.len() == index,
                forall|k: int|
                    0 <= k < index ==> (#[trigger] columns@[k]).wf() && columns@[k].spec_type_info()
                        == type_infos@[k] && columns@[k]@.len() == 0,
            decreases type_infos@.len() - index,
        {
            columns.push(Column::new(type_infos[index]));
            index = index + 1;
        }
        EntityTable { entities: Vec::new(), id, columns, column_info: type_infos }
    }

    /// The number of rows.
    pub fn len(&self) -> (r: usize)
        ensures
            r == self.rows(),
    {
        self.entities.len()
    }

    /// The entities of the table, in the order of their rows.
    pub fn entities(&self) -> (r: &Vec<EntityId>)
        ensures
            r@ == self.spec_entities(),
    {
        &self.entities
    }

    /// The descriptors of the columns, in the order of the columns.
    pub fn column_info(&self) -> (r: &Vec<TypeInfo>)
        ensures
            r@ == self.spec_infos(),
    {
        &self.column_info
    }

    /// The key that the table was made with.
    pub fn id(&self) -> (r: &Signature)
        ensures
            bits(*r) == self.spec_key(),
    {
        &self.id
    }

    /// The place of the column that holds the type of `type_info`, or `None` where the
    /// table has no such column.
    pub fn get_column_index(&self, type_info: &TypeInfo) -> (r: Option<usize>)
        ensures
            match r {
                Some(k) => k < self.spec_types().len() && self.spec_types()[k as int] == type_info.id
                    && forall|j: int| 0 <= j < k ==> self.spec_types()[j] != type_info.id,
                None => !self.spec_types().contains(type_info.id),
            },
    {
        let wanted = type_info.id;
        let mut index: usize = 0;
        while index < self.column_info.len()
            invariant
                index <= self.column_info@.len(),
                wanted == type_info.id,
                self.spec_types().len() == self.column_info@.len(),
                forall|j: int| 0 <= j < index ==> self.spec_types()[j] != wanted,
            decreases self.column_info@.len() - index,
        {
            if self.column_info[index].id == wanted {
                assert(self.spec_types()[index as int] == wanted);
                return Some(index);
            }
            index = index + 1;
        }
        None
    }

    /// Adds a row for `entity`. Each value of `components` goes to the end of the column
    /// of its type.
    pub fn add_entity(&mut self, components: Vec<Value>, entity: EntityId)
        requires
            old(self).wf(),
            old(self).fits(components@),
        ensures
            final(self).wf(),
            row_added(*old(self), *final(self), components@, entity),
    {
        let ghost all = components@;
        let mut rest = components;
        let ghost kinds = types_of(all);
        let ghost types = self.spec_types();
        self.entities.push(entity);
        proof {
            assert forall|k: int| 0 <= k < types.len() implies 0 <= #[trigger] kinds.index_of(types[k])
                < all.len() && kinds[kinds.index_of(types[k])] == types[k] by {
                assert(types.to_set().contains(types[k]));
                assert(kinds.to_set().contains(types[k]));
                lemma_index_of_contained(kinds, types[k]);
            }
        }
        while rest.len() > 0
            invariant
                kinds == types_of(all),
                types == old(self).spec_types(),
                old(self).wf(),
                old(self).fits(all),
                rest@.len() <= all.len(),
                rest@ == all.subrange(0, rest@.len() as int),
                self.column_info == old(self).column_info,
                self.id == old(self).id,
                self.entities@ == old(self).entities@.push(entity),
                self.columns_match(),
                forall|k: int|
                    0 <= k < types.len() ==> 0 <= #[trigger] kinds.index_of(types[k]) < all.len()
                        && kinds[kinds.index_of(types[k])] == types[k],
                forall|k: int|
                    0 <= k < types.len() ==> (#[trigger] self.columns@[k])@ == filled(
                        old(self).columns@[k]@,
                        all,
                        rest@.len() as int,
                        types[k],
                    ),
            decreases rest@.len(),
        {
            let ghost n = rest@.len() as int;
            let ghost before = self.columns@;
            let component = rest.pop().unwrap();
            assert(component == all[n - 1]);
            let info = component.type_info();
            proof {
                assert(kinds[n - 1] == info.id);
                assert(kinds.to_set().contains(info.id));
                assert(types.to_set().contains(info.id));
                lemma_index_of(kinds, n - 1);
            }
            let index = self.get_column_index(&info).unwrap();
            self.columns[index].push_component(component);
            proof {
                assert forall|k: int| 0 <= k < types.len() implies (#[trigger] self.columns@[k])@ == filled(
                    old(self).columns@[k]@,
                    all,
                    n - 1,
                    types[k],
                ) by {
                    if k != index {
                        assert(self.columns@[k] == before[k]);
                        assert(kinds[kinds.index_of(types[k])] == types[k]);
                    }
                }
            }
        }
        proof {
            assert forall|k: int| 0 <= k < types.len() implies (#[trigger] self.spec_column(k)) == old(
                self,
            ).spec_column(k).push(value_of_type(all, types[k])) by {
                assert(self.columns@[k]@ == filled(old(self).columns@[k]@, all, 0, types[k]));
            }
            assert forall|k: int| 0 <= k < self.spec_types().len() implies (#[trigger] self.spec_column(k)).len()
                == self.rows() by {
                assert(old(self).spec_column(k).len() == old(self).rows());
            }
        }
    }

    /// Takes the first row that `input_entity` owns out of the table and hands its values
    /// to the caller, one for each column and in the order of the columns. Where the row
    /// was not the last one, the last row moves into its place. Returns `None`, and
    /// changes nothing, where `input_entity` owns no row.
    pub fn remove_entity(&mut self, input_entity: EntityId) -> (r: Option<Vec<Value>>)
        requires
            old(self).wf(),
        ensures
            r is Some <==> old(self).spec_entities().contains(input_entity),
            r is None ==> *final(self) == *old(self),
            r is Some ==> final(self).wf() && row_removed(
                *old(self),
                *final(self),
                first_row(old(self).spec_entities(), input_entity),
            ),
            r is Some ==> r->0@.len() == old(self).spec_types().len() && forall|k: int|
                0 <= k < r->0@.len() ==> (#[trigger] r->0@[k]) == old(self).spec_column(k)[first_row(
                    old(self).spec_entities(),
                    input_entity,
                )],
            r is Some ==> first_row(old(self).spec_entities(), input_entity) < old(self).rows() - 1
                ==> final(self).spec_entities()[first_row(old(self).spec_entities(), input_entity)]
                == old(self).spec_entities().last() && forall|k: int|
                0 <= k < old(self).spec_types().len() ==> (#[trigger] final(self).spec_column(
                    k,
                ))[first_row(old(self).spec_entities(), input_entity)] == old(self).spec_column(k).last(),
    {
        let mut found: Option<usize> = None;
        let mut index: usize = 0;
        while index < self.entities.len() && found.is_none()
            invariant
                index <= self.entities@.len(),
                found is None ==> forall|j: int| 0 <= j < index ==> self.entities@[j] != input_entity,
                found is Some ==> is_first_row(self.entities@, input_entity, found->0 as int),
            decreases self.entities@.len() - index + if found is None { 1nat } else { 0nat },
        {
            if self.entities[index] == input_entity {
                found = Some(index);
            } else {
                index = index + 1;
            }
        }
        match found {
            None => None,
            Some(row) => {
                assert(first_row(self.entities@, input_entity) == row);
                let mut components: Vec<Value> = Vec::new();
                let mut k: usize = 0;
                while k < self.columns.len()
                    invariant
                        old(self).wf(),
                        row < old(self).rows(),
                        self.entities == old(self).entities,
                        self.column_info == old(self).column_info,
                        self.id == old(self).id,
                        self.columns_match(),
                        k <= self.columns@.len(),
                        components@.len() == k,
                        forall|c: int|
                            0 <= c < k ==> (#[trigger] self.columns@[c])@ == swap_removed(
                                old(self).columns@[c]@,
                                row as int,
                            ),
                        forall|c: int| 0 <= c < k ==> (#[trigger] components@[c]) == old(self).columns@[c]@[row as int],
                        forall|c: int| k <= c < self.columns@.len() ==> (#[trigger] self.columns@[c]) == old(self).columns@[c],
                    decreases self.columns@.len() - k,
                {
                    assert(old(self).spec_column(k as int).len() == old(self).rows());
                    let value = self.columns[k].remove_component(row);
                    components.push(value);
                    k = k + 1;
                }
                let gone = self.entities.swap_remove(row);
                proof {
                    assert forall|c: int| 0 <= c < self.spec_types().len() implies (#[trigger] self.spec_column(
                        c,
                    )).len() == self.rows() by {
                        assert(old(self).spec_column(c).len() == old(self).rows());
                    }
                }
                Some(components)
            },
        }
    }

    /// The rows of the column of the component type `T`, as typed values.
    pub fn get<T: Component>(&self) -> (r: Vec<&T>)
        requires
            self.wf(),
            self.spec_types().contains(T::spec_type_id()),
        ensures
            r@.len() == self.rows(),
            forall|i: int|
                0 <= i < r@.len() ==> (#[trigger] r@[i]).erased() == self.column_of(T::spec_type_id())[i],
    {
        let t_info = TypeInfo::of::<T>();
        let index = self.get_column_index(&t_info).unwrap();
        proof {
            lemma_index_of(self.spec_types(), index as int);
            assert(self.spec_column(index as int).len() == self.rows());
        }
        self.columns[index].get_slice::<T>()
    }

    /// The rows of the column of the component type `T`, for writing. What the caller
    /// writes through the item at place `i` becomes row `i` of that column; the other
    /// columns and the entity list stay as they are.
    pub fn get_mut<'a, T: Component>(&'a mut self) -> (r: Vec<&'a mut T>)
        requires
            old(self).wf(),
            old(self).spec_types().contains(T::spec_type_id()),
        ensures
            r@.len() == old(self).rows(),
            forall|i: int|
                0 <= i < r@.len() ==> (*(#[trigger] r@[i])).erased() == old(self).column_of(T::spec_type_id())[i],
            final(self).wf(),
            final(self).spec_infos() == old(self).spec_infos(),
            final(self).spec_key() == old(self).spec_key(),
            final(self).spec_entities() == old(self).spec_entities(),
            forall|k: int|
                0 <= k < old(self).spec_types().len() && old(self).spec_types()[k] != T::spec_type_id() ==> (
                #[trigger] final(self).spec_column(k)) == old(self).spec_column(k),
            final(self).column_of(T::spec_type_id()).len() == old(self).rows(),
            forall|i: int|
                0 <= i < r@.len() ==> (#[trigger] final(self).column_of(T::spec_type_id())[i])
                    == (*final(r@[i])).erased(),
    {
        let t_info = TypeInfo::of::<T>();
        let index = self.get_column_index(&t_info).unwrap();
        proof {
            lemma_index_of(self.spec_types(), index as int);
            assert(self.spec_column(index as int).len() == self.rows());
        }
        let ghost start = *self;
        let ghost end = *final(self);
        let items = self.columns[index].get_mut_slice::<T>();
        proof {
            assert forall|k: int| 0 <= k < end.spec_types().len() implies (#[trigger] end.spec_column(k)).len()
                == end.rows() by {
                assert(start.spec_column(k).len() == start.rows());
            }
        }
        items
    }

    /// The rows of the column of `A`, for reading, beside the rows of the column of `B`,
    /// for writing. The two component types must differ, so that the two columns do.
    /// What the caller writes through the second part of the item at place `i` becomes
    /// row `i` of the column of `B`; nothing else of the table changes.
    pub fn get_pair_mut<'a, A: Component, B: Component>(&'a mut self) -> (r: Vec<(&'a A, &'a mut B)>)
        requires
            old(self).wf(),
            old(self).spec_types().contains(A::spec_type_id()),
            old(self).spec_types().contains(B::spec_type_id()),
            A::spec_type_id() != B::spec_type_id(),
        ensures
            r@.len() == old(self).rows(),
            forall|i: int|
                0 <= i < r@.len() ==> (*(#[trigger] r@[i]).0).erased() == old(self).column_of(A::spec_type_id())[i]
                    && (*r@[i].1).erased() == old(self).column_of(B::spec_type_id())[i],
            same_but_column(*old(self), *final(self), B::spec_type_id()),
            final(self).column_of(B::spec_type_id()).len() == old(self).rows(),
            forall|i: int|
                0 <= i < r@.len() ==> (#[trigger] final(self).column_of(B::spec_type_id())[i])
                    == (*final(r@[i].1)).erased(),
    {
        let a_info = TypeInfo::of::<A>();
        let b_info = TypeInfo::of::<B>();
        let read_at = self.get_column_index(&a_info).unwrap();
        let write_at = self.get_column_index(&b_info).unwrap();
        proof {
            lemma_index_of(self.spec_types(), read_at as int);
            lemma_index_of(self.spec_types(), write_at as int);
            assert(self.spec_column(read_at as int).len() == self.rows());
            assert(self.spec_column(write_at as int).len() == self.rows());
        }
        let ghost start = *self;
        let ghost end = *final(self);
        let columns = self.columns.as_mut_slice();
        let pairs = if read_at < write_at {
            let (left, right) = columns.split_at_mut(write_at);
            let readable: &'a [Column] = left;
            match right.first_mut() {
                Some(column) => zip(readable[read_at].get_slice::<A>(), column.get_mut_slice::<B>()),
                None => Vec::new(),
            }
        } else if write_at < read_at {
            let (left, right) = columns.split_at_mut(read_at);
            let readable: &'a [Column] = right;
            let (before, from) = left.split_at_mut(write_at);
            match from.first_mut() {
                Some(column) => zip(readable[0].get_slice::<A>(), column.get_mut_slice::<B>()),
                None => Vec::new(),
            }
        } else {
            Vec::new()
        };
        proof {
            assert forall|k: int| 0 <= k < end.spec_types().len() implies (#[trigger] end.spec_column(k)).len()
                == end.rows() by {
                assert(start.spec_column(k).len() == start.rows());
            }
        }
        pairs
    }

    /// Whether the table has a column for every bit of `requested`.
    pub fn has_signature(&self, requested: &Signature) -> (r: bool)
        ensures
            r == bits(*requested).subset_of(self.spec_key()),
    {
        requested.is_subset(&self.id)
    }
}

} // verus!
