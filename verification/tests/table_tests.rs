use ecs_core::storage::component::{Component, TypeInfo, Value};
use ecs_core::storage::signature::Signature;
use ecs_core::storage::table::EntityTable;
use ecs_core::world::EntityId;

fn entity(mut components: Vec<Value>) -> Vec<Value> {
    components.sort_by(|a, b| a.type_info().id.partial_cmp(&b.type_info().id).unwrap());
    components
}

#[test]
fn entity_can_be_added_to_table() {
    let mut table = EntityTable::new(
        vec![TypeInfo::of::<i32>(), TypeInfo::of::<u8>()],
        Signature::new(),
    );

    table.add_entity(
        entity(vec![1_i32.to_component_ref(), 2_u8.to_component_ref()]),
        EntityId::Value(0),
    );

    let column1: Vec<&i32> = table.get::<i32>();
    let column2: Vec<&u8> = table.get::<u8>();

    assert_eq!(*column1[0], 1);
    assert_eq!(*column2[0], 2);
}

#[test]
fn removing_an_entity_rearranges_table() {
    let mut table = EntityTable::new(
        vec![TypeInfo::of::<i32>(), TypeInfo::of::<u8>()],
        Signature::new(),
    );

    table.add_entity(entity(vec![1_i32.to_component_ref(), 1_u8.to_component_ref()]), EntityId::Value(0));
    table.add_entity(entity(vec![2_i32.to_component_ref(), 2_u8.to_component_ref()]), EntityId::Value(1));
    table.add_entity(entity(vec![3_i32.to_component_ref(), 3_u8.to_component_ref()]), EntityId::Value(2));
    table.add_entity(entity(vec![4_i32.to_component_ref(), 4_u8.to_component_ref()]), EntityId::Value(3));

    let removed = table.remove_entity(EntityId::Value(1));
    assert!(removed.is_some());

    let column1: Vec<&i32> = table.get::<i32>();
    let column2: Vec<&u8> = table.get::<u8>();

    assert_eq!(vec![&1, &4, &3], column1);
    assert_eq!(vec![&1, &4, &3], column2);
    assert_eq!(
        &vec![EntityId::Value(0), EntityId::Value(3), EntityId::Value(2)],
        table.entities()
    )
}

#[test]
fn removed_row_is_handed_out_in_column_order() {
    let mut table = EntityTable::new(
        vec![TypeInfo::of::<i32>(), TypeInfo::of::<u8>()],
        Signature::new(),
    );
    table.add_entity(vec![7_u8.to_component_ref(), 70_i32.to_component_ref()], EntityId::Value(5));
    table.add_entity(vec![8_i32.to_component_ref(), 80_u8.to_component_ref()], EntityId::Value(6));

    let removed = table.remove_entity(EntityId::Value(5)).unwrap();
    assert_eq!(removed.len(), 2);
    assert!(matches!(removed[0], Value::I32(70)));
    assert!(matches!(removed[1], Value::U8(7)));
    assert_eq!(table.len(), 1);
    assert_eq!(table.entities(), &vec![EntityId::Value(6)]);
}

#[test]
fn removing_an_unknown_entity_changes_nothing() {
    let mut table = EntityTable::new(vec![TypeInfo::of::<i32>()], Signature::new());
    table.add_entity(vec![1_i32.to_component_ref()], EntityId::Value(0));

    assert!(table.remove_entity(EntityId::Value(9)).is_none());
    assert_eq!(table.len(), 1);
    assert_eq!(table.get::<i32>(), vec![&1]);
}

#[test]
fn column_index_follows_the_order_of_the_descriptors() {
    let table = EntityTable::new(
        vec![TypeInfo::of::<i32>(), TypeInfo::of::<u8>()],
        Signature::new(),
    );
    assert_eq!(table.get_column_index(&TypeInfo::of::<i32>()), Some(0));
    assert_eq!(table.get_column_index(&TypeInfo::of::<u8>()), Some(1));
    assert_eq!(table.get_column_index(&TypeInfo::of::<u64>()), None);
}

#[test]
fn get_mut_writes_into_the_column() {
    let mut table = EntityTable::new(
        vec![TypeInfo::of::<i32>(), TypeInfo::of::<u8>()],
        Signature::new(),
    );
    table.add_entity(vec![1_i32.to_component_ref(), 1_u8.to_component_ref()], EntityId::Value(0));
    table.add_entity(vec![2_i32.to_component_ref(), 2_u8.to_component_ref()], EntityId::Value(1));

    for value in table.get_mut::<i32>() {
        *value *= 10;
    }
    assert_eq!(table.get::<i32>(), vec![&10, &20]);
    assert_eq!(table.get::<u8>(), vec![&1, &2]);
}

#[test]
fn has_signature_asks_for_a_superset() {
    let type_map = ecs_core::world::gen_typeid_map();
    let mut key = Signature::new();
    key.insert(&type_map, TypeInfo::of::<i32>().id);
    key.insert(&type_map, TypeInfo::of::<u8>().id);
    let mut same = Signature::single(&type_map, TypeInfo::of::<u8>().id);
    same.union_with(&Signature::single(&type_map, TypeInfo::of::<i32>().id));
    assert!(key.same_as(&same));

    let table = EntityTable::new(vec![TypeInfo::of::<i32>(), TypeInfo::of::<u8>()], key);

    assert!(table.has_signature(&Signature::new()));
    assert!(table.has_signature(&Signature::single(&type_map, TypeInfo::of::<u8>().id)));
    assert!(table.has_signature(&same));
    assert!(!table.has_signature(&Signature::single(&type_map, TypeInfo::of::<u64>().id)));
    let mut wider = Signature::single(&type_map, TypeInfo::of::<u8>().id);
    assert!(wider.insert(&type_map, TypeInfo::of::<u64>().id));
    assert!(!wider.insert(&type_map, TypeInfo::of::<u64>().id));
    assert!(!table.has_signature(&wider));
    assert!(!wider.same_as(&same));
}
