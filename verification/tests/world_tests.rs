use ecs_core::storage::component::{Component, TypeInfo, Value};
use ecs_core::world::{EntityId, World};

fn entity(mut components: Vec<Value>) -> Vec<Value> {
    components.sort_by(|a, b| a.type_info().id.partial_cmp(&b.type_info().id).unwrap());
    components
}

#[test]
fn can_spawn_entities() {
    let mut world = World::new();
    let entities: Vec<EntityId> = (0..1000)
        .map(|_| {
            world.spawn(
                entity(vec![1.to_component_ref(), 2.to_component_ref(), "hello".to_component_ref()]),
                None,
            )
        })
        .collect();

    let _query = world.query::<&u8>().execute();
    assert_eq!(entities.len(), 1000);
}

#[test]
fn can_remove_components_from_entities() {
    let mut world = World::new();
    let entity_id = world.spawn(
        entity(vec![1_u32.to_component_ref(), 2_u8.to_component_ref(), "hello".to_component_ref()]),
        None,
    );

    let query = world.query::<&u32>().execute();
    assert!(query.iter().count() == 1);

    let query = world.query::<(&u32, &u8)>().execute();
    assert!(query.iter().count() == 1);

    world.remove_components(vec![TypeInfo::of::<u32>()], entity_id);
    let query = world.query::<&u32>().execute();
    assert!(query.iter().count() == 0);

    let query = world.query::<(&u32, &u8)>().execute();
    assert!(query.iter().count() == 0);

    let query = world.query::<&u8>().execute();
    assert!(query.iter().count() == 1);
}

#[test]
fn can_add_componentts_to_entities() {
    let mut world = World::new();
    let entity_id = world.spawn(entity(vec![1_u32.to_component_ref(), 2_u8.to_component_ref()]), None);

    let query = world.query::<(&u32, &u8)>().execute();
    assert!(query.iter().count() == 1);

    let query = world.query::<(&u32, &u64)>().execute();
    assert!(query.iter().count() == 0);

    world.add_components(entity(vec![200_u64.to_component_ref()]), entity_id);

    let query = world.query::<(&u32, &u64)>().execute();
    assert!(query.iter().count() == 1);
}

#[test]
fn query_yields_rows_in_insertion_order() {
    let mut world = World::new();
    world.spawn(vec![1u8.to_component_ref(), 5i32.to_component_ref()], None);
    world.spawn(vec![2u8.to_component_ref(), 6i32.to_component_ref()], None);
    world.spawn(vec![3u8.to_component_ref(), 7i32.to_component_ref()], None);
    world.spawn(vec![4u8.to_component_ref(), 8i32.to_component_ref()], None);

    let pairs = world.query::<(&u8, &i32)>().execute();
    assert_eq!(pairs, vec![(&1u8, &5i32), (&2, &6), (&3, &7), (&4, &8)]);
}

#[test]
fn query_walks_every_matching_table() {
    let mut world = World::new();
    for _ in 0..1000 {
        world.spawn(
            vec![1u8.to_component_ref(), 2i32.to_component_ref(), "text".to_component_ref()],
            None,
        );
    }
    for _ in 0..1000 {
        world.spawn(
            vec![1u8.to_component_ref(), 2i32.to_component_ref(), 3u64.to_component_ref()],
            None,
        );
    }

    assert_eq!(world.query::<&u8>().execute().len(), 2000);
    assert_eq!(world.query::<(&u8, &&str)>().execute().len(), 1000);
}

#[test]
fn query_on_an_empty_world_is_empty() {
    let world = World::new();
    assert!(world.query::<&u8>().execute().is_empty());
    assert!(world.query::<(&u8, &i32)>().execute().is_empty());
}

#[test]
fn query_without_a_matching_table_is_empty() {
    let mut world = World::new();
    world.spawn(vec![1u8.to_component_ref()], None);
    assert!(world.query::<&i64>().execute().is_empty());
    assert!(world.query::<(&u8, &i64)>().execute().is_empty());
}

#[test]
fn same_query_twice_gives_the_same_items() {
    let mut world = World::new();
    world.spawn(vec![1u8.to_component_ref(), 5i32.to_component_ref()], None);
    world.spawn(vec![2u8.to_component_ref()], None);
    world.spawn(vec![3u8.to_component_ref(), 7i32.to_component_ref()], None);

    let first = world.query::<&u8>().execute();
    let second = world.query::<&u8>().execute();
    assert_eq!(first, second);
    assert_eq!(first, vec![&1u8, &3, &2]);
}

#[test]
fn fresh_identifiers_count_up_from_zero() {
    let mut world = World::new();
    let a = world.spawn(vec![1u8.to_component_ref()], None);
    let b = world.spawn(vec![true.to_component_ref()], None);
    let c = world.spawn(vec![2u8.to_component_ref()], None);
    assert_eq!(a, EntityId::Value(0));
    assert_eq!(b, EntityId::Value(1));
    assert_eq!(c, EntityId::Value(2));
}

#[test]
fn migration_keeps_the_identifier_and_the_values() {
    let mut world = World::new();
    let first = world.spawn(vec![10u8.to_component_ref(), 100i32.to_component_ref()], None);
    let second = world.spawn(vec![20u8.to_component_ref(), 200i32.to_component_ref()], None);
    let third = world.spawn(vec![30u8.to_component_ref(), 300i32.to_component_ref()], None);

    assert_eq!(world.add_components(vec![7u64.to_component_ref()], first), Some(first));

    // The last row of the old table took the place of the row that left.
    assert_eq!(world.query::<(&u8, &i32)>().execute(), vec![(&30u8, &300i32), (&20, &200), (&10, &100)]);
    assert_eq!(world.query::<((&u8, &i32), &u64)>().execute(), vec![((&10u8, &100i32), &7u64)]);

    assert_eq!(world.remove_components(vec![TypeInfo::of::<i32>()], third), Some(third));
    assert_eq!(world.query::<&i32>().execute(), vec![&200, &100]);
    assert_eq!(world.query::<&u8>().execute(), vec![&20u8, &10, &30]);
    let _ = second;
}

#[test]
fn unknown_entity_is_not_found() {
    let mut world = World::new();
    let known = world.spawn(vec![1u8.to_component_ref()], None);
    assert_eq!(world.add_components(vec![1i32.to_component_ref()], EntityId::Value(77)), None);
    assert_eq!(world.remove_components(vec![TypeInfo::of::<u8>()], EntityId::Value(77)), None);
    assert!(world.remove(EntityId::Value(77)).is_none());
    assert_eq!(world.query::<&u8>().execute(), vec![&1u8]);
    let _ = known;
}

#[test]
fn removed_entity_hands_out_its_values() {
    let mut world = World::new();
    let id = world.spawn(vec![1u8.to_component_ref(), 5i32.to_component_ref()], None);
    let values = world.remove(id).unwrap();
    assert_eq!(values.len(), 2);
    assert!(matches!(values[0], Value::U8(1)));
    assert!(matches!(values[1], Value::I32(5)));
    assert!(world.query::<&u8>().execute().is_empty());
    assert!(world.remove(id).is_none());
}

#[test]
fn registering_a_type_again_changes_no_key() {
    let mut world = World::new();
    world.spawn(vec![1u8.to_component_ref()], None);
    world.register_component::<u8>();
    world.spawn(vec![2u8.to_component_ref()], None);
    assert_eq!(world.query::<&u8>().execute(), vec![&1u8, &2]);
}

#[test]
fn query_mut_writes_reach_the_rows() {
    let mut world = World::new();
    world.spawn(vec![1u8.to_component_ref(), 10i32.to_component_ref()], None);
    world.spawn(vec![20i32.to_component_ref()], None);
    world.spawn(vec![2u8.to_component_ref(), 30i32.to_component_ref()], None);
    world.spawn(vec![3u8.to_component_ref()], None);

    let items = world.query_mut::<i32>();
    assert_eq!(items.len(), 3);
    for item in items {
        *item += 1;
    }
    assert_eq!(world.query::<&i32>().execute(), vec![&11, &31, &21]);
    assert_eq!(world.query::<(&u8, &i32)>().execute(), vec![(&1u8, &11i32), (&2, &31)]);
    assert_eq!(world.query::<&u8>().execute(), vec![&1u8, &2, &3]);
}

#[test]
fn query_mut_without_a_matching_table_is_empty() {
    let mut world = World::new();
    assert!(world.query_mut::<u8>().is_empty());
    world.spawn(vec![1u8.to_component_ref()], None);
    assert!(world.query_mut::<i64>().is_empty());
    assert_eq!(world.query_mut::<u8>().len(), 1);
}

#[test]
fn remove_components_leaves_exactly_the_other_types() {
    let mut world = World::new();
    let id = world.spawn(
        vec![1u8.to_component_ref(), 2i32.to_component_ref(), "c".to_component_ref()],
        None,
    );
    assert_eq!(world.remove_components(vec![TypeInfo::of::<i32>()], id), Some(id));

    // The entity now lives in the second table, whose columns are those of `u8` and `&str`.
    let tables = world.tables();
    assert_eq!(tables.len(), 2);
    assert_eq!(tables[0].len(), 0);
    assert_eq!(tables[1].entities(), &vec![id]);
    let left: Vec<&str> = tables[1].column_info().iter().map(|info| info.name).collect();
    assert_eq!(left, vec!["u8", "&str"]);

    assert!(world.query::<&i32>().execute().is_empty());
    assert_eq!(world.query::<&u8>().execute(), vec![&1u8]);
    assert_eq!(world.query::<&&str>().execute(), vec![&"c"]);
}

#[test]
fn same_shape_shares_a_table_whatever_the_order() {
    let mut world = World::new();
    world.spawn(vec![1u8.to_component_ref(), 2i32.to_component_ref()], None);
    world.spawn(vec![4i32.to_component_ref(), 3u8.to_component_ref()], None);
    assert_eq!(world.tables().len(), 1);
    assert_eq!(world.query::<(&u8, &i32)>().execute(), vec![(&1u8, &2i32), (&3, &4)]);
    assert_eq!(world.type_id_index().len(), 16);
}
