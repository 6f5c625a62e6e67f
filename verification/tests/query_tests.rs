use ecs_core::storage::component::{Component, TypeInfo, Value};
use ecs_core::storage::query::{QueryInit, TQueryItem, TTableKey};
use ecs_core::storage::signature::Signature;
use ecs_core::storage::table::EntityTable;
use ecs_core::utils::zip;
use ecs_core::world::{gen_typeid_map, EntityId, World};

fn entity(mut components: Vec<Value>) -> Vec<Value> {
    components.sort_by(|a, b| a.type_info().id.partial_cmp(&b.type_info().id).unwrap());
    components
}

#[test]
fn query_test() {
    let mut world = World::new();
    let amount = 1000000;
    (0..amount).for_each(|_| {
        world.spawn(entity(vec![8_u8.to_component_ref(), 20_i32.to_component_ref()]), None);
    });
    (0..amount).for_each(|_| {
        world.spawn(entity(vec![9_u8.to_component_ref(), 10_i32.to_component_ref()]), None);
    });
    println!("{} entities created", amount * 2);
    let query = world.query_pair_mut::<u8, i32>();
    let mut t = 0;
    for (x, y) in query {
        *y += *x as i32;
        t += *y;
    }

    println!("query complete: {}", t);
    assert_eq!(t, 47_000_000);
    assert_eq!(world.query::<&i32>().execute().len(), 2000000);
    assert_eq!(*world.query::<&i32>().execute()[0], 28);
    assert_eq!(*world.query::<&i32>().execute()[1999999], 19);
}

#[test]
fn pair_query_walks_only_tables_with_both_types() {
    let mut world = World::new();
    world.spawn(vec![1u8.to_component_ref(), 10i32.to_component_ref()], None);
    world.spawn(vec![100i32.to_component_ref()], None);
    world.spawn(vec![2u8.to_component_ref(), 20i32.to_component_ref(), true.to_component_ref()], None);
    world.spawn(vec![3u8.to_component_ref()], None);

    for (x, y) in world.query_pair_mut::<u8, i32>() {
        *y += *x as i32;
    }
    assert_eq!(world.query::<&i32>().execute(), vec![&11, &100, &22]);
    assert_eq!(world.query::<&u8>().execute(), vec![&1u8, &2, &3]);
}

#[test]
fn table_pair_access_in_either_column_order() {
    let mut table = EntityTable::new(
        vec![TypeInfo::of::<i32>(), TypeInfo::of::<bool>(), TypeInfo::of::<u8>()],
        Signature::new(),
    );
    table.add_entity(
        vec![1_i32.to_component_ref(), true.to_component_ref(), 5_u8.to_component_ref()],
        EntityId::Value(0),
    );
    table.add_entity(
        vec![2_i32.to_component_ref(), false.to_component_ref(), 6_u8.to_component_ref()],
        EntityId::Value(1),
    );
    for (x, y) in table.get_pair_mut::<u8, i32>() {
        *y += *x as i32;
    }
    assert_eq!(table.get::<i32>(), vec![&6, &8]);
    for (x, y) in table.get_pair_mut::<i32, u8>() {
        *y += *x as u8;
    }
    assert_eq!(table.get::<u8>(), vec![&11, &14]);
    assert_eq!(table.get::<bool>(), vec![&true, &false]);
}

#[test]
fn key_of_a_pair_is_the_union_of_the_keys() {
    let type_map = gen_typeid_map();
    let pair = <(&u8, &i32)>::get_key(&type_map);
    let mut by_hand = <&u8>::get_key(&type_map);
    by_hand.union_with(&<&i32>::get_key(&type_map));
    assert!(pair.same_as(&by_hand));
    assert!(<&u8>::get_key(&type_map).is_subset(&pair));
    assert!(!pair.is_subset(&<&u8>::get_key(&type_map)));
    assert!(<&mut u8>::get_key(&type_map).same_as(&<&u8>::get_key(&type_map)));
    assert!(!<&u8>::get_key(&type_map).same_as(&<&i8>::get_key(&type_map)));
    let nested = <((&u8, &i32), &bool)>::get_key(&type_map);
    assert!(pair.is_subset(&nested));
    assert!(!nested.is_subset(&pair));
}

#[test]
fn get_data_pairs_the_rows() {
    let mut table = EntityTable::new(
        vec![TypeInfo::of::<i32>(), TypeInfo::of::<u8>()],
        Signature::new(),
    );
    table.add_entity(vec![1_i32.to_component_ref(), 5_u8.to_component_ref()], EntityId::Value(0));
    table.add_entity(vec![2_i32.to_component_ref(), 6_u8.to_component_ref()], EntityId::Value(1));
    assert_eq!(<&i32>::get_data(&table), vec![&1, &2]);
    assert_eq!(<(&u8, &i32)>::get_data(&table), vec![(&5u8, &1i32), (&6, &2)]);
}

#[test]
fn zip_stops_at_the_shorter_list() {
    assert_eq!(zip(vec![1, 2, 3], vec!['a', 'b']), vec![(1, 'a'), (2, 'b')]);
    assert_eq!(zip(vec![1], vec!['a', 'b']), vec![(1, 'a')]);
    assert_eq!(zip(Vec::<u8>::new(), vec!['a']), vec![]);
}

#[test]
fn query_init_runs_on_the_world_it_was_made_for() {
    let mut world = World::new();
    world.spawn(vec![1u8.to_component_ref()], None);
    let query = QueryInit::<&u8>::new(&world);
    assert_eq!(query.execute(), vec![&1u8]);
}
