use ecs_core::storage::column::Column;
use ecs_core::storage::component::{Component, TypeInfo, Value};

#[test]
fn can_create_with_an_arbitrary_type() {
    let mut column = Column::new(TypeInfo::of::<i32>());
    column.push(1);
    column.push(2);
    column.push(3);
    assert_eq!(*column.get::<i32>(0).unwrap(), 1);
    assert_eq!(*column.get::<i32>(1).unwrap(), 2);
    assert_eq!(*column.get::<i32>(2).unwrap(), 3);
}

#[test]
fn can_modify_with_get_mut() {
    let mut column = Column::new(TypeInfo::of::<i32>());
    column.push(1);
    column.push(2);
    column.push(3);

    let second = column.get_mut::<i32>(1).unwrap();
    *second = 10;
    assert_eq!(*column.get::<i32>(1).unwrap(), 10);
}

#[test]
fn removal_at_index_ensures_compact_data() {
    let mut column = Column::new(TypeInfo::of::<i32>());
    column.push(1000);
    column.push(2000);
    column.push(3000);
    column.push(4000);
    column.remove_component(1);

    assert_eq!(*column.get::<i32>(0).unwrap(), 1000);
    assert_eq!(*column.get::<i32>(1).unwrap(), 4000);
}

#[test]
fn removal_returns_removed_data() {
    let mut column = Column::new(TypeInfo::of::<i32>());
    column.push(1000);
    column.push(2000);
    column.push(3000);
    column.push(4000);
    let component = column.remove_component(1);
    column.push_component(component);

    assert_eq!(*column.get::<i32>(3).unwrap(), 2000);
}

#[test]
fn removes_at_end() {
    let mut column = Column::new(TypeInfo::of::<i32>());
    column.push(1);
    column.push(2);
    column.push(3);
    column.remove_component(2);

    assert_eq!(*column.get::<i32>(1).unwrap(), 2);
    assert_eq!(column.get::<i32>(2), None);
    column
        .get_slice::<i32>()
        .iter()
        .enumerate()
        .for_each(|(i, elem)| assert_eq!(i as i32 + 1, **elem))
}

#[test]
fn component_type_info_will_retrieve_correct_name() {
    let str = "hello";
    let type_info = str.type_info();
    assert_eq!(type_info.name, "&str")
}

#[test]
fn erased_value_knows_its_type() {
    let value = 7_u8.to_component_ref();
    assert!(matches!(value, Value::U8(7)));
}

#[test]
fn middle_removal_moves_the_last_row_in() {
    let mut column = Column::new(TypeInfo::of::<i32>());
    column.push(1000);
    column.push(2000);
    column.push(3000);
    column.push(4000);
    let removed = column.remove_component(1);
    assert!(matches!(removed, Value::I32(2000)));
    assert_eq!(column.get_slice::<i32>(), vec![&1000, &4000, &3000]);
    assert_eq!(column.len(), 3);
}

#[test]
fn capacity_starts_at_one_and_doubles() {
    let mut column = Column::new(TypeInfo::of::<u8>());
    assert_eq!((column.len(), column.capacity()), (0, 0));
    column.push(1_u8);
    assert_eq!((column.len(), column.capacity()), (1, 1));
    column.push(2_u8);
    assert_eq!((column.len(), column.capacity()), (2, 2));
    column.push(3_u8);
    assert_eq!((column.len(), column.capacity()), (3, 4));
    column.push(4_u8);
    column.push(5_u8);
    assert_eq!((column.len(), column.capacity()), (5, 8));
    column.remove_component(0);
    assert_eq!((column.len(), column.capacity()), (4, 8));
}

#[test]
fn pop_drops_the_last_row() {
    let mut column = Column::new(TypeInfo::of::<i32>());
    assert!(!column.pop());
    column.push(1);
    column.push(2);
    assert!(column.pop());
    assert_eq!(column.get_slice::<i32>(), vec![&1]);
    assert!(column.pop());
    assert!(!column.pop());
    assert_eq!(column.len(), 0);
}

#[test]
fn get_beyond_the_rows_is_none() {
    let mut column = Column::new(TypeInfo::of::<i32>());
    assert_eq!(column.get::<i32>(0), None);
    column.push(5);
    assert_eq!(column.get::<i32>(0), Some(&5));
    assert_eq!(column.get::<i32>(1), None);
    assert!(column.get_mut::<i32>(1).is_none());
}

#[test]
fn strings_are_components_too() {
    let mut column = Column::new(TypeInfo::of::<String>());
    column.push(String::from("a"));
    column.push(String::from("b"));
    column.get_mut::<String>(0).unwrap().push('!');
    assert_eq!(column.get::<String>(0).unwrap(), "a!");
    let removed = column.remove_component(0);
    assert!(matches!(removed, Value::String(ref s) if s == "a!"));
    assert_eq!(column.get::<String>(0).unwrap(), "b");
}

#[test]
fn descriptor_carries_identity_layout_and_name() {
    let info = TypeInfo::of::<u64>();
    assert_eq!(info.id, ecs_core::storage::component::TypeId::U64);
    assert_eq!(info.layout.size, 8);
    assert_eq!(info.layout.align, 8);
    assert_eq!(info.name, "u64");
    assert_eq!(TypeInfo::of::<String>().name, "alloc::string::String");
    assert_eq!(TypeInfo::of::<bool>().layout.size, 1);
}

#[test]
fn get_mut_slice_writes_every_row() {
    let mut column = Column::new(TypeInfo::of::<u16>());
    column.push(1_u16);
    column.push(2_u16);
    column.push(3_u16);
    for (i, value) in column.get_mut_slice::<u16>().into_iter().enumerate() {
        *value += 10 * i as u16;
    }
    assert_eq!(column.get_slice::<u16>(), vec![&1, &12, &23]);
    assert_eq!(column.capacity(), 4);
}
