use foxy_ecs::component::ComponentSparseVec;
use foxy_ecs::entity::Entity;
use foxy_ecs::error::EcsFault;

#[allow(non_snake_case)]
fn A() -> Entity {
    Entity { id: 1 }
}

#[allow(non_snake_case)]
fn B() -> Entity {
    Entity { id: 2 }
}

#[allow(non_snake_case)]
fn C() -> Entity {
    Entity { id: 3 }
}

#[test]
fn store_insert_get_roundtrip() {
    let mut s: ComponentSparseVec<String> = ComponentSparseVec::new();
    assert!(s.insert(&A(), String::from("alpha")).is_ok());
    assert_eq!(s.get(&A()), Some(&String::from("alpha")));
    assert_eq!(s.get(&B()), None);
}

#[test]
fn store_duplicate_insert_faults_and_keeps_value() {
    let mut s: ComponentSparseVec<u64> = ComponentSparseVec::new();
    assert!(s.insert(&A(), 10).is_ok());
    assert_eq!(s.insert(&A(), 11), Err(EcsFault::DuplicateInsert));
    assert_eq!(s.get(&A()), Some(&10));
}

#[test]
fn store_remove_nonlast_slot_keeps_others() {
    let mut s: ComponentSparseVec<u64> = ComponentSparseVec::new();
    s.insert(&A(), 10).unwrap();
    s.insert(&B(), 20).unwrap();
    s.insert(&C(), 30).unwrap();
    // A owns the first slot, not the last: the swap moves C's value.
    assert!(s.remove(&A()).is_ok());
    assert_eq!(s.get(&A()), None);
    assert_eq!(s.get(&B()), Some(&20));
    assert_eq!(s.get(&C()), Some(&30));
}

#[test]
fn store_remove_last_slot_keeps_others() {
    let mut s: ComponentSparseVec<u64> = ComponentSparseVec::new();
    s.insert(&A(), 10).unwrap();
    s.insert(&B(), 20).unwrap();
    s.insert(&C(), 30).unwrap();
    // C owns the last slot: the swap is a no-op, the erase still runs once.
    assert!(s.remove(&C()).is_ok());
    assert_eq!(s.get(&C()), None);
    assert_eq!(s.get(&A()), Some(&10));
    assert_eq!(s.get(&B()), Some(&20));
    // Removing C again reports the fault and changes nothing.
    assert_eq!(s.remove(&C()), Err(EcsFault::MissingOnRemove));
    assert_eq!(s.get(&A()), Some(&10));
    assert_eq!(s.get(&B()), Some(&20));
}

#[test]
fn store_remove_missing_faults() {
    let mut s: ComponentSparseVec<u64> = ComponentSparseVec::new();
    assert_eq!(s.remove(&A()), Err(EcsFault::MissingOnRemove));
    s.insert(&A(), 1).unwrap();
    assert_eq!(s.remove(&B()), Err(EcsFault::MissingOnRemove));
    assert_eq!(s.get(&A()), Some(&1));
}

#[test]
fn store_set_overwrites_in_place() {
    let mut s: ComponentSparseVec<u64> = ComponentSparseVec::new();
    s.insert(&A(), 1).unwrap();
    s.insert(&B(), 2).unwrap();
    assert!(s.set(&A(), 9).is_ok());
    assert_eq!(s.get(&A()), Some(&9));
    assert_eq!(s.get(&B()), Some(&2));
}

#[test]
fn store_set_missing_faults() {
    let mut s: ComponentSparseVec<u64> = ComponentSparseVec::new();
    assert_eq!(s.set(&A(), 9), Err(EcsFault::MissingOnSet));
    assert_eq!(s.get(&A()), None);
}

#[test]
fn store_default_is_empty() {
    let s: ComponentSparseVec<u64> = Default::default();
    assert_eq!(s.get(&A()), None);
}

#[test]
fn store_interleaved_insert_remove_stays_consistent() {
    // A longer interleaving: every entity readable at every step reads back
    // exactly the value stored for it.
    let mut s: ComponentSparseVec<u64> = ComponentSparseVec::new();
    let ids: Vec<Entity> = (0u128..20).map(|id| Entity { id }).collect();
    for (i, e) in ids.iter().enumerate() {
        s.insert(e, i as u64).unwrap();
    }
    // Remove every other entity.
    for (i, e) in ids.iter().enumerate() {
        if i % 2 == 0 {
            assert!(s.remove(e).is_ok());
        }
    }
    for (i, e) in ids.iter().enumerate() {
        if i % 2 == 0 {
            assert_eq!(s.get(e), None);
        } else {
            assert_eq!(s.get(e), Some(&(i as u64)));
        }
    }
}
