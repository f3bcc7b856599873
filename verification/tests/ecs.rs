use foxy_ecs::component::Name;
use foxy_ecs::entity::Entity;
use foxy_ecs::error::EcsFault;
use foxy_ecs::manager::ECSManager;

const NAME_KEY: u64 = 1;
const POSITION_KEY: u64 = 2;

#[test]
fn spawn_add_get_roundtrip() {
    let mut m: ECSManager<Name> = ECSManager::new();
    let e = m.spawn();
    assert!(m.add_component(&e, NAME_KEY, Name(String::from("a"))).is_ok());
    let got = m.get(&e, NAME_KEY);
    assert_eq!(got, Some(&Name(String::from("a"))));
}

#[test]
fn remove_one_keeps_others() {
    let mut m: ECSManager<Name> = ECSManager::new();
    let e0 = m.spawn();
    let e1 = m.spawn();
    let e2 = m.spawn();
    m.add_component(&e0, NAME_KEY, Name(String::from("zero"))).unwrap();
    m.add_component(&e1, NAME_KEY, Name(String::from("one"))).unwrap();
    m.add_component(&e2, NAME_KEY, Name(String::from("two"))).unwrap();
    assert!(m.remove_component(&e0, NAME_KEY).is_ok());
    assert_eq!(m.get(&e0, NAME_KEY), None);
    assert_eq!(m.get(&e1, NAME_KEY), Some(&Name(String::from("one"))));
    assert_eq!(m.get(&e2, NAME_KEY), Some(&Name(String::from("two"))));
}

#[test]
fn remove_without_ever_adding_faults() {
    let mut m: ECSManager<Name> = ECSManager::new();
    let e = m.spawn();
    // No store for Name exists yet, so the fault is the unregistered one.
    assert_eq!(
        m.remove_component(&e, NAME_KEY),
        Err(EcsFault::UnregisteredComponentAccess)
    );
    // The state is unchanged: the entity still works normally.
    assert_eq!(m.get(&e, NAME_KEY), None);
    assert!(m.add_component(&e, NAME_KEY, Name(String::from("a"))).is_ok());
    assert_eq!(m.get(&e, NAME_KEY), Some(&Name(String::from("a"))));
}

#[test]
fn remove_after_registration_faults_missing() {
    let mut m: ECSManager<Name> = ECSManager::new();
    let e = m.spawn();
    assert!(m.try_register_component(NAME_KEY));
    // The store exists but the entity has no Name: a distinct fault.
    assert_eq!(m.remove_component(&e, NAME_KEY), Err(EcsFault::MissingOnRemove));
    assert_eq!(m.get(&e, NAME_KEY), None);
}

#[test]
fn hundred_entities_removed_in_reverse() {
    let mut m: ECSManager<u64> = ECSManager::new();
    let mut handles: Vec<Entity> = Vec::new();
    for i in 0u64..100 {
        let e = m.spawn();
        m.add_component(&e, POSITION_KEY, i).unwrap();
        handles.push(e);
    }
    for i in (0usize..100).rev() {
        assert!(m.remove_component(&handles[i], POSITION_KEY).is_ok());
        // After each removal the removed entity is gone and every
        // remaining entity still reads back exactly its own value.
        assert_eq!(m.get(&handles[i], POSITION_KEY), None);
        for j in 0..i {
            assert_eq!(m.get(&handles[j], POSITION_KEY), Some(&(j as u64)));
        }
    }
    for h in &handles {
        assert_eq!(m.get(h, POSITION_KEY), None);
    }
}

#[test]
fn registration_is_idempotent() {
    let mut m: ECSManager<Name> = ECSManager::new();
    assert!(m.try_register_component(NAME_KEY));
    assert!(!m.try_register_component(NAME_KEY));
    assert!(!m.try_register_component(NAME_KEY));
    assert!(m.try_register_component(POSITION_KEY));
    assert!(!m.try_register_component(POSITION_KEY));
}

#[test]
fn registration_survives_component_churn() {
    let mut m: ECSManager<u64> = ECSManager::new();
    let e = m.spawn();
    m.add_component(&e, POSITION_KEY, 5).unwrap();
    m.remove_component(&e, POSITION_KEY).unwrap();
    // The store was created by add_component and persists after removal.
    assert!(!m.try_register_component(POSITION_KEY));
}

#[test]
fn duplicate_add_faults_and_keeps_value() {
    let mut m: ECSManager<u64> = ECSManager::new();
    let e = m.spawn();
    m.add_component(&e, POSITION_KEY, 5).unwrap();
    assert_eq!(
        m.add_component(&e, POSITION_KEY, 6),
        Err(EcsFault::DuplicateInsert)
    );
    assert_eq!(m.get(&e, POSITION_KEY), Some(&5));
}

#[test]
fn set_overwrites_value() {
    let mut m: ECSManager<u64> = ECSManager::new();
    let e = m.spawn();
    let other = m.spawn();
    m.add_component(&e, POSITION_KEY, 5).unwrap();
    m.add_component(&other, POSITION_KEY, 7).unwrap();
    assert!(m.set(&e, POSITION_KEY, 9).is_ok());
    assert_eq!(m.get(&e, POSITION_KEY), Some(&9));
    assert_eq!(m.get(&other, POSITION_KEY), Some(&7));
}

#[test]
fn set_missing_faults() {
    let mut m: ECSManager<u64> = ECSManager::new();
    let e = m.spawn();
    assert_eq!(m.set(&e, POSITION_KEY, 9), Err(EcsFault::UnregisteredComponentAccess));
    m.try_register_component(POSITION_KEY);
    assert_eq!(m.set(&e, POSITION_KEY, 9), Err(EcsFault::MissingOnSet));
    assert_eq!(m.get(&e, POSITION_KEY), None);
}

#[test]
fn unknown_entity_faults() {
    let mut m: ECSManager<u64> = ECSManager::new();
    let stranger = Entity { id: 424242 };
    assert_eq!(
        m.add_component(&stranger, POSITION_KEY, 1),
        Err(EcsFault::UnknownEntity)
    );
    assert_eq!(
        m.remove_component(&stranger, POSITION_KEY),
        Err(EcsFault::UnknownEntity)
    );
    assert_eq!(m.set(&stranger, POSITION_KEY, 1), Err(EcsFault::UnknownEntity));
    assert_eq!(m.despawn(&stranger), Err(EcsFault::UnknownEntity));
    assert_eq!(m.get(&stranger, POSITION_KEY), None);
}

#[test]
fn despawn_purges_every_component() {
    let mut m: ECSManager<u64> = ECSManager::new();
    let e = m.spawn();
    let other = m.spawn();
    m.add_component(&e, NAME_KEY, 1).unwrap();
    m.add_component(&e, POSITION_KEY, 2).unwrap();
    m.add_component(&other, POSITION_KEY, 3).unwrap();
    assert!(m.despawn(&e).is_ok());
    assert_eq!(m.get(&e, NAME_KEY), None);
    assert_eq!(m.get(&e, POSITION_KEY), None);
    // The despawned id is unknown from now on.
    assert_eq!(m.add_component(&e, NAME_KEY, 9), Err(EcsFault::UnknownEntity));
    assert_eq!(m.despawn(&e), Err(EcsFault::UnknownEntity));
    // Other entities are untouched.
    assert_eq!(m.get(&other, POSITION_KEY), Some(&3));
}

#[test]
fn readd_after_remove_succeeds() {
    // If removal left a stale type-set entry or an orphaned store entry,
    // re-adding the same type would fault; it must succeed cleanly.
    let mut m: ECSManager<u64> = ECSManager::new();
    let e = m.spawn();
    m.add_component(&e, POSITION_KEY, 1).unwrap();
    m.remove_component(&e, POSITION_KEY).unwrap();
    assert!(m.add_component(&e, POSITION_KEY, 2).is_ok());
    assert_eq!(m.get(&e, POSITION_KEY), Some(&2));
}

#[test]
fn respawn_at_same_id_after_despawn() {
    // Despawn must purge the id from every store: respawning the same id
    // and re-adding the same types must behave like a fresh entity.
    let mut m: ECSManager<u64> = ECSManager::new();
    let e = m.spawn_at(55);
    m.add_component(&e, NAME_KEY, 1).unwrap();
    m.add_component(&e, POSITION_KEY, 2).unwrap();
    m.despawn(&e).unwrap();
    let e2 = m.spawn_at(55);
    assert_eq!(m.get(&e2, NAME_KEY), None);
    assert!(m.add_component(&e2, NAME_KEY, 3).is_ok());
    assert_eq!(m.get(&e2, NAME_KEY), Some(&3));
}

#[test]
fn component_registered_tracks_registration() {
    let mut m: ECSManager<u64> = ECSManager::new();
    assert!(!m.component_registered(NAME_KEY));
    let e = m.spawn();
    m.add_component(&e, NAME_KEY, 1).unwrap();
    assert!(m.component_registered(NAME_KEY));
    assert!(!m.component_registered(POSITION_KEY));
}

#[test]
fn spawned_ids_are_distinct() {
    let mut m: ECSManager<u64> = ECSManager::new();
    let a = m.spawn();
    let b = m.spawn();
    let c = m.spawn();
    assert_ne!(a.id, b.id);
    assert_ne!(a.id, c.id);
    assert_ne!(b.id, c.id);
}

#[test]
fn spawn_at_collision_leaves_state_alone() {
    let mut m: ECSManager<u64> = ECSManager::new();
    let e = m.spawn_at(77);
    m.add_component(&e, POSITION_KEY, 5).unwrap();
    let again = m.spawn_at(77);
    assert_eq!(again.id, 77);
    assert_eq!(m.get(&again, POSITION_KEY), Some(&5));
}

#[test]
fn entity_handle_forwards_to_manager() {
    let mut m: ECSManager<Name> = ECSManager::new();
    let e = Entity::new(&mut m);
    assert!(e.add_component(&mut m, NAME_KEY, Name(String::from("fox"))).is_ok());
    assert_eq!(e.get(&m, NAME_KEY), Some(&Name(String::from("fox"))));
    assert!(e.set(&mut m, NAME_KEY, Name(String::from("vixen"))).is_ok());
    assert_eq!(e.get(&m, NAME_KEY), Some(&Name(String::from("vixen"))));
    assert!(e.remove_component(&mut m, NAME_KEY).is_ok());
    assert_eq!(e.get(&m, NAME_KEY), None);
}

#[test]
fn handles_are_copies_addressing_one_entity() {
    let mut m: ECSManager<u64> = ECSManager::new();
    let e = m.spawn();
    let alias = e;
    m.add_component(&e, POSITION_KEY, 4).unwrap();
    assert_eq!(m.get(&alias, POSITION_KEY), Some(&4));
    assert_eq!(e, alias);
}
