//! The manager: the single authority over entities and component stores.
//!
//! The manager owns one sparse-set store per registered component type and,
//! for every spawned entity, the set of component types the entity currently
//! has. Every operation is validated against that record before it touches a
//! store, and each usage fault leaves the state untouched: the engine
//! degrades rather than crashes. Callers hold the manager directly (or
//! behind a lock of their choosing) and pass it into each call.

use vstd::prelude::*;
use vstd::hash_map::HashMapWithView;
use crate::component::ComponentSparseVec;
use crate::entity::{Entity, EntityID};
use crate::error::EcsFault;

verus! {

/// A process-stable identifier, unique per concrete component type.
///
/// The manager never looks inside a key: any scheme that assigns each
/// component type its own value (a registry of constants, a hash of the
/// type's identity) will do, as long as it is stable for the process.
pub type ComponentTypeKey = u64;

/// The entity-component manager.
#[verifier::reject_recursive_types(T)]
pub struct ECSManager<T> {
    entity_components: HashMapWithView<EntityID, Vec<ComponentTypeKey>>,
    component_maps: HashMapWithView<ComponentTypeKey, ComponentSparseVec<T>>,
}

impl<T> ECSManager<T> {
    /// The per-entity records: entity id to the list of its component types.
    pub closed spec fn entity_records(self) -> Map<EntityID, Vec<ComponentTypeKey>> {
        self.entity_components@
    }

    /// The registered stores, one per component type key.
    pub closed spec fn stores(self) -> Map<ComponentTypeKey, ComponentSparseVec<T>> {
        self.component_maps@
    }

    /// The set of entities the manager has spawned (and not despawned).
    pub open spec fn entities(self) -> Set<EntityID> {
        self.entity_records().dom()
    }

    /// The component types listed in one entity's type-set.
    pub open spec fn typeset_seq(self, id: EntityID) -> Seq<ComponentTypeKey> {
        self.entity_records()[id]@
    }

    /// Whether `id` is a known entity whose type-set lists `key`.
    pub open spec fn has_component(self, id: EntityID, key: ComponentTypeKey) -> bool {
        self.entities().contains(id) && self.typeset_seq(id).contains(key)
    }

    /// Whether a store for `key` has been registered.
    pub open spec fn registered(self, key: ComponentTypeKey) -> bool {
        self.stores().dom().contains(key)
    }

    /// The abstract contents of the store for `key`.
    pub open spec fn store_contents(self, key: ComponentTypeKey) -> Map<EntityID, T> {
        self.stores()[key].contents()
    }

    /// Well-formedness. Each store is well-formed; each type-set lists a key
    /// at most once; and the type-sets agree with the stores: an entity's
    /// type-set lists a key exactly when the store for that key holds the
    /// entity, and stores hold no unknown entities.
    pub open spec fn wf(self) -> bool {
        &&& forall|k: ComponentTypeKey| #[trigger] self.registered(k) ==> self.stores()[k].wf()
        &&& forall|id: EntityID| #[trigger] self.entities().contains(id) ==> self.typeset_seq(
            id,
        ).no_duplicates()
        &&& forall|id: EntityID, k: ComponentTypeKey|
            self.entities().contains(id) && #[trigger] self.typeset_seq(id).contains(k) ==> {
                &&& self.registered(k)
                &&& self.stores()[k].ids().contains(id)
            }
        &&& forall|id: EntityID, k: ComponentTypeKey|
            self.registered(k) && #[trigger] self.stores()[k].ids().contains(id) ==> {
                &&& self.entities().contains(id)
                &&& self.typeset_seq(id).contains(k)
            }
    }

    /// Creates a manager with no entities and no stores.
    pub fn new() -> (r: Self)
        ensures
            r.wf(),
            r.entities() == Set::<EntityID>::empty(),
            r.stores() == Map::<ComponentTypeKey, ComponentSparseVec<T>>::empty(),
    {
        let r = Self {
            entity_components: HashMapWithView::new(),
            component_maps: HashMapWithView::new(),
        };
        proof {
            assert(r.entities() =~= Set::<EntityID>::empty());
        }
        r
    }

    /// Records `id` as an entity with an empty type-set. A collision with an
    /// already-known id (possible only because ids come from outside) leaves
    /// the state untouched, so no entity's components are ever clobbered.
    pub fn spawn_at(&mut self, id: EntityID) -> (r: Entity)
        requires
            old(self).wf(),
        ensures
            final(self).wf(),
            r.id == id,
            final(self).entities().contains(id),
            old(self).entities().contains(id) ==> *final(self) == *old(self),
            !old(self).entities().contains(id) ==> {
                &&& final(self).entities() == old(self).entities().insert(id)
                &&& final(self).typeset_seq(id) == Seq::<ComponentTypeKey>::empty()
                &&& forall|id2: EntityID|
                    id2 != id && old(self).entities().contains(id2) ==> final(self).typeset_seq(
                        id2,
                    ) == old(self).typeset_seq(id2)
                &&& final(self).stores() == old(self).stores()
            },
    {
        if self.entity_components.contains_key(&id) {
            Entity { id }
        } else {
            self.entity_components.insert(id, Vec::new());
            proof {
                let prev = *old(self);
                assert(self.typeset_seq(id) =~= Seq::<ComponentTypeKey>::empty());
                assert forall|k: ComponentTypeKey| #[trigger] self.registered(k) implies self
                    .stores()[k].wf() by {
                    assert(prev.registered(k));
                }
                assert forall|id2: EntityID| #[trigger] self.entities().contains(id2) implies self
                    .typeset_seq(id2).no_duplicates() by {
                    if id2 != id {
                        assert(prev.entities().contains(id2));
                        assert(self.typeset_seq(id2) == prev.typeset_seq(id2));
                    }
                }
                assert forall|id2: EntityID, k: ComponentTypeKey|
                    self.entities().contains(id2) && #[trigger] self.typeset_seq(id2).contains(
                        k,
                    ) implies {
                    &&& self.registered(k)
                    &&& self.stores()[k].ids().contains(id2)
                } by {
                    assert(id2 != id);
                    assert(prev.typeset_seq(id2).contains(k));
                }
                assert forall|id2: EntityID, k: ComponentTypeKey|
                    self.registered(k) && #[trigger] self.stores()[k].ids().contains(id2) implies {
                    &&& self.entities().contains(id2)
                    &&& self.typeset_seq(id2).contains(k)
                } by {
                    assert(prev.registered(k) && prev.stores()[k].ids().contains(id2));
                    assert(id2 != id);
                    assert(self.typeset_seq(id2) == prev.typeset_seq(id2));
                }
            }
            Entity { id }
        }
    }

    /// Allocates a fresh 128-bit id, records it with an empty type-set, and
    /// returns a handle. The id is drawn at random from so large a space
    /// that a collision never happens in practice; if one did, the state
    /// would simply be left as it was (see [`ECSManager::spawn_at`]).
    pub fn spawn(&mut self) -> (r: Entity)
        requires
            old(self).wf(),
        ensures
            final(self).wf(),
            final(self).entities().contains(r.id),
            old(self).entities().contains(r.id) ==> *final(self) == *old(self),
            !old(self).entities().contains(r.id) ==> {
                &&& final(self).entities() == old(self).entities().insert(r.id)
                &&& final(self).typeset_seq(r.id) == Seq::<ComponentTypeKey>::empty()
                &&& forall|id2: EntityID|
                    id2 != r.id && old(self).entities().contains(id2) ==> final(self).typeset_seq(
                        id2,
                    ) == old(self).typeset_seq(id2)
                &&& final(self).stores() == old(self).stores()
            },
    {
        let id = fresh_entity_id();
        self.spawn_at(id)
    }

    /// Whether a store for `key` has been registered.
    pub fn component_registered(&self, key: ComponentTypeKey) -> (r: bool)
        ensures
            r == self.registered(key),
    {
        self.component_maps.contains_key(&key)
    }

    /// Registers a new, empty store for `key`.
    fn register_component(&mut self, key: ComponentTypeKey)
        requires
            old(self).wf(),
            !old(self).registered(key),
        ensures
            final(self).wf(),
            final(self).registered(key),
            final(self).stores().dom() == old(self).stores().dom().insert(key),
            final(self).store_contents(key) == Map::<EntityID, T>::empty(),
            final(self).stores()[key].ids() == Set::<EntityID>::empty(),
            forall|k2: ComponentTypeKey|
                k2 != key && old(self).registered(k2) ==> final(self).stores()[k2] == old(self).stores()[k2],
            final(self).entity_records() == old(self).entity_records(),
    {
        self.component_maps.insert(key, ComponentSparseVec::new());
        proof {
            let prev = *old(self);
            assert forall|k: ComponentTypeKey| #[trigger] self.registered(k) implies self.stores()[k].wf() by {
                if k != key {
                    assert(prev.registered(k));
                    assert(self.stores()[k] == prev.stores()[k]);
                }
            }
            assert forall|id2: EntityID| #[trigger] self.entities().contains(id2) implies self
                .typeset_seq(id2).no_duplicates() by {
                assert(prev.entities().contains(id2));
                assert(self.typeset_seq(id2) == prev.typeset_seq(id2));
            }
            assert forall|id2: EntityID, k: ComponentTypeKey|
                self.entities().contains(id2) && #[trigger] self.typeset_seq(id2).contains(
                    k,
                ) implies {
                &&& self.registered(k)
                &&& self.stores()[k].ids().contains(id2)
            } by {
                assert(prev.typeset_seq(id2).contains(k));
                assert(prev.registered(k));
                assert(k != key);
            }
            assert forall|id2: EntityID, k: ComponentTypeKey|
                self.registered(k) && #[trigger] self.stores()[k].ids().contains(id2) implies {
                &&& self.entities().contains(id2)
                &&& self.typeset_seq(id2).contains(k)
            } by {
                assert(k != key);
                assert(prev.registered(k) && prev.stores()[k].ids().contains(id2));
                assert(self.typeset_seq(id2) == prev.typeset_seq(id2));
            }
        }
    }

    /// Registers a store for `key` if none exists yet; returns whether a
    /// registration happened. Idempotent: over any sequence of calls the
    /// store is created exactly once, and exactly the first call returns
    /// `true`.
    pub fn try_register_component(&mut self, key: ComponentTypeKey) -> (r: bool)
        requires
            old(self).wf(),
        ensures
            final(self).wf(),
            r == !old(self).registered(key),
            final(self).registered(key),
            !r ==> *final(self) == *old(self),
            r ==> {
                &&& final(self).stores().dom() == old(self).stores().dom().insert(key)
                &&& final(self).store_contents(key) == Map::<EntityID, T>::empty()
                &&& final(self).stores()[key].ids() == Set::<EntityID>::empty()
                &&& forall|k2: ComponentTypeKey|
                    k2 != key && old(self).registered(k2) ==> final(self).stores()[k2] == old(self).stores()[k2]
                &&& final(self).entity_records() == old(self).entity_records()
            },
    {
        if !self.component_registered(key) {
            self.register_component(key);
            true
        } else {
            false
        }
    }

    /// Attaches `component` to `entity`: registers a store for `key` if none
    /// exists, marks `key` in the entity's type-set, and stores the value.
    ///
    /// An entity holds at most one value per component type, so re-adding a
    /// type the entity already has is uniformly a usage fault: the state is
    /// left untouched and [`EcsFault::DuplicateInsert`] reports it (callers
    /// that mean to overwrite use [`ECSManager::set`]).
    pub fn add_component(&mut self, entity: &Entity, key: ComponentTypeKey, component: T) -> (r:
        Result<(), EcsFault>)
        requires
            old(self).wf(),
        ensures
            final(self).wf(),
            !old(self).entities().contains(entity.id) ==> r == Err::<(), EcsFault>(
                EcsFault::UnknownEntity,
            ) && *final(self) == *old(self),
            old(self).has_component(entity.id, key) ==> r == Err::<(), EcsFault>(
                EcsFault::DuplicateInsert,
            ) && *final(self) == *old(self),
            old(self).entities().contains(entity.id) && !old(self).has_component(entity.id, key)
                ==> r == Ok::<(), EcsFault>(()) && {
                &&& final(self).entities() == old(self).entities()
                &&& final(self).typeset_seq(entity.id) == old(self).typeset_seq(entity.id).push(
                    key,
                )
                &&& final(self).has_component(entity.id, key)
                &&& forall|id2: EntityID|
                    id2 != entity.id && old(self).entities().contains(id2) ==> final(self).typeset_seq(id2) == old(self).typeset_seq(id2)
                &&& final(self).registered(key)
                &&& final(self).stores().dom() == old(self).stores().dom().insert(key)
                &&& old(self).registered(key) ==> final(self).store_contents(key) == old(self).store_contents(key).insert(entity.id, component)
                &&& !old(self).registered(key) ==> final(self).store_contents(key) == Map::<
                    EntityID,
                    T,
                >::empty().insert(entity.id, component)
                &&& forall|k2: ComponentTypeKey|
                    k2 != key && old(self).registered(k2) ==> final(self).stores()[k2] == old(self).stores()[k2]
            },
    {
        if !self.entity_components.contains_key(&entity.id) {
            return Err(EcsFault::UnknownEntity);
        }
        self.try_register_component(key);
        let listed = match self.entity_components.get(&entity.id) {
            Some(ts) => key_listed(ts, key),
            None => unreached(),
        };
        if listed {
            return Err(EcsFault::DuplicateInsert);
        }
        let ghost reg = *self;
        proof {
            assert(!self.stores()[key].ids().contains(entity.id));
        }
        let mut ts = match self.entity_components.remove(&entity.id) {
            Some(t) => t,
            None => unreached(),
        };
        ts.push(key);
        self.entity_components.insert(entity.id, ts);
        let mut store = match self.component_maps.remove(&key) {
            Some(s) => s,
            None => unreached(),
        };
        let res = store.insert(entity, component);
        self.component_maps.insert(key, store);
        proof {
            let prev = *old(self);
            assert(self.typeset_seq(entity.id) == reg.typeset_seq(entity.id).push(key));
            assert(self.typeset_seq(entity.id).last() == key);
            assert(self.typeset_seq(entity.id).contains(key));
            assert(self.entities() =~= prev.entities());
            assert(self.stores().dom() =~= prev.stores().dom().insert(key));
            assert forall|k: ComponentTypeKey| #[trigger] self.registered(k) implies self.stores()[k].wf() by {
                if k != key {
                    assert(reg.registered(k));
                    assert(self.stores()[k] == reg.stores()[k]);
                }
            }
            assert forall|id2: EntityID| #[trigger] self.entities().contains(id2) implies self
                .typeset_seq(id2).no_duplicates() by {
                assert(reg.entities().contains(id2));
                if id2 != entity.id {
                    assert(self.typeset_seq(id2) == reg.typeset_seq(id2));
                } else {
                    assert(!reg.typeset_seq(id2).contains(key));
                    assert(forall|j: int|
                        0 <= j < reg.typeset_seq(id2).len() ==> reg.typeset_seq(id2)[j] != key);
                }
            }
            assert forall|id2: EntityID, k: ComponentTypeKey|
                self.entities().contains(id2) && #[trigger] self.typeset_seq(id2).contains(
                    k,
                ) implies {
                &&& self.registered(k)
                &&& self.stores()[k].ids().contains(id2)
            } by {
                if id2 == entity.id {
                    if k != key {
                        assert(reg.typeset_seq(id2).contains(k));
                        assert(self.stores()[k] == reg.stores()[k]);
                    }
                } else {
                    assert(self.typeset_seq(id2) == reg.typeset_seq(id2));
                    assert(reg.typeset_seq(id2).contains(k));
                    if k != key {
                        assert(self.stores()[k] == reg.stores()[k]);
                    }
                }
            }
            assert forall|id2: EntityID, k: ComponentTypeKey|
                self.registered(k) && #[trigger] self.stores()[k].ids().contains(id2) implies {
                &&& self.entities().contains(id2)
                &&& self.typeset_seq(id2).contains(k)
            } by {
                if k == key {
                    if id2 != entity.id {
                        assert(reg.stores()[key].ids().contains(id2));
                        assert(reg.typeset_seq(id2).contains(k));
                        assert(self.typeset_seq(id2) == reg.typeset_seq(id2));
                    }
                } else {
                    assert(self.stores()[k] == reg.stores()[k]);
                    assert(reg.registered(k) && reg.stores()[k].ids().contains(id2));
                    if id2 != entity.id {
                        assert(self.typeset_seq(id2) == reg.typeset_seq(id2));
                    } else {
                        assert(reg.typeset_seq(id2).contains(k));
                        let j = choose|j: int|
                            0 <= j < reg.typeset_seq(id2).len() && reg.typeset_seq(id2)[j] == k;
                        assert(self.typeset_seq(id2)[j] == k);
                        assert(self.typeset_seq(id2).contains(k));
                    }
                }
            }
        }
        match res {
            Ok(()) => Ok(()),
            Err(_) => unreached(),
        }
    }

    /// Detaches the component of type `key` from `entity`: unmarks the key
    /// in the entity's type-set and removes the stored value.
    ///
    /// Removal of a type the entity does not have is a usage fault and
    /// leaves the state untouched: [`EcsFault::UnregisteredComponentAccess`]
    /// if no store for the type exists at all, otherwise
    /// [`EcsFault::MissingOnRemove`].
    pub fn remove_component(&mut self, entity: &Entity, key: ComponentTypeKey) -> (r: Result<
        (),
        EcsFault,
    >)
        requires
            old(self).wf(),
        ensures
            final(self).wf(),
            !old(self).entities().contains(entity.id) ==> r == Err::<(), EcsFault>(
                EcsFault::UnknownEntity,
            ) && *final(self) == *old(self),
            old(self).entities().contains(entity.id) && !old(self).has_component(entity.id, key)
                && !old(self).registered(key) ==> r == Err::<(), EcsFault>(
                EcsFault::UnregisteredComponentAccess,
            ) && *final(self) == *old(self),
            old(self).entities().contains(entity.id) && !old(self).has_component(entity.id, key)
                && old(self).registered(key) ==> r == Err::<(), EcsFault>(
                EcsFault::MissingOnRemove,
            ) && *final(self) == *old(self),
            old(self).has_component(entity.id, key) ==> r == Ok::<(), EcsFault>(()) && {
                &&& final(self).entities() == old(self).entities()
                &&& !final(self).typeset_seq(entity.id).contains(key)
                &&& final(self).typeset_seq(entity.id).len() == old(self).typeset_seq(
                    entity.id,
                ).len() - 1
                &&& forall|k2: ComponentTypeKey|
                    k2 != key ==> (final(self).typeset_seq(entity.id).contains(k2) <==> old(self).typeset_seq(entity.id).contains(k2))
                &&& forall|id2: EntityID|
                    id2 != entity.id && old(self).entities().contains(id2) ==> final(self).typeset_seq(id2) == old(self).typeset_seq(id2)
                &&& final(self).stores().dom() == old(self).stores().dom()
                &&& final(self).store_contents(key) == old(self).store_contents(key).remove(
                    entity.id,
                )
                &&& forall|k2: ComponentTypeKey|
                    k2 != key && old(self).registered(k2) ==> final(self).stores()[k2] == old(self).stores()[k2]
            },
    {
        if !self.entity_components.contains_key(&entity.id) {
            return Err(EcsFault::UnknownEntity);
        }
        let listed = match self.entity_components.get(&entity.id) {
            Some(ts) => key_listed(ts, key),
            None => unreached(),
        };
        if !listed {
            if !self.component_registered(key) {
                return Err(EcsFault::UnregisteredComponentAccess);
            }
            return Err(EcsFault::MissingOnRemove);
        }
        proof {
            assert(self.entities().contains(entity.id));
            assert(self.typeset_seq(entity.id).contains(key));
            assert(self.typeset_seq(entity.id).no_duplicates());
            assert(self.stores()[key].ids().contains(entity.id));
        }
        let mut ts = match self.entity_components.remove(&entity.id) {
            Some(t) => t,
            None => unreached(),
        };
        unlist_key(&mut ts, key);
        self.entity_components.insert(entity.id, ts);
        let mut store = match self.component_maps.remove(&key) {
            Some(s) => s,
            None => unreached(),
        };
        let res = store.remove(entity);
        self.component_maps.insert(key, store);
        proof {
            let prev = *old(self);
            assert(self.entities() =~= prev.entities());
            assert(self.stores().dom() =~= prev.stores().dom());
            assert forall|k: ComponentTypeKey| #[trigger] self.registered(k) implies self
                .stores()[k].wf() by {
                if k != key {
                    assert(prev.registered(k));
                    assert(self.stores()[k] == prev.stores()[k]);
                }
            }
            assert forall|id2: EntityID| #[trigger] self.entities().contains(id2) implies self
                .typeset_seq(id2).no_duplicates() by {
                assert(prev.entities().contains(id2));
                if id2 != entity.id {
                    assert(self.typeset_seq(id2) == prev.typeset_seq(id2));
                }
            }
            assert forall|id2: EntityID, k: ComponentTypeKey|
                self.entities().contains(id2) && #[trigger] self.typeset_seq(id2).contains(
                    k,
                ) implies {
                &&& self.registered(k)
                &&& self.stores()[k].ids().contains(id2)
            } by {
                if id2 == entity.id {
                    assert(k != key);
                    assert(prev.typeset_seq(id2).contains(k));
                    assert(self.stores()[k] == prev.stores()[k]);
                } else {
                    assert(self.typeset_seq(id2) == prev.typeset_seq(id2));
                    assert(prev.typeset_seq(id2).contains(k));
                    if k == key {
                        assert(self.stores()[key].ids() == prev.stores()[key].ids().remove(
                            entity.id,
                        ));
                    } else {
                        assert(self.stores()[k] == prev.stores()[k]);
                    }
                }
            }
            assert forall|id2: EntityID, k: ComponentTypeKey|
                self.registered(k) && #[trigger] self.stores()[k].ids().contains(id2) implies {
                &&& self.entities().contains(id2)
                &&& self.typeset_seq(id2).contains(k)
            } by {
                if k == key {
                    assert(self.stores()[key].ids() == prev.stores()[key].ids().remove(entity.id));
                    assert(id2 != entity.id);
                    assert(prev.stores()[key].ids().contains(id2));
                    assert(prev.typeset_seq(id2).contains(key));
                    assert(self.typeset_seq(id2) == prev.typeset_seq(id2));
                } else {
                    assert(self.stores()[k] == prev.stores()[k]);
                    assert(prev.registered(k) && prev.stores()[k].ids().contains(id2));
                    if id2 == entity.id {
                        assert(prev.typeset_seq(id2).contains(k));
                    } else {
                        assert(self.typeset_seq(id2) == prev.typeset_seq(id2));
                    }
                }
            }
        }
        match res {
            Ok(()) => Ok(()),
            Err(_) => unreached(),
        }
    }

    /// Overwrites the stored value of component type `key` on `entity`. The
    /// indices do not change, only the value.
    ///
    /// Setting a type the entity does not have is a usage fault and leaves
    /// the state untouched: [`EcsFault::UnregisteredComponentAccess`] if no
    /// store for the type exists at all, otherwise [`EcsFault::MissingOnSet`].
    pub fn set(&mut self, entity: &Entity, key: ComponentTypeKey, value: T) -> (r: Result<
        (),
        EcsFault,
    >)
        requires
            old(self).wf(),
        ensures
            final(self).wf(),
            !old(self).entities().contains(entity.id) ==> r == Err::<(), EcsFault>(
                EcsFault::UnknownEntity,
            ) && *final(self) == *old(self),
            old(self).entities().contains(entity.id) && !old(self).has_component(entity.id, key)
                && !old(self).registered(key) ==> r == Err::<(), EcsFault>(
                EcsFault::UnregisteredComponentAccess,
            ) && *final(self) == *old(self),
            old(self).entities().contains(entity.id) && !old(self).has_component(entity.id, key)
                && old(self).registered(key) ==> r == Err::<(), EcsFault>(EcsFault::MissingOnSet)
                && *final(self) == *old(self),
            old(self).has_component(entity.id, key) ==> r == Ok::<(), EcsFault>(()) && {
                &&& final(self).entity_records() == old(self).entity_records()
                &&& final(self).stores().dom() == old(self).stores().dom()
                &&& final(self).store_contents(key) == old(self).store_contents(key).insert(
                    entity.id,
                    value,
                )
                &&& forall|k2: ComponentTypeKey|
                    k2 != key && old(self).registered(k2) ==> final(self).stores()[k2] == old(self).stores()[k2]
            },
    {
        if !self.entity_components.contains_key(&entity.id) {
            return Err(EcsFault::UnknownEntity);
        }
        let listed = match self.entity_components.get(&entity.id) {
            Some(ts) => key_listed(ts, key),
            None => unreached(),
        };
        if !listed {
            if !self.component_registered(key) {
                return Err(EcsFault::UnregisteredComponentAccess);
            }
            return Err(EcsFault::MissingOnSet);
        }
        proof {
            assert(self.entities().contains(entity.id));
            assert(self.typeset_seq(entity.id).contains(key));
            assert(self.stores()[key].ids().contains(entity.id));
        }
        let mut store = match self.component_maps.remove(&key) {
            Some(s) => s,
            None => unreached(),
        };
        let res = store.set(entity, value);
        self.component_maps.insert(key, store);
        proof {
            let prev = *old(self);
            assert(self.stores().dom() =~= prev.stores().dom());
            assert(self.stores()[key].ids() == prev.stores()[key].ids());
            assert forall|k: ComponentTypeKey| #[trigger] self.registered(k) implies self
                .stores()[k].wf() by {
                if k != key {
                    assert(prev.registered(k));
                    assert(self.stores()[k] == prev.stores()[k]);
                }
            }
            assert forall|id2: EntityID| #[trigger] self.entities().contains(id2) implies self
                .typeset_seq(id2).no_duplicates() by {
                assert(prev.entities().contains(id2));
                assert(self.typeset_seq(id2) == prev.typeset_seq(id2));
            }
            assert forall|id2: EntityID, k: ComponentTypeKey|
                self.entities().contains(id2) && #[trigger] self.typeset_seq(id2).contains(
                    k,
                ) implies {
                &&& self.registered(k)
                &&& self.stores()[k].ids().contains(id2)
            } by {
                assert(self.typeset_seq(id2) == prev.typeset_seq(id2));
                assert(prev.typeset_seq(id2).contains(k));
                if k != key {
                    assert(self.stores()[k] == prev.stores()[k]);
                }
            }
            assert forall|id2: EntityID, k: ComponentTypeKey|
                self.registered(k) && #[trigger] self.stores()[k].ids().contains(id2) implies {
                &&& self.entities().contains(id2)
                &&& self.typeset_seq(id2).contains(k)
            } by {
                if k != key {
                    assert(self.stores()[k] == prev.stores()[k]);
                }
                assert(prev.registered(k) && prev.stores()[k].ids().contains(id2));
                assert(self.typeset_seq(id2) == prev.typeset_seq(id2));
            }
        }
        match res {
            Ok(()) => Ok(()),
            Err(_) => unreached(),
        }
    }

    /// Despawns `entity`: removes each of its components from the owning
    /// store, then purges the entity's record, so that afterwards no store
    /// holds the entity and its id is unknown to the manager.
    ///
    /// Despawning an id the manager has never seen (or has already
    /// despawned) is a usage fault: the state is left untouched and
    /// [`EcsFault::UnknownEntity`] reports it.
    pub fn despawn(&mut self, entity: &Entity) -> (r: Result<(), EcsFault>)
        requires
            old(self).wf(),
        ensures
            final(self).wf(),
            !old(self).entities().contains(entity.id) ==> r == Err::<(), EcsFault>(
                EcsFault::UnknownEntity,
            ) && *final(self) == *old(self),
            old(self).entities().contains(entity.id) ==> r == Ok::<(), EcsFault>(()) && {
                &&& final(self).entities() == old(self).entities().remove(entity.id)
                &&& forall|id2: EntityID|
                    id2 != entity.id && old(self).entities().contains(id2) ==> final(self).typeset_seq(id2) == old(self).typeset_seq(id2)
                &&& final(self).stores().dom() == old(self).stores().dom()
                &&& forall|k: ComponentTypeKey|
                    #[trigger] old(self).registered(k) ==> final(self).store_contents(k) == old(self).store_contents(k).remove(entity.id)
            },
    {
        if !self.entity_components.contains_key(&entity.id) {
            return Err(EcsFault::UnknownEntity);
        }
        let ts = match self.entity_components.remove(&entity.id) {
            Some(t) => t,
            None => unreached(),
        };
        let ghost mid = *self;
        proof {
            assert(old(self).entities().contains(entity.id));
            assert(old(self).typeset_seq(entity.id).no_duplicates());
            assert(ts@ == old(self).typeset_seq(entity.id));
            assert forall|k: ComponentTypeKey| #[trigger] mid.registered(k) implies self.stores()[k].wf() by {
                assert(old(self).registered(k));
            }
            assert forall|j: int| 0 <= j < ts@.len() implies {
                &&& mid.registered(ts@[j])
                &&& self.stores()[ts@[j]].ids().contains(entity.id)
            } by {
                assert(old(self).typeset_seq(entity.id).contains(ts@[j]));
            }
        }
        let mut i: usize = 0;
        while i < ts.len()
            invariant
                i <= ts@.len(),
                ts@.no_duplicates(),
                self.entity_records() == mid.entity_records(),
                self.stores().dom() == mid.stores().dom(),
                forall|k: ComponentTypeKey| #[trigger] mid.registered(k) ==> self.stores()[k].wf(),
                forall|j: int| 0 <= j < ts@.len() ==> mid.registered(ts@[j]),
                forall|j: int|
                    0 <= j < i ==> {
                        &&& (#[trigger] self.stores()[ts@[j]]).contents() == mid.stores()[ts@[j]].contents().remove(entity.id)
                        &&& self.stores()[ts@[j]].ids() == mid.stores()[ts@[j]].ids().remove(
                            entity.id,
                        )
                    },
                forall|k: ComponentTypeKey|
                    mid.registered(k) && !listed_before(ts@, i as int, k)
                        ==> #[trigger] self.stores()[k] == mid.stores()[k],
                forall|j: int|
                    i <= j < ts@.len() ==> (#[trigger] self.stores()[ts@[j]]).ids().contains(
                        entity.id,
                    ),
            decreases ts@.len() - i,
        {
            let key = ts[i];
            let ghost before = *self;
            let mut store = match self.component_maps.remove(&key) {
                Some(s) => s,
                None => unreached(),
            };
            let res = store.remove(entity);
            self.component_maps.insert(key, store);
            proof {
                assert(res is Ok);
                assert(self.stores().dom() =~= before.stores().dom());
                assert forall|j: int| 0 <= j < i + 1 implies {
                    &&& (#[trigger] self.stores()[ts@[j]]).contents() == mid.stores()[ts@[j]].contents().remove(entity.id)
                    &&& self.stores()[ts@[j]].ids() == mid.stores()[ts@[j]].ids().remove(entity.id)
                } by {
                    if j < i {
                        assert(ts@[j] != key);
                        assert(self.stores()[ts@[j]] == before.stores()[ts@[j]]);
                    } else {
                        assert(!listed_before(ts@, i as int, key));
                        assert(before.stores()[key] == mid.stores()[key]);
                    }
                }
                assert forall|k: ComponentTypeKey|
                    mid.registered(k) && !listed_before(ts@, i + 1, k) implies #[trigger] self
                    .stores()[k] == mid.stores()[k] by {
                    assert(!listed_before(ts@, i as int, k)) by {
                        if exists|j: int| 0 <= j < i && ts@[j] == k {
                            let j = choose|j: int| 0 <= j < i && ts@[j] == k;
                            assert(0 <= j < i + 1 && ts@[j] == k);
                        }
                    }
                    assert(k != key) by {
                        if k == key {
                            assert(0 <= i < i + 1 && ts@[i as int] == k);
                        }
                    }
                    assert(self.stores()[k] == before.stores()[k]);
                }
                assert forall|j: int| i + 1 <= j < ts@.len() implies (#[trigger] self.stores()[ts@[j]]).ids().contains(entity.id) by {
                    assert(ts@[j] != key);
                    assert(self.stores()[ts@[j]] == before.stores()[ts@[j]]);
                }
            }
            i = i + 1;
        }
        proof {
            let prev = *old(self);
            assert(self.entities() =~= prev.entities().remove(entity.id));
            assert(self.stores().dom() =~= prev.stores().dom());
            assert forall|k: ComponentTypeKey| #[trigger] prev.registered(k) implies {
                &&& self.stores()[k].wf()
                &&& self.stores()[k].contents() == prev.stores()[k].contents().remove(entity.id)
                &&& self.stores()[k].ids() == prev.stores()[k].ids().remove(entity.id)
            } by {
                if ts@.contains(k) {
                    let j = choose|j: int| 0 <= j < ts@.len() && ts@[j] == k;
                    assert(self.stores()[ts@[j]].contents() == mid.stores()[ts@[j]].contents().remove(entity.id));
                } else {
                    assert(!listed_before(ts@, ts@.len() as int, k)) by {
                        if exists|j: int| 0 <= j < ts@.len() && ts@[j] == k {
                            let j = choose|j: int| 0 <= j < ts@.len() && ts@[j] == k;
                            assert(ts@.contains(k));
                        }
                    }
                    assert(self.stores()[k] == mid.stores()[k]);
                    assert(!prev.stores()[k].ids().contains(entity.id)) by {
                        if prev.stores()[k].ids().contains(entity.id) {
                            assert(prev.typeset_seq(entity.id).contains(k));
                        }
                    }
                    assert(self.stores()[k].ids() =~= prev.stores()[k].ids().remove(entity.id));
                    assert(self.stores()[k].contents() =~= prev.stores()[k].contents().remove(
                        entity.id,
                    ));
                }
            }
            assert forall|id2: EntityID| #[trigger] self.entities().contains(id2) implies self
                .typeset_seq(id2).no_duplicates() by {
                assert(prev.entities().contains(id2));
                assert(self.typeset_seq(id2) == prev.typeset_seq(id2));
            }
            assert forall|id2: EntityID, k: ComponentTypeKey|
                self.entities().contains(id2) && #[trigger] self.typeset_seq(id2).contains(
                    k,
                ) implies {
                &&& self.registered(k)
                &&& self.stores()[k].ids().contains(id2)
            } by {
                assert(id2 != entity.id);
                assert(self.typeset_seq(id2) == prev.typeset_seq(id2));
                assert(prev.typeset_seq(id2).contains(k));
                assert(prev.registered(k));
                assert(self.stores()[k].ids() == prev.stores()[k].ids().remove(entity.id));
            }
            assert forall|id2: EntityID, k: ComponentTypeKey|
                self.registered(k) && #[trigger] self.stores()[k].ids().contains(id2) implies {
                &&& self.entities().contains(id2)
                &&& self.typeset_seq(id2).contains(k)
            } by {
                assert(prev.registered(k));
                assert(self.stores()[k].ids() == prev.stores()[k].ids().remove(entity.id));
                assert(id2 != entity.id);
                assert(prev.stores()[k].ids().contains(id2));
                assert(prev.typeset_seq(id2).contains(k));
                assert(self.typeset_seq(id2) == prev.typeset_seq(id2));
            }
        }
        Ok(())
    }

    /// Returns a reference to the component of type `key` stored for
    /// `entity`, or `None` if the entity does not have that type. Absence is
    /// a normal outcome for a read, not a fault.
    pub fn get(&self, entity: &Entity, key: ComponentTypeKey) -> (r: Option<&T>)
        requires
            self.wf(),
        ensures
            match r {
                Some(v) => self.has_component(entity.id, key) && *v == self.store_contents(
                    key,
                )[entity.id],
                None => !self.has_component(entity.id, key),
            },
    {
        let ts = match self.entity_components.get(&entity.id) {
            Some(ts) => ts,
            None => {
                return None;
            },
        };
        if !key_listed(ts, key) {
            return None;
        }
        proof {
            assert(self.typeset_seq(entity.id).contains(key));
            assert(self.registered(key) && self.stores()[key].ids().contains(entity.id));
        }
        let store = match self.component_maps.get(&key) {
            Some(s) => s,
            None => unreached(),
        };
        match store.get(entity) {
            Some(v) => Some(v),
            None => unreached(),
        }
    }
}

/// Type-set/store agreement: in a well-formed manager, an entity's type-set
/// lists a component type exactly when a store for that type is registered
/// and holds the entity. In particular a type-set never lists an
/// unregistered type, and stores hold no unknown entities. Every manager
/// operation returns a well-formed manager, so this is maintained across
/// any sequence of attachments, detachments, spawns and despawns.
pub proof fn lemma_typeset_store_agreement<T>(
    m: ECSManager<T>,
    id: EntityID,
    key: ComponentTypeKey,
)
    requires
        m.wf(),
    ensures
        m.has_component(id, key) <==> (m.registered(key) && m.stores()[key].ids().contains(id)),
{
    if m.has_component(id, key) {
        assert(m.typeset_seq(id).contains(key));
    }
    if m.registered(key) && m.stores()[key].ids().contains(id) {
        assert(m.entities().contains(id));
    }
}

/// Whether `k` occurs among the first `i` elements of `ts`.
spec fn listed_before(ts: Seq<ComponentTypeKey>, i: int, k: ComponentTypeKey) -> bool {
    exists|j: int| 0 <= j < i && ts[j] == k
}

/// Removes the one occurrence of `key` from the type-set list `ts`. The one
/// occurrence moves nothing but the list's last element, so it runs in
/// constant time; the list's order is not meaningful.
fn unlist_key(ts: &mut Vec<ComponentTypeKey>, key: ComponentTypeKey)
    requires
        old(ts)@.no_duplicates(),
        old(ts)@.contains(key),
    ensures
        final(ts)@.no_duplicates(),
        !final(ts)@.contains(key),
        forall|k2: ComponentTypeKey|
            k2 != key ==> (final(ts)@.contains(k2) <==> old(ts)@.contains(k2)),
        final(ts)@.len() == old(ts)@.len() - 1,
{
    let mut i: usize = 0;
    while i < ts.len()
        invariant
            i <= ts@.len(),
            ts@ == old(ts)@,
            old(ts)@.no_duplicates(),
            old(ts)@.contains(key),
            forall|j: int| 0 <= j < i ==> ts@[j] != key,
        decreases ts@.len() - i,
    {
        if ts[i] == key {
            ts.swap_remove(i);
            proof {
                let prev = old(ts)@;
                let cur = ts@;
                assert forall|j: int| 0 <= j < prev.len() && j != i implies prev[j] != key by {
                    if prev[j] == key {
                        assert(prev[i as int] == prev[j]);
                    }
                }
                assert forall|j: int| 0 <= j < cur.len() implies cur[j] != key by {
                    if j == i {
                        assert(cur[j] == prev[prev.len() - 1]);
                    }
                }
                assert forall|k2: ComponentTypeKey| k2 != key && prev.contains(k2) implies cur
                    .contains(k2) by {
                    let j = choose|j: int| 0 <= j < prev.len() && prev[j] == k2;
                    if j == prev.len() - 1 {
                        assert(i < prev.len() - 1);
                        assert(cur[i as int] == k2);
                    } else if j != i {
                        assert(cur[j] == k2);
                    }
                }
                assert forall|k2: ComponentTypeKey| cur.contains(k2) implies prev.contains(
                    k2,
                ) by {
                    let j = choose|j: int| 0 <= j < cur.len() && cur[j] == k2;
                    if j == i {
                        assert(prev[prev.len() - 1] == k2);
                    } else {
                        assert(prev[j] == k2);
                    }
                }
                assert forall|p: int, q: int| 0 <= p < q < cur.len() implies cur[p] != cur[q] by {
                    if p == i {
                        assert(cur[p] == prev[prev.len() - 1]);
                        assert(cur[q] == prev[q]);
                    } else if q == i {
                        assert(cur[q] == prev[prev.len() - 1]);
                        assert(cur[p] == prev[p]);
                    } else {
                        assert(cur[p] == prev[p] && cur[q] == prev[q]);
                    }
                }
            }
            return;
        }
        i = i + 1;
    }
    proof {
        let j = choose|j: int| 0 <= j < old(ts)@.len() && old(ts)@[j] == key;
        assert(ts@[j] != key);
        assert(false);
    }
}

/// Whether `key` occurs in the type-set list `ts`.
fn key_listed(ts: &Vec<ComponentTypeKey>, key: ComponentTypeKey) -> (r: bool)
    ensures
        r == ts@.contains(key),
{
    let mut i: usize = 0;
    while i < ts.len()
        invariant
            i <= ts@.len(),
            forall|j: int| 0 <= j < i ==> ts@[j] != key,
        decreases ts@.len() - i,
    {
        if ts[i] == key {
            proof {
                assert(ts@[i as int] == key);
            }
            return true;
        }
        i = i + 1;
    }
    false
}

impl<T> Default for ECSManager<T> {
    /// An empty manager, as [`ECSManager::new`] builds it.
    fn default() -> (r: Self)
        ensures
            r.wf(),
            r.entities() == Set::<EntityID>::empty(),
            r.stores() == Map::<ComponentTypeKey, ComponentSparseVec<T>>::empty(),
    {
        ECSManager::new()
    }
}

/// Relies on `uuid::Uuid::new_v4`: a fresh version-4 (random) UUID, handed
/// back as its 128-bit value. Nothing can be promised of a random draw, so
/// nothing is stated; callers say what holds of every outcome.
#[verifier::external_body]
fn fresh_entity_id() -> (id: EntityID) {
    uuid::Uuid::new_v4().as_u128()
}

} // verus!
