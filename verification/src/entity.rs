//! Entity identifiers and the entity handle.

use vstd::prelude::*;
use crate::error::EcsFault;
use crate::manager::{ComponentTypeKey, ECSManager};

verus! {

/// An opaque, 128-bit entity identifier. Identity only, no payload.
pub type EntityID = u128;

/// A handle wrapping one [`EntityID`].
///
/// A handle is a capability token used to address the manager, not an owner
/// of any data: copies may reference the same id, and dropping a handle has
/// no effect on the underlying entity.
#[derive(Clone, Copy, Debug, Hash, PartialEq, Eq, Structural)]
pub struct Entity {
    pub id: EntityID,
}

impl Entity {
    /// Spawns a fresh entity through `ecs` and returns its handle; a thin
    /// forwarder for [`ECSManager::spawn`], whose contract it repeats.
    pub fn new<T>(ecs: &mut ECSManager<T>) -> (r: Entity)
        requires
            old(ecs).wf(),
        ensures
            final(ecs).wf(),
            final(ecs).entities().contains(r.id),
            old(ecs).entities().contains(r.id) ==> *final(ecs) == *old(ecs),
            !old(ecs).entities().contains(r.id) ==> {
                &&& final(ecs).entities() == old(ecs).entities().insert(r.id)
                &&& final(ecs).typeset_seq(r.id) == Seq::<ComponentTypeKey>::empty()
                &&& forall|id2: EntityID|
                    id2 != r.id && old(ecs).entities().contains(id2) ==> final(ecs).typeset_seq(
                        id2,
                    ) == old(ecs).typeset_seq(id2)
                &&& final(ecs).stores() == old(ecs).stores()
            },
    {
        ecs.spawn()
    }

    /// Attaches `component` to this entity; a thin forwarder for
    /// [`ECSManager::add_component`], whose contract it repeats.
    pub fn add_component<T>(
        &self,
        ecs: &mut ECSManager<T>,
        key: ComponentTypeKey,
        component: T,
    ) -> (r: Result<(), EcsFault>)
        requires
            old(ecs).wf(),
        ensures
            final(ecs).wf(),
            r is Ok <==> old(ecs).entities().contains(self.id) && !old(ecs).has_component(
                self.id,
                key,
            ),
            r is Err ==> *final(ecs) == *old(ecs),
            r is Ok ==> {
                &&& final(ecs).entities() == old(ecs).entities()
                &&& final(ecs).typeset_seq(self.id) == old(ecs).typeset_seq(self.id).push(key)
                &&& final(ecs).has_component(self.id, key)
                &&& forall|id2: EntityID|
                    id2 != self.id && old(ecs).entities().contains(id2) ==> final(ecs).typeset_seq(
                        id2,
                    ) == old(ecs).typeset_seq(id2)
                &&& final(ecs).registered(key)
                &&& final(ecs).stores().dom() == old(ecs).stores().dom().insert(key)
                &&& final(ecs).store_contents(key)[self.id] == component
                &&& old(ecs).registered(key) ==> final(ecs).store_contents(key) == old(
                    ecs,
                ).store_contents(key).insert(self.id, component)
                &&& forall|k2: ComponentTypeKey|
                    k2 != key && old(ecs).registered(k2) ==> final(ecs).stores()[k2] == old(
                        ecs,
                    ).stores()[k2]
            },
    {
        let r = ecs.add_component(self, key, component);
        proof {
            if old(ecs).entities().contains(self.id) && !old(ecs).has_component(self.id, key) {
                assert(ecs.typeset_seq(self.id).last() == key);
                assert(ecs.typeset_seq(self.id).contains(key));
            }
        }
        r
    }

    /// Detaches the component of type `key` from this entity; a thin
    /// forwarder for [`ECSManager::remove_component`], whose contract it
    /// repeats.
    pub fn remove_component<T>(&self, ecs: &mut ECSManager<T>, key: ComponentTypeKey) -> (r:
        Result<(), EcsFault>)
        requires
            old(ecs).wf(),
        ensures
            final(ecs).wf(),
            r is Ok <==> old(ecs).has_component(self.id, key),
            r is Err ==> *final(ecs) == *old(ecs),
            r is Ok ==> {
                &&& final(ecs).entities() == old(ecs).entities()
                &&& !final(ecs).has_component(self.id, key)
                &&& forall|k2: ComponentTypeKey|
                    k2 != key ==> (final(ecs).typeset_seq(self.id).contains(k2) <==> old(
                        ecs,
                    ).typeset_seq(self.id).contains(k2))
                &&& forall|id2: EntityID|
                    id2 != self.id && old(ecs).entities().contains(id2) ==> final(ecs).typeset_seq(
                        id2,
                    ) == old(ecs).typeset_seq(id2)
                &&& final(ecs).stores().dom() == old(ecs).stores().dom()
                &&& final(ecs).store_contents(key) == old(ecs).store_contents(key).remove(self.id)
                &&& forall|k2: ComponentTypeKey|
                    k2 != key && old(ecs).registered(k2) ==> final(ecs).stores()[k2] == old(
                        ecs,
                    ).stores()[k2]
            },
    {
        ecs.remove_component(self, key)
    }

    /// Overwrites this entity's stored value of component type `key`; a thin
    /// forwarder for [`ECSManager::set`], whose contract it repeats.
    pub fn set<T>(&self, ecs: &mut ECSManager<T>, key: ComponentTypeKey, value: T) -> (r: Result<
        (),
        EcsFault,
    >)
        requires
            old(ecs).wf(),
        ensures
            final(ecs).wf(),
            r is Ok <==> old(ecs).has_component(self.id, key),
            r is Err ==> *final(ecs) == *old(ecs),
            r is Ok ==> {
                &&& final(ecs).entity_records() == old(ecs).entity_records()
                &&& final(ecs).stores().dom() == old(ecs).stores().dom()
                &&& final(ecs).store_contents(key) == old(ecs).store_contents(key).insert(
                    self.id,
                    value,
                )
                &&& forall|k2: ComponentTypeKey|
                    k2 != key && old(ecs).registered(k2) ==> final(ecs).stores()[k2] == old(
                        ecs,
                    ).stores()[k2]
            },
    {
        ecs.set(self, key, value)
    }

    /// Reads this entity's component of type `key`; a thin forwarder for
    /// [`ECSManager::get`], whose contract it repeats.
    pub fn get<'a, T>(&self, ecs: &'a ECSManager<T>, key: ComponentTypeKey) -> (r: Option<&'a T>)
        requires
            ecs.wf(),
        ensures
            match r {
                Some(v) => ecs.has_component(self.id, key) && *v == ecs.store_contents(
                    key,
                )[self.id],
                None => !ecs.has_component(self.id, key),
            },
    {
        ecs.get(self, key)
    }
}

} // verus!
