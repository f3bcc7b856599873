//! The sparse-set component store.

use vstd::prelude::*;
use vstd::hash_map::HashMapWithView;
use crate::entity::{Entity, EntityID};
use crate::error::EcsFault;

verus! {

/// A sample component: a human-readable name.
#[derive(Clone, Debug, PartialEq, Eq)]
pub struct Name(pub String);

/// A dense store of components of one type `T`, addressed by entity id.
///
/// The values sit in a gap-free array; `entity_to_index` maps each owning
/// entity to its slot and `index_to_entity` is the exact inverse, so that
/// insertion, removal and lookup all run in constant time. Removal swaps the
/// vacated slot with the last one and shrinks by one, which keeps the array
/// dense; the order of slots is therefore not meaningful after removals.
#[verifier::reject_recursive_types(T)]
pub struct ComponentSparseVec<T> {
    components: Vec<T>,
    entity_to_index: HashMapWithView<EntityID, usize>,
    index_to_entity: HashMapWithView<usize, EntityID>,
}

impl<T> ComponentSparseVec<T> {
    /// The dense sequence of stored values.
    pub closed spec fn slots(self) -> Seq<T> {
        self.components@
    }

    /// The forward map: owning entity id to slot index.
    pub closed spec fn forward(self) -> Map<EntityID, usize> {
        self.entity_to_index@
    }

    /// The inverse map: slot index to owning entity id.
    pub closed spec fn inverse(self) -> Map<usize, EntityID> {
        self.index_to_entity@
    }

    /// The set of entities that hold a value in this store.
    pub open spec fn ids(self) -> Set<EntityID> {
        self.forward().dom()
    }

    /// The abstract contents: a partial map from entity id to stored value.
    pub open spec fn contents(self) -> Map<EntityID, T> {
        Map::new(
            |id: EntityID| self.forward().dom().contains(id),
            |id: EntityID| self.slots()[self.forward()[id] as int],
        )
    }

    /// Well-formedness: the two index maps are exact inverses of one another,
    /// every mapped slot exists, every slot is owned by exactly one entity
    /// (density), and the array holds exactly one value per present entity.
    pub open spec fn wf(self) -> bool {
        &&& forall|id: EntityID| #[trigger] self.forward().dom().contains(id) ==> {
            &&& self.forward()[id] < self.slots().len()
            &&& self.inverse().dom().contains(self.forward()[id])
            &&& self.inverse()[self.forward()[id]] == id
        }
        &&& forall|i: usize| #[trigger] self.inverse().dom().contains(i) ==> {
            &&& i < self.slots().len()
            &&& self.forward().dom().contains(self.inverse()[i])
            &&& self.forward()[self.inverse()[i]] == i
        }
        &&& forall|i: usize| i < self.slots().len() ==> #[trigger] self.inverse().dom().contains(i)
        &&& self.forward().dom().finite()
        &&& self.forward().dom().len() == self.slots().len()
    }

    /// Creates an empty store.
    pub fn new() -> (r: Self)
        ensures
            r.wf(),
            r.slots() == Seq::<T>::empty(),
            r.contents() == Map::<EntityID, T>::empty(),
            r.ids() == Set::<EntityID>::empty(),
    {
        let r = Self {
            components: Vec::new(),
            entity_to_index: HashMapWithView::new(),
            index_to_entity: HashMapWithView::new(),
        };
        proof {
            assert(r.contents() =~= Map::<EntityID, T>::empty());
            assert(r.ids() =~= Set::<EntityID>::empty());
        }
        r
    }

    /// Stores `value` for `entity` in a fresh slot at the end of the array.
    ///
    /// If the entity already has a value here, that is a usage fault: the
    /// existing slot is left untouched, the new value is discarded, and
    /// [`EcsFault::DuplicateInsert`] reports it.
    pub fn insert(&mut self, entity: &Entity, value: T) -> (r: Result<(), EcsFault>)
        requires
            old(self).wf(),
        ensures
            final(self).wf(),
            r is Ok <==> !old(self).ids().contains(entity.id),
            r matches Err(f) ==> f == EcsFault::DuplicateInsert && *final(self) == *old(self),
            r is Ok ==> {
                &&& final(self).slots() == old(self).slots().push(value)
                &&& final(self).forward() == old(self).forward().insert(
                    entity.id,
                    old(self).slots().len() as usize,
                )
                &&& final(self).inverse() == old(self).inverse().insert(
                    old(self).slots().len() as usize,
                    entity.id,
                )
                &&& final(self).contents() == old(self).contents().insert(entity.id, value)
            },
    {
        if self.entity_to_index.contains_key(&entity.id) {
            Err(EcsFault::DuplicateInsert)
        } else {
            let idx = self.components.len();
            self.entity_to_index.insert(entity.id, idx);
            self.index_to_entity.insert(idx, entity.id);
            self.components.push(value);
            proof {
                let prev = *old(self);
                assert forall|id2: EntityID| #[trigger] self.forward().dom().contains(id2) implies {
                    &&& self.forward()[id2] < self.slots().len()
                    &&& self.inverse().dom().contains(self.forward()[id2])
                    &&& self.inverse()[self.forward()[id2]] == id2
                } by {
                    if id2 != entity.id {
                        assert(prev.forward().dom().contains(id2));
                    }
                }
                assert forall|i: usize| #[trigger] self.inverse().dom().contains(i) implies {
                    &&& i < self.slots().len()
                    &&& self.forward().dom().contains(self.inverse()[i])
                    &&& self.forward()[self.inverse()[i]] == i
                } by {
                    if i != idx {
                        assert(prev.inverse().dom().contains(i));
                    }
                }
                assert forall|i: usize| i < self.slots().len() implies #[trigger] self
                    .inverse()
                    .dom()
                    .contains(i) by {
                    if i != idx {
                        assert(prev.inverse().dom().contains(i));
                    }
                }
                assert(self.forward().dom() =~= prev.forward().dom().insert(entity.id));
                assert(self.contents() =~= old(self).contents().insert(entity.id, value));
            }
            Ok(())
        }
    }

    /// Removes the value stored for `entity` by a swap-remove: the vacated
    /// slot receives the last value, whose owner is re-indexed, and the array
    /// shrinks by one. No other entity's stored value changes.
    ///
    /// If the entity has no value here, that is a usage fault: the store is
    /// left untouched and [`EcsFault::MissingOnRemove`] reports it.
    pub fn remove(&mut self, entity: &Entity) -> (r: Result<(), EcsFault>)
        requires
            old(self).wf(),
        ensures
            final(self).wf(),
            r is Ok <==> old(self).ids().contains(entity.id),
            r matches Err(f) ==> f == EcsFault::MissingOnRemove && *final(self) == *old(self),
            r is Ok ==> {
                &&& final(self).slots() == old(self).slots().update(
                    old(self).forward()[entity.id] as int,
                    old(self).slots().last(),
                ).drop_last()
                &&& final(self).ids() == old(self).ids().remove(entity.id)
                &&& final(self).contents() == old(self).contents().remove(entity.id)
            },
    {
        let target = match self.entity_to_index.get(&entity.id) {
            Some(t) => *t,
            None => {
                return Err(EcsFault::MissingOnRemove);
            },
        };
        let last = self.components.len() - 1;
        let last_id = match self.index_to_entity.get(&last) {
            Some(e) => *e,
            None => unreached(),
        };
        self.components.swap_remove(target);
        self.entity_to_index.insert(last_id, target);
        self.index_to_entity.insert(target, last_id);
        self.entity_to_index.remove(&entity.id);
        self.index_to_entity.remove(&last);
        proof {
            assert(self.ids() =~= old(self).ids().remove(entity.id));
            assert(self.contents() =~= old(self).contents().remove(entity.id));
        }
        Ok(())
    }

    /// Overwrites the value stored for `entity` in place; no index changes.
    ///
    /// If the entity has no value here, that is a usage fault: the store is
    /// left untouched and [`EcsFault::MissingOnSet`] reports it.
    pub fn set(&mut self, entity: &Entity, value: T) -> (r: Result<(), EcsFault>)
        requires
            old(self).wf(),
        ensures
            final(self).wf(),
            r is Ok <==> old(self).ids().contains(entity.id),
            r matches Err(f) ==> f == EcsFault::MissingOnSet && *final(self) == *old(self),
            r is Ok ==> {
                &&& final(self).forward() == old(self).forward()
                &&& final(self).inverse() == old(self).inverse()
                &&& final(self).slots() == old(self).slots().update(
                    old(self).forward()[entity.id] as int,
                    value,
                )
                &&& final(self).contents() == old(self).contents().insert(entity.id, value)
            },
    {
        let target = match self.entity_to_index.get(&entity.id) {
            Some(t) => *t,
            None => {
                return Err(EcsFault::MissingOnSet);
            },
        };
        self.components[target] = value;
        proof {
            assert(self.contents() =~= old(self).contents().insert(entity.id, value));
        }
        Ok(())
    }

    /// Returns a reference to the value stored for `entity`, or `None` if the
    /// entity has none. Absence is a normal outcome for a read, not a fault.
    pub fn get(&self, entity: &Entity) -> (r: Option<&T>)
        requires
            self.wf(),
        ensures
            match r {
                Some(v) => self.ids().contains(entity.id) && *v == self.contents()[entity.id],
                None => !self.ids().contains(entity.id),
            },
    {
        match self.entity_to_index.get(&entity.id) {
            Some(target) => Some(&self.components[*target]),
            None => None,
        }
    }
}

/// Density: a well-formed store's dense array has no gaps — every index
/// below its length is an occupied, owned slot — and its length equals the
/// number of entities currently present. Every store operation returns a
/// well-formed store, so this holds after each one.
pub proof fn lemma_store_density<T>(s: ComponentSparseVec<T>)
    requires
        s.wf(),
    ensures
        s.slots().len() == s.ids().len(),
        forall|i: usize| i < s.slots().len() ==> #[trigger] s.inverse().dom().contains(i),
{
}

/// Map consistency: for every entity present in a well-formed store, looking
/// the entity's slot up in the inverse map yields the entity again. Every
/// store operation returns a well-formed store, so this holds after any
/// interleaving of insertions and removals.
pub proof fn lemma_store_map_consistency<T>(s: ComponentSparseVec<T>, id: EntityID)
    requires
        s.wf(),
        s.ids().contains(id),
    ensures
        s.forward().dom().contains(id),
        s.inverse().dom().contains(s.forward()[id]),
        s.inverse()[s.forward()[id]] == id,
{
}

/// An entity a well-formed store does not list is fully absent: it appears
/// in neither index map. Together with the contract of
/// [`ComponentSparseVec::remove`] — which shrinks the contents by exactly
/// the removed entity — this says a swap-remove changes no other entity's
/// stored value and leaves no stale index entry behind, whether the removed
/// entity owned the last slot or any other.
pub proof fn lemma_absent_entity_unindexed<T>(s: ComponentSparseVec<T>, id: EntityID)
    requires
        s.wf(),
        !s.ids().contains(id),
    ensures
        !s.forward().dom().contains(id),
        forall|i: usize| #[trigger] s.inverse().dom().contains(i) ==> s.inverse()[i] != id,
{
    assert forall|i: usize| #[trigger] s.inverse().dom().contains(i) implies s.inverse()[i]
        != id by {
        if s.inverse()[i] == id {
            assert(s.forward().dom().contains(s.inverse()[i]));
        }
    }
}

impl<T> Default for ComponentSparseVec<T> {
    /// An empty store, as [`ComponentSparseVec::new`] builds it.
    fn default() -> (r: Self)
        ensures
            r.wf(),
            r.contents() == Map::<EntityID, T>::empty(),
    {
        ComponentSparseVec::new()
    }
}

} // verus!
