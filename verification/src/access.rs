//! Mutable access to one requirement or user of a store, found by identifier.
use vstd::prelude::*;
use crate::catalog::{first_user_with_id, first_user_with_spec_id};
use crate::requirement::{Requirement, User};
use crate::store::{first_with_id, first_with_spec_id, has_id, RequirementsStore};
use crate::text::opt_is;

verus! {

impl RequirementsStore {
    /// The first requirement with identifier `id`, to change in place.
    pub fn get_requirement_by_id_mut(&mut self, id: &u128) -> (r: Option<&mut Requirement>)
        ensures
            match r {
                Some(q) => exists|i: int|
                    first_with_id(old(self).requirements@, *id, i) && *q == old(self).requirements@[i]
                        && final(self).requirements@ == old(self).requirements@.update(i, *final(q)),
                None => !has_id(old(self).requirements@, *id) && final(self).requirements@
                    == old(self).requirements@,
            },
            *final(self) == (RequirementsStore { requirements: final(self).requirements, ..*old(self) }),
    {
        match self.index_of_id(*id) {
            Some(i) => Some(&mut self.requirements[i]),
            None => None,
        }
    }

    /// The first requirement with readable identifier `spec_id`, to change in
    /// place.
    pub fn get_requirement_by_spec_id_mut(&mut self, spec_id: &str) -> (r: Option<&mut Requirement>)
        ensures
            match r {
                Some(q) => exists|i: int|
                    first_with_spec_id(old(self).requirements@, spec_id@, i) && *q == old(self).requirements@[i]
                        && final(self).requirements@ == old(self).requirements@.update(i, *final(q)),
                None => (forall|i: int|
                    0 <= i < old(self).requirements@.len() ==> !opt_is(
                        (#[trigger] old(self).requirements@[i]).spec_id,
                        spec_id@,
                    )) && final(self).requirements@ == old(self).requirements@,
            },
            *final(self) == (RequirementsStore { requirements: final(self).requirements, ..*old(self) }),
    {
        match self.index_of_spec_id(spec_id) {
            Some(i) => Some(&mut self.requirements[i]),
            None => None,
        }
    }

    /// The first user with readable identifier `spec_id`, to change in place.
    pub fn find_user_by_spec_id_mut(&mut self, spec_id: &str) -> (r: Option<&mut User>)
        ensures
            match r {
                Some(u) => exists|i: int|
                    first_user_with_spec_id(old(self).users@, spec_id@, i) && *u == old(self).users@[i]
                        && final(self).users@ == old(self).users@.update(i, *final(u)),
                None => (forall|i: int|
                    0 <= i < old(self).users@.len() ==> !opt_is((#[trigger] old(self).users@[i]).spec_id, spec_id@))
                    && final(self).users@ == old(self).users@,
            },
            *final(self) == (RequirementsStore { users: final(self).users, ..*old(self) }),
    {
        match self.user_spec_index(spec_id) {
            Some(i) => Some(&mut self.users[i]),
            None => None,
        }
    }

    /// The first user with identifier `id`, to change in place.
    pub fn get_user_by_id_mut(&mut self, id: &u128) -> (r: Option<&mut User>)
        ensures
            match r {
                Some(u) => exists|i: int|
                    first_user_with_id(old(self).users@, *id, i) && *u == old(self).users@[i]
                        && final(self).users@ == old(self).users@.update(i, *final(u)),
                None => (forall|i: int| 0 <= i < old(self).users@.len() ==> (#[trigger] old(self).users@[i]).id != *id)
                    && final(self).users@ == old(self).users@,
            },
            *final(self) == (RequirementsStore { users: final(self).users, ..*old(self) }),
    {
        match self.user_index(*id) {
            Some(i) => Some(&mut self.users[i]),
            None => None,
        }
    }
}

} // verus!
