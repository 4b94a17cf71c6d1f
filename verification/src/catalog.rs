//! What a store keeps besides requirements: features, requirement types,
//! users with their meta identifiers, and relationship definitions.
use vstd::prelude::*;
use crate::model::{
    default_rel_names, first_type_with_prefix, FeatureDefinition, RelationshipDefinition, RequirementTypeDefinition,
};
use crate::numbering::{bump_counter, counter_map, counter_of, counters_at_most, prefixed_number};
use crate::relations::has_def;
use crate::requirement::{Requirement, User};
use crate::store::{first_with_id, has_id, RequirementsStore, StoreError, META_PREFIX_USER};
use crate::text::{decimal, lowercase, opt_is, owned, str_eq, to_lower, to_upper, uppercase, zero_pad};

verus! {

/// Whether `i` is the first feature in `v` with prefix `p`.
pub open spec fn first_feature_with_prefix(v: Seq<FeatureDefinition>, p: Seq<char>, i: int) -> bool {
    0 <= i < v.len() && v[i].prefix@ == p && forall|j: int| 0 <= j < i ==> (#[trigger] v[j]).prefix@ != p
}

/// Whether `i` is the first feature in `v` whose lowercase name is `l`.
pub open spec fn first_feature_with_name(v: Seq<FeatureDefinition>, l: Seq<char>, i: int) -> bool {
    0 <= i < v.len() && lowercase(v[i].name@) == l && forall|j: int|
        0 <= j < i ==> lowercase((#[trigger] v[j]).name@) != l
}

/// Whether some feature in `v` has prefix `p`.
pub open spec fn feature_prefix_used(v: Seq<FeatureDefinition>, p: Seq<char>) -> bool {
    exists|i: int| 0 <= i < v.len() && (#[trigger] v[i]).prefix@ == p
}

/// Whether some configured requirement type has prefix `p`.
pub open spec fn type_prefix_used(v: Seq<RequirementTypeDefinition>, p: Seq<char>) -> bool {
    exists|i: int| 0 <= i < v.len() && (#[trigger] v[i]).prefix@ == p
}

/// The meta identifier `PREFIX-NNN`.
pub open spec fn meta_id_text(prefix: Seq<char>, n: nat) -> Seq<char> {
    prefix + "-"@ + zero_pad(decimal(n), 3)
}

/// Whether `i` is the first user in `v` with readable identifier `sid`.
pub open spec fn first_user_with_spec_id(v: Seq<User>, sid: Seq<char>, i: int) -> bool {
    0 <= i < v.len() && opt_is(v[i].spec_id, sid) && forall|j: int| 0 <= j < i ==> !opt_is((#[trigger] v[j]).spec_id, sid)
}

/// Whether `i` is the first user in `v` with id `id`.
pub open spec fn first_user_with_id(v: Seq<User>, id: u128, i: int) -> bool {
    0 <= i < v.len() && v[i].id == id && forall|j: int| 0 <= j < i ==> (#[trigger] v[j]).id != id
}

/// The number of users in `s` without readable identifier.
pub open spec fn users_missing(s: Seq<User>) -> nat
    decreases s.len(),
{
    if s.len() == 0 {
        0
    } else {
        users_missing(s.drop_last()) + if s.last().spec_id is None { 1nat } else { 0nat }
    }
}

proof fn lemma_users_missing_push(s: Seq<User>, u: User)
    ensures
        users_missing(s.push(u)) == users_missing(s) + if u.spec_id is None { 1nat } else { 0nat },
{
    assert(s.push(u).drop_last() =~= s);
}

proof fn lemma_users_missing_prefix(s: Seq<User>, k: int)
    requires
        0 <= k <= s.len(),
    ensures
        users_missing(s.take(k)) <= users_missing(s),
    decreases s.len() - k,
{
    if k < s.len() {
        lemma_users_missing_prefix(s, k + 1);
        assert(s.take(k + 1) =~= s.take(k).push(s[k]));
        lemma_users_missing_push(s.take(k), s[k]);
    } else {
        assert(s.take(k) =~= s);
    }
}

impl RequirementsStore {
    // -----------------------------------------------------------------------
    // Features
    // -----------------------------------------------------------------------

    /// The first feature whose name equals `name` once both are in lowercase.
    pub fn get_feature_by_name(&self, name: &str) -> (r: Option<&FeatureDefinition>)
        ensures
            match r {
                Some(f) => exists|i: int| first_feature_with_name(self.features@, lowercase(name@), i) && *f == self.features@[i],
                None => forall|i: int|
                    0 <= i < self.features@.len() ==> lowercase((#[trigger] self.features@[i]).name@) != lowercase(name@),
            },
    {
        let lower = to_lower(name);
        let mut i: usize = 0;
        while i < self.features.len()
            invariant
                i <= self.features@.len(),
                lower@ == lowercase(name@),
                forall|k: int| 0 <= k < i ==> lowercase((#[trigger] self.features@[k]).name@) != lower@,
            decreases self.features.len() - i,
        {
            let l = to_lower(self.features[i].name.as_str());
            if l == lower {
                proof {
                    assert(first_feature_with_name(self.features@, lowercase(name@), i as int));
                }
                return Some(&self.features[i]);
            }
            i = i + 1;
        }
        None
    }

    /// The first feature whose prefix is `prefix` in uppercase.
    pub fn get_feature_by_prefix(&self, prefix: &str) -> (r: Option<&FeatureDefinition>)
        ensures
            match r {
                Some(f) => exists|i: int|
                    first_feature_with_prefix(self.features@, uppercase(prefix@), i) && *f == self.features@[i],
                None => !feature_prefix_used(self.features@, uppercase(prefix@)),
            },
    {
        let upper = to_upper(prefix);
        let mut i: usize = 0;
        while i < self.features.len()
            invariant
                i <= self.features@.len(),
                upper@ == uppercase(prefix@),
                forall|k: int| 0 <= k < i ==> (#[trigger] self.features@[k]).prefix@ != upper@,
            decreases self.features.len() - i,
        {
            if self.features[i].prefix == upper {
                proof {
                    assert(first_feature_with_prefix(self.features@, uppercase(prefix@), i as int));
                }
                return Some(&self.features[i]);
            }
            i = i + 1;
        }
        None
    }

    /// Defines a new feature with the next feature number and the prefix in
    /// uppercase. The prefix may be neither a requirement type's prefix nor
    /// another feature's.
    pub fn add_feature(&mut self, name: &str, prefix: &str) -> (r: Result<FeatureDefinition, StoreError>)
        requires
            old(self).next_feature_number < u32::MAX,
        ensures
            ({
                let p = uppercase(prefix@);
                let types = old(self).id_config.requirement_types@;
                &&& type_prefix_used(types, uppercase(p)) ==> (r matches Err(StoreError::PrefixReserved(x, n))
                    && x@ == p && exists|i: int| first_type_with_prefix(types, uppercase(p), i) && n@ == types[i].name@)
                &&& !type_prefix_used(types, uppercase(p)) && feature_prefix_used(old(self).features@, p) ==> (r matches Err(
                    StoreError::FeaturePrefixTaken(x),
                ) && x@ == p)
                &&& r is Ok <==> !type_prefix_used(types, uppercase(p)) && !feature_prefix_used(old(self).features@, p)
                &&& r is Err ==> *final(self) == *old(self)
                &&& r matches Ok(f) ==> {
                    &&& f.number == old(self).next_feature_number
                    &&& f.name@ == name@
                    &&& f.prefix@ == uppercase(p)
                    &&& f.description@.len() == 0
                    &&& final(self).features@ == old(self).features@.push(f)
                    &&& final(self).next_feature_number == old(self).next_feature_number + 1
                    &&& *final(self) == (RequirementsStore {
                        features: final(self).features,
                        next_feature_number: final(self).next_feature_number,
                        ..*old(self)
                    })
                }
            }),
    {
        let prefix_upper = to_upper(prefix);
        if self.id_config.is_prefix_reserved(prefix_upper.as_str()) {
            let owner_type = match self.id_config.get_type_by_prefix(prefix_upper.as_str()) {
                Some(t) => t.name.clone(),
                None => owned("unknown"),
            };
            return Err(StoreError::PrefixReserved(prefix_upper, owner_type));
        }
        let mut i: usize = 0;
        while i < self.features.len()
            invariant
                i <= self.features@.len(),
                *self == *old(self),
                prefix_upper@ == uppercase(prefix@),
                !type_prefix_used(self.id_config.requirement_types@, uppercase(prefix_upper@)),
                forall|k: int| 0 <= k < i ==> (#[trigger] self.features@[k]).prefix@ != prefix_upper@,
            decreases self.features.len() - i,
        {
            if self.features[i].prefix == prefix_upper {
                proof {
                    assert(feature_prefix_used(self.features@, prefix_upper@));
                }
                return Err(StoreError::FeaturePrefixTaken(prefix_upper));
            }
            i = i + 1;
        }
        let feature = FeatureDefinition::new(self.next_feature_number, name, prefix_upper.as_str());
        self.next_feature_number = self.next_feature_number + 1;
        let copy = feature.duplicate();
        self.features.push(feature);
        Ok(copy)
    }

    /// The next feature number; the counter advances.
    pub fn get_next_feature_number(&mut self) -> (r: u32)
        requires
            old(self).next_feature_number < u32::MAX,
        ensures
            r == old(self).next_feature_number,
            *final(self) == (RequirementsStore { next_feature_number: (r + 1) as u32, ..*old(self) }),
    {
        let current = self.next_feature_number;
        self.next_feature_number = current + 1;
        current
    }

    /// `N-name`, with N the next feature number.
    pub fn format_feature_with_number(&self, feature_name: &str) -> (r: String)
        ensures
            r@ == decimal(self.next_feature_number as nat) + "-"@ + feature_name@,
    {
        let n = crate::text::decimal_string(self.next_feature_number as u64);
        let mut r = n;
        r.append("-");
        r.append(feature_name);
        r
    }

    // -----------------------------------------------------------------------
    // Requirement types
    // -----------------------------------------------------------------------

    /// Adds a requirement type with the prefix in uppercase; the prefix may be
    /// neither another type's nor a feature's.
    pub fn add_requirement_type(&mut self, name: &str, prefix: &str, description: &str) -> (r: Result<(), StoreError>)
        ensures
            ({
                let p = uppercase(prefix@);
                let types = old(self).id_config.requirement_types@;
                &&& type_prefix_used(types, uppercase(p)) ==> (r matches Err(StoreError::TypePrefixTaken(x)) && x@ == p)
                &&& !type_prefix_used(types, uppercase(p)) && feature_prefix_used(old(self).features@, uppercase(p)) ==> (
                r matches Err(StoreError::PrefixUsedByFeature(x)) && x@ == p)
                &&& r is Ok <==> !type_prefix_used(types, uppercase(p)) && !feature_prefix_used(
                    old(self).features@,
                    uppercase(p),
                )
                &&& r is Err ==> *final(self) == *old(self)
                &&& r is Ok ==> {
                    &&& final(self).id_config.requirement_types@.len() == types.len() + 1
                    &&& final(self).id_config.requirement_types@.drop_last() == types
                    &&& final(self).id_config.requirement_types@.last().name@ == name@
                    &&& final(self).id_config.requirement_types@.last().prefix@ == uppercase(p)
                    &&& final(self).id_config.requirement_types@.last().description@ == description@
                    &&& final(self).id_config.format == old(self).id_config.format
                    &&& final(self).id_config.numbering == old(self).id_config.numbering
                    &&& final(self).id_config.digits == old(self).id_config.digits
                    &&& *final(self) == (RequirementsStore { id_config: final(self).id_config, ..*old(self) })
                }
            }),
    {
        let prefix_upper = to_upper(prefix);
        if self.id_config.get_type_by_prefix(prefix_upper.as_str()).is_some() {
            return Err(StoreError::TypePrefixTaken(prefix_upper));
        }
        if self.get_feature_by_prefix(prefix_upper.as_str()).is_some() {
            return Err(StoreError::PrefixUsedByFeature(prefix_upper));
        }
        self.id_config.requirement_types.push(RequirementTypeDefinition::new(name, prefix_upper.as_str(), description));
        proof {
            assert(self.id_config.requirement_types@.drop_last() =~= old(self).id_config.requirement_types@);
        }
        Ok(())
    }

    // -----------------------------------------------------------------------
    // Users and meta identifiers
    // -----------------------------------------------------------------------

    /// The next meta identifier `PREFIX-NNN` for a meta prefix such as
    /// `$USER`; its counter (keyed by the prefix as given) advances.
    pub fn next_meta_id(&mut self, prefix: &str) -> (r: String)
        requires
            counters_at_most(old(self).meta_counters@, (u32::MAX - 1) as nat),
        ensures
            ({
                let n = counter_of(counter_map(old(self).meta_counters@), prefix@);
                &&& r@ == meta_id_text(prefix@, n)
                &&& counter_map(final(self).meta_counters@) == counter_map(old(self).meta_counters@).insert(prefix@, n + 1)
            }),
            forall|b: nat|
                b >= 1 && counters_at_most(old(self).meta_counters@, b) ==> counters_at_most(final(self).meta_counters@, b + 1),
            *final(self) == (RequirementsStore { meta_counters: final(self).meta_counters, ..*old(self) }),
    {
        let n = bump_counter(&mut self.meta_counters, prefix);
        prefixed_number(prefix, n, 3)
    }

    /// Adds a user as it is.
    pub fn add_user(&mut self, user: User)
        ensures
            final(self).users@ == old(self).users@.push(user),
            *final(self) == (RequirementsStore { users: final(self).users, ..*old(self) }),
    {
        self.users.push(user);
    }

    /// Adds a new user with the next `$USER-NNN` identifier, and returns the
    /// identifier.
    pub fn add_user_with_id(&mut self, name: String, email: String, handle: String) -> (r: String)
        requires
            counters_at_most(old(self).meta_counters@, (u32::MAX - 1) as nat),
        ensures
            ({
                let n = counter_of(counter_map(old(self).meta_counters@), META_PREFIX_USER@);
                &&& r@ == meta_id_text(META_PREFIX_USER@, n)
                &&& counter_map(final(self).meta_counters@) == counter_map(old(self).meta_counters@).insert(
                    META_PREFIX_USER@,
                    n + 1,
                )
            }),
            final(self).users@.len() == old(self).users@.len() + 1,
            final(self).users@.drop_last() == old(self).users@,
            final(self).users@.last().spec_id == Some(r),
            final(self).users@.last().name == name,
            final(self).users@.last().email == email,
            final(self).users@.last().handle == handle,
            !final(self).users@.last().archived,
            *final(self) == (RequirementsStore {
                users: final(self).users,
                meta_counters: final(self).meta_counters,
                ..*old(self)
            }),
    {
        let spec_id = self.next_meta_id(META_PREFIX_USER);
        let user = User::new_with_spec_id(name, email, handle, spec_id.clone());
        self.users.push(user);
        proof {
            assert(self.users@.drop_last() =~= old(self).users@);
        }
        spec_id
    }

    /// The position of the first user with readable identifier `spec_id`.
    pub(crate) fn user_spec_index(&self, spec_id: &str) -> (r: Option<usize>)
        ensures
            match r {
                Some(i) => first_user_with_spec_id(self.users@, spec_id@, i as int),
                None => forall|i: int| 0 <= i < self.users@.len() ==> !opt_is((#[trigger] self.users@[i]).spec_id, spec_id@),
            },
    {
        let mut i: usize = 0;
        while i < self.users.len()
            invariant
                i <= self.users@.len(),
                forall|k: int| 0 <= k < i ==> !opt_is((#[trigger] self.users@[k]).spec_id, spec_id@),
            decreases self.users.len() - i,
        {
            if crate::text::opt_eq_str(&self.users[i].spec_id, spec_id) {
                return Some(i);
            }
            i = i + 1;
        }
        None
    }

    /// The first user with readable identifier `spec_id`.
    pub fn find_user_by_spec_id(&self, spec_id: &str) -> (r: Option<&User>)
        ensures
            match r {
                Some(u) => exists|i: int| first_user_with_spec_id(self.users@, spec_id@, i) && *u == self.users@[i],
                None => forall|i: int| 0 <= i < self.users@.len() ==> !opt_is((#[trigger] self.users@[i]).spec_id, spec_id@),
            },
    {
        match self.user_spec_index(spec_id) {
            Some(i) => Some(&self.users[i]),
            None => None,
        }
    }

    /// The position of the first user with identifier `id`.
    pub(crate) fn user_index(&self, id: u128) -> (r: Option<usize>)
        ensures
            match r {
                Some(i) => first_user_with_id(self.users@, id, i as int),
                None => forall|i: int| 0 <= i < self.users@.len() ==> (#[trigger] self.users@[i]).id != id,
            },
    {
        let mut i: usize = 0;
        while i < self.users.len()
            invariant
                i <= self.users@.len(),
                forall|k: int| 0 <= k < i ==> (#[trigger] self.users@[k]).id != id,
            decreases self.users.len() - i,
        {
            if self.users[i].id == id {
                return Some(i);
            }
            i = i + 1;
        }
        None
    }

    /// The first user with identifier `id`.
    pub fn find_user_by_id(&self, id: &u128) -> (r: Option<&User>)
        ensures
            match r {
                Some(u) => exists|i: int| first_user_with_id(self.users@, *id, i) && *u == self.users@[i],
                None => forall|i: int| 0 <= i < self.users@.len() ==> (#[trigger] self.users@[i]).id != *id,
            },
    {
        match self.user_index(*id) {
            Some(i) => Some(&self.users[i]),
            None => None,
        }
    }

    /// Removes the first user with identifier `id`; returns whether there was
    /// one.
    pub fn remove_user(&mut self, id: &u128) -> (r: bool)
        ensures
            !r ==> *final(self) == *old(self) && forall|i: int|
                0 <= i < old(self).users@.len() ==> (#[trigger] old(self).users@[i]).id != *id,
            r ==> exists|i: int|
                first_user_with_id(old(self).users@, *id, i) && final(self).users@ == old(self).users@.remove(i),
            *final(self) == (RequirementsStore { users: final(self).users, ..*old(self) }),
    {
        match self.user_index(*id) {
            Some(i) => {
                self.users.remove(i);
                true
            },
            None => false,
        }
    }

    /// Gives every user without readable identifier the next `$USER-NNN`, in
    /// order.
    pub fn migrate_users_to_spec_ids(&mut self)
        requires
            counters_at_most(old(self).meta_counters@, (u32::MAX - 1 - old(self).users@.len()) as nat),
            old(self).users@.len() < u32::MAX - 1,
        ensures
            final(self).users@.len() == old(self).users@.len(),
            forall|i: int|
                0 <= i < old(self).users@.len() && (#[trigger] old(self).users@[i]).spec_id is Some
                    ==> final(self).users@[i] == old(self).users@[i],
            forall|i: int|
                0 <= i < old(self).users@.len() && (#[trigger] old(self).users@[i]).spec_id is None
                    ==> final(self).users@[i] == (User { spec_id: final(self).users@[i].spec_id, ..old(self).users@[i] })
                    && opt_is(
                    final(self).users@[i].spec_id,
                    meta_id_text(
                        META_PREFIX_USER@,
                        counter_of(counter_map(old(self).meta_counters@), META_PREFIX_USER@) + users_missing(
                            old(self).users@.take(i),
                        ),
                    ),
                ),
            *final(self) == (RequirementsStore {
                users: final(self).users,
                meta_counters: final(self).meta_counters,
                ..*old(self)
            }),
    {
        let ghost orig = self.users@;
        let ghost start = counter_of(counter_map(old(self).meta_counters@), META_PREFIX_USER@);
        let ghost bound = (u32::MAX - 1 - orig.len()) as nat;
        let mut i: usize = 0;
        while i < self.users.len()
            invariant
                i <= self.users@.len(),
                self.users@.len() == orig.len(),
                orig == old(self).users@,
                orig.len() < u32::MAX - 1,
                bound == (u32::MAX - 1 - orig.len()) as nat,
                counters_at_most(self.meta_counters@, bound + users_missing(orig.take(i as int))),
                counter_of(counter_map(self.meta_counters@), META_PREFIX_USER@) == start + users_missing(orig.take(i as int)),
                start == counter_of(counter_map(old(self).meta_counters@), META_PREFIX_USER@),
                forall|k: int| i <= k < orig.len() ==> #[trigger] self.users@[k] == orig[k],
                forall|k: int| 0 <= k < i && (#[trigger] orig[k]).spec_id is Some ==> self.users@[k] == orig[k],
                forall|k: int|
                    0 <= k < i && (#[trigger] orig[k]).spec_id is None ==> self.users@[k] == (User {
                        spec_id: self.users@[k].spec_id,
                        ..orig[k]
                    }) && opt_is(self.users@[k].spec_id, meta_id_text(META_PREFIX_USER@, start + users_missing(orig.take(k)))),
                *self == (RequirementsStore { users: self.users, meta_counters: self.meta_counters, ..*old(self) }),
            decreases self.users.len() - i,
        {
            proof {
                assert(orig.take(i as int + 1) =~= orig.take(i as int).push(orig[i as int]));
                lemma_users_missing_push(orig.take(i as int), orig[i as int]);
                lemma_users_missing_prefix(orig, i as int + 1);
                lemma_users_missing_le(orig);
            }
            if self.users[i].spec_id.is_none() {
                let spec_id = self.next_meta_id(META_PREFIX_USER);
                self.users[i].spec_id = Some(spec_id);
            }
            i = i + 1;
        }
    }
}

proof fn lemma_users_missing_le(s: Seq<User>)
    ensures
        users_missing(s) <= s.len(),
    decreases s.len(),
{
    if s.len() > 0 {
        lemma_users_missing_le(s.drop_last());
    }
}


/// `defs` without the definitions named `n`, in order.
pub open spec fn without_def(defs: Seq<RelationshipDefinition>, n: Seq<char>) -> Seq<RelationshipDefinition>
    decreases defs.len(),
{
    if defs.len() == 0 {
        defs
    } else if defs.last().name@ == n {
        without_def(defs.drop_last(), n)
    } else {
        without_def(defs.drop_last(), n).push(defs.last())
    }
}

/// Whether `i` is the first definition in `defs` named `n`.
pub open spec fn first_def_named(defs: Seq<RelationshipDefinition>, n: Seq<char>, i: int) -> bool {
    0 <= i < defs.len() && defs[i].name@ == n && forall|j: int| 0 <= j < i ==> (#[trigger] defs[j]).name@ != n
}

/// Whether `new_defs` is `old_defs` with built-in definitions appended for
/// the default names it lacked: the old ones kept in front, every default
/// name present afterwards, each appended one built in, new and a default
/// name, and nothing appended when every default name was present.
pub open spec fn builtins_ensured(old_defs: Seq<RelationshipDefinition>, new_defs: Seq<RelationshipDefinition>) -> bool {
    &&& new_defs.len() >= old_defs.len()
    &&& new_defs.take(old_defs.len() as int) == old_defs
    &&& forall|i: int| 0 <= i < 14 ==> has_def(new_defs, lowercase(#[trigger] default_rel_names()[i]))
    &&& forall|j: int|
        old_defs.len() <= j < new_defs.len() ==> (#[trigger] new_defs[j]).built_in && !has_def(
            new_defs.take(j),
            new_defs[j].name@,
        ) && exists|i: int| 0 <= i < 14 && new_defs[j].name@ == lowercase(default_rel_names()[i])
    &&& (forall|i: int| 0 <= i < 14 ==> has_def(old_defs, lowercase(#[trigger] default_rel_names()[i]))) ==> new_defs
        == old_defs
}

/// Ensuring the built-in definitions a second time changes nothing.
pub proof fn lemma_ensure_builtins_idempotent(
    d0: Seq<RelationshipDefinition>,
    d1: Seq<RelationshipDefinition>,
    d2: Seq<RelationshipDefinition>,
)
    requires
        builtins_ensured(d0, d1),
        builtins_ensured(d1, d2),
    ensures
        d2 == d1,
{
}

fn def_index(defs: &Vec<RelationshipDefinition>, n: &String) -> (r: Option<usize>)
    ensures
        match r {
            Some(i) => first_def_named(defs@, n@, i as int),
            None => !has_def(defs@, n@),
        },
{
    let mut i: usize = 0;
    while i < defs.len()
        invariant
            i <= defs@.len(),
            forall|k: int| 0 <= k < i ==> (#[trigger] defs@[k]).name@ != n@,
        decreases defs.len() - i,
    {
        if defs[i].name == *n {
            return Some(i);
        }
        i = i + 1;
    }
    None
}

impl RequirementsStore {
    /// Adds a relationship definition under its name in lowercase; the name
    /// must be new.
    pub fn add_relationship_definition(&mut self, definition: RelationshipDefinition) -> (r: Result<(), StoreError>)
        ensures
            has_def(old(self).relationship_definitions@, lowercase(definition.name@)) ==> (r matches Err(
                StoreError::DefinitionExists(x),
            ) && x@ == lowercase(definition.name@)),
            r is Ok <==> !has_def(old(self).relationship_definitions@, lowercase(definition.name@)),
            r is Err ==> *final(self) == *old(self),
            r is Ok ==> final(self).relationship_definitions@.len() == old(self).relationship_definitions@.len() + 1
                && final(self).relationship_definitions@.drop_last() == old(self).relationship_definitions@
                && final(self).relationship_definitions@.last() == (RelationshipDefinition {
                name: final(self).relationship_definitions@.last().name,
                ..definition
            }) && final(self).relationship_definitions@.last().name@ == lowercase(definition.name@),
            *final(self) == (RequirementsStore {
                relationship_definitions: final(self).relationship_definitions,
                ..*old(self)
            }),
    {
        let name_lower = to_lower(definition.name.as_str());
        match def_index(&self.relationship_definitions, &name_lower) {
            Some(_) => Err(StoreError::DefinitionExists(name_lower)),
            None => {
                self.relationship_definitions.push(RelationshipDefinition { name: name_lower, ..definition });
                proof {
                    assert(self.relationship_definitions@.drop_last() =~= old(self).relationship_definitions@);
                }
                Ok(())
            },
        }
    }

    /// Updates the first relationship definition named `name` in lowercase:
    /// a built-in one takes only the display name, description, colour, icon
    /// and allowed types of `definition`; another one is replaced by
    /// `definition` under the lowercase name, not built in.
    pub fn update_relationship_definition(&mut self, name: &str, definition: RelationshipDefinition) -> (r: Result<
        (),
        StoreError,
    >)
        ensures
            !has_def(old(self).relationship_definitions@, lowercase(name@)) ==> (r matches Err(
                StoreError::DefinitionNotFound(x),
            ) && x@ == lowercase(name@)) && *final(self) == *old(self),
            has_def(old(self).relationship_definitions@, lowercase(name@)) ==> r is Ok && exists|i: int|
                first_def_named(old(self).relationship_definitions@, lowercase(name@), i)
                    && final(self).relationship_definitions@.len() == old(self).relationship_definitions@.len()
                    && (forall|j: int|
                    0 <= j < old(self).relationship_definitions@.len() && j != i ==> #[trigger] final(self).relationship_definitions@[j] == old(self).relationship_definitions@[j]) && if old(self).relationship_definitions@[i].built_in {
                    final(self).relationship_definitions@[i] == (RelationshipDefinition {
                        display_name: definition.display_name,
                        description: definition.description,
                        color: definition.color,
                        icon: definition.icon,
                        source_types: definition.source_types,
                        target_types: definition.target_types,
                        ..old(self).relationship_definitions@[i]
                    })
                } else {
                    final(self).relationship_definitions@[i] == (RelationshipDefinition {
                        name: final(self).relationship_definitions@[i].name,
                        built_in: false,
                        ..definition
                    }) && final(self).relationship_definitions@[i].name@ == lowercase(name@)
                },
            *final(self) == (RequirementsStore {
                relationship_definitions: final(self).relationship_definitions,
                ..*old(self)
            }),
    {
        let name_lower = to_lower(name);
        match def_index(&self.relationship_definitions, &name_lower) {
            None => Err(StoreError::DefinitionNotFound(name_lower)),
            Some(i) => {
                let ghost before = self.relationship_definitions@;
                let current = self.relationship_definitions.remove(i);
                let updated = if current.built_in {
                    RelationshipDefinition {
                        display_name: definition.display_name,
                        description: definition.description,
                        color: definition.color,
                        icon: definition.icon,
                        source_types: definition.source_types,
                        target_types: definition.target_types,
                        ..current
                    }
                } else {
                    RelationshipDefinition { name: name_lower, built_in: false, ..definition }
                };
                self.relationship_definitions.insert(i, updated);
                proof {
                    assert(self.relationship_definitions@ =~= before.update(i as int, updated));
                    assert(first_def_named(old(self).relationship_definitions@, lowercase(name@), i as int));
                    assert(self.relationship_definitions@.len() == before.len());
                    assert(self.relationship_definitions@[i as int] == updated);
                    assert(current == before[i as int]);
                    if current.built_in {
                        assert(updated == (RelationshipDefinition {
                            display_name: definition.display_name,
                            description: definition.description,
                            color: definition.color,
                            icon: definition.icon,
                            source_types: definition.source_types,
                            target_types: definition.target_types,
                            ..before[i as int]
                        }));
                    } else {
                        assert(updated.name@ == lowercase(name@));
                    }
                }
                Ok(())
            },
        }
    }

    /// Removes the relationship definitions named `name` in lowercase; there
    /// must be one, and the first must not be built in.
    pub fn remove_relationship_definition(&mut self, name: &str) -> (r: Result<(), StoreError>)
        ensures
            !has_def(old(self).relationship_definitions@, lowercase(name@)) ==> (r matches Err(
                StoreError::DefinitionNotFound(x),
            ) && x@ == lowercase(name@)),
            forall|i: int| #[trigger]
                first_def_named(old(self).relationship_definitions@, lowercase(name@), i) ==> if old(self).relationship_definitions@[i].built_in {
                    r matches Err(StoreError::BuiltInDefinition(x)) && x@ == lowercase(name@)
                } else {
                    r is Ok
                },
            r is Err ==> *final(self) == *old(self),
            r is Ok ==> final(self).relationship_definitions@ == without_def(
                old(self).relationship_definitions@,
                lowercase(name@),
            ),
            *final(self) == (RequirementsStore {
                relationship_definitions: final(self).relationship_definitions,
                ..*old(self)
            }),
    {
        let name_lower = to_lower(name);
        let i = match def_index(&self.relationship_definitions, &name_lower) {
            None => {
                return Err(StoreError::DefinitionNotFound(name_lower));
            },
            Some(i) => i,
        };
        proof {
            assert forall|x: int| #[trigger] first_def_named(old(self).relationship_definitions@, lowercase(name@), x) implies x == i by {
                if x < i {
                    assert(self.relationship_definitions@[x].name@ != name_lower@);
                } else if i < x {
                    assert(self.relationship_definitions@[i as int].name@ != name_lower@);
                }
            }
        }
        if self.relationship_definitions[i].built_in {
            return Err(StoreError::BuiltInDefinition(name_lower));
        }
        let ghost orig = self.relationship_definitions@;
        let ghost mut k: int = 0;
        let mut j: usize = 0;
        while j < self.relationship_definitions.len()
            invariant
                0 <= k <= orig.len(),
                self.relationship_definitions@ == without_def(orig.take(k), name_lower@) + orig.skip(k),
                j == without_def(orig.take(k), name_lower@).len(),
                *self == (RequirementsStore { relationship_definitions: self.relationship_definitions, ..*old(self) }),
            decreases orig.len() - k,
        {
            proof {
                assert(orig.take(k + 1).drop_last() =~= orig.take(k));
                assert(self.relationship_definitions@[j as int] == orig[k]);
            }
            let ghost before = self.relationship_definitions@;
            if self.relationship_definitions[j].name == name_lower {
                self.relationship_definitions.remove(j);
                proof {
                    assert(self.relationship_definitions@ =~= without_def(orig.take(k + 1), name_lower@) + orig.skip(k + 1));
                }
            } else {
                j = j + 1;
                proof {
                    assert(before =~= without_def(orig.take(k + 1), name_lower@) + orig.skip(k + 1));
                }
            }
            proof {
                k = k + 1;
            }
        }
        proof {
            if k < orig.len() {
                assert(self.relationship_definitions@.len() > j);
            }
            assert(orig.take(orig.len() as int) =~= orig);
            assert(orig.skip(orig.len() as int) =~= Seq::<RelationshipDefinition>::empty());
            assert(self.relationship_definitions@ =~= without_def(orig, name_lower@));
        }
        Ok(())
    }

    /// Adds each built-in relationship definition whose name is missing, in
    /// the order of the defaults; existing definitions are left as they are.
    pub fn ensure_builtin_relationships(&mut self)
        ensures
            builtins_ensured(old(self).relationship_definitions@, final(self).relationship_definitions@),
            *final(self) == (RequirementsStore {
                relationship_definitions: final(self).relationship_definitions,
                ..*old(self)
            }),
    {
        let mut defaults = RelationshipDefinition::defaults();
        let ghost all = defaults@;
        let ghost old_defs = self.relationship_definitions@;
        let mut taken: usize = 0;
        while defaults.len() > 0
            invariant
                taken + defaults@.len() == 14,
                all.len() == 14,
                defaults@ == all.skip(taken as int),
                forall|i: int| 0 <= i < 14 ==> (#[trigger] all[i]).built_in,
                forall|i: int| 0 <= i < 14 ==> (#[trigger] all[i]).name@ == lowercase(default_rel_names()[i]),
                self.relationship_definitions@.len() >= old_defs.len(),
                self.relationship_definitions@.take(old_defs.len() as int) == old_defs,
                forall|i: int| 0 <= i < taken ==> has_def(self.relationship_definitions@, lowercase(#[trigger] default_rel_names()[i])),
                forall|j: int|
                    old_defs.len() <= j < self.relationship_definitions@.len() ==> (#[trigger] self.relationship_definitions@[j]).built_in
                        && !has_def(self.relationship_definitions@.take(j), self.relationship_definitions@[j].name@)
                        && exists|i: int| 0 <= i < 14 && self.relationship_definitions@[j].name@ == lowercase(default_rel_names()[i]),
                (forall|i: int| 0 <= i < 14 ==> has_def(old_defs, lowercase(#[trigger] default_rel_names()[i]))) ==> self.relationship_definitions@ == old_defs,
                old_defs == old(self).relationship_definitions@,
                *self == (RequirementsStore { relationship_definitions: self.relationship_definitions, ..*old(self) }),
            decreases defaults.len(),
        {
            let d = defaults.remove(0);
            proof {
                assert(d == all[taken as int]);
                assert(defaults@ =~= all.skip(taken as int + 1));
            }
            let ghost before = self.relationship_definitions@;
            match def_index(&self.relationship_definitions, &d.name) {
                Some(x) => {
                    proof {
                        assert(has_def(before, lowercase(default_rel_names()[taken as int])));
                    }
                },
                None => {
                    proof {
                        if forall|i: int| 0 <= i < 14 ==> has_def(old_defs, lowercase(#[trigger] default_rel_names()[i])) {
                            assert(has_def(old_defs, lowercase(default_rel_names()[taken as int])));
                            let w = choose|w: int| 0 <= w < old_defs.len() && (#[trigger] old_defs[w]).name@ == lowercase(default_rel_names()[taken as int]);
                            assert(before[w] == old_defs[w]);
                            assert(false);
                        }
                    }
                    self.relationship_definitions.push(d);
                    proof {
                        let now = self.relationship_definitions@;
                        assert(now.take(old_defs.len() as int) =~= before.take(old_defs.len() as int));
                        assert(now[now.len() - 1].name@ == lowercase(default_rel_names()[taken as int]));
                        assert(has_def(now, lowercase(default_rel_names()[taken as int])));
                        assert forall|i: int| 0 <= i < taken implies has_def(now, lowercase(#[trigger] default_rel_names()[i])) by {
                            let w = choose|w: int| 0 <= w < before.len() && (#[trigger] before[w]).name@ == lowercase(default_rel_names()[i]);
                            assert(now[w] == before[w]);
                        }
                        assert forall|j: int| old_defs.len() <= j < now.len() implies (#[trigger] now[j]).built_in
                            && !has_def(now.take(j), now[j].name@)
                            && exists|i: int| 0 <= i < 14 && now[j].name@ == lowercase(default_rel_names()[i]) by {
                            if j < before.len() {
                                assert(now[j] == before[j]);
                                assert(now.take(j) =~= before.take(j));
                            } else {
                                assert(now.take(j) =~= before);
                                assert(now[j].name@ == lowercase(default_rel_names()[taken as int]));
                            }
                        }
                    }
                },
            }
            taken = taken + 1;
        }
        proof {
            assert(taken == 14);
        }
    }
}

} // verus!
