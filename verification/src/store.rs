//! The requirements store: all requirements of a project, its users, and the
//! configuration of identifiers, features, types, relationships and
//! reactions.
use vstd::prelude::*;
use vstd::string::*;
use crate::clock::{uuid_string, uuid_text};
use crate::model::{
    default_reaction_definitions, default_type_definitions, is_default_id_types, is_default_reactions,
    is_default_rel_defs, is_default_type_defs, opt_kind, rel_kind_inverse, rel_kind_text,
    CustomTypeDefinition, FeatureDefinition, IdConfiguration, IdFormat, NumberingStrategy, ReactionDefinition,
    RelKind, RelationshipDefinition, RelationshipType,
};
use crate::requirement::{Relationship, Requirement, User};
use crate::text::{decimal, format_padded, lemma_padded_decimal_injective, opt_is, opt_view, owned, str_eq, zero_pad};

verus! {

/// Why a store operation was refused.
#[derive(Debug, Clone)]
pub enum StoreError {
    /// No requirement has the given source identifier
    SourceNotFound(u128),
    /// No requirement has the given target identifier
    TargetNotFound(u128),
    /// A relationship from a requirement to itself
    SelfRelationship,
    /// The source already has this relationship to the target
    RelationshipExists(RelationshipType, u128),
    /// The source has no such relationship to the target
    RelationshipNotFound(RelationshipType, u128),
    /// Two requirements share a readable identifier
    DuplicateSpecId(String),
    /// The prefix belongs to a requirement type (prefix, type name)
    PrefixReserved(String, String),
    /// Another feature already uses the prefix
    FeaturePrefixTaken(String),
    /// Another requirement type already uses the prefix
    TypePrefixTaken(String),
    /// A feature already uses the prefix given for a type
    PrefixUsedByFeature(String),
    /// A relationship definition with this name exists
    DefinitionExists(String),
    /// No relationship definition has this name
    DefinitionNotFound(String),
    /// Built-in relationship definitions cannot be removed
    BuiltInDefinition(String),
    /// No comment has the given identifier
    CommentNotFound,
    /// No comment has the given parent identifier
    ParentCommentNotFound,
}

/// The message that describes an error.
pub open spec fn error_text(e: StoreError) -> Seq<char> {
    match e {
        StoreError::SourceNotFound(id) => "Source requirement not found: "@ + uuid_text(id),
        StoreError::TargetNotFound(id) => "Target requirement not found: "@ + uuid_text(id),
        StoreError::SelfRelationship => "Cannot create relationship to self"@,
        StoreError::RelationshipExists(t, id) => "Relationship '"@ + rel_kind_text(t@) + "' to "@ + uuid_text(id)
            + " already exists"@,
        StoreError::RelationshipNotFound(t, id) => "Relationship '"@ + rel_kind_text(t@) + "' to "@ + uuid_text(
            id,
        ) + " not found"@,
        StoreError::DuplicateSpecId(s) => "Duplicate SPEC-ID found: "@ + s@,
        StoreError::PrefixReserved(p, n) => "Prefix '"@ + p@ + "' is reserved for requirement type '"@ + n@
            + "'"@,
        StoreError::FeaturePrefixTaken(p) => "Prefix '"@ + p@ + "' is already used by another feature"@,
        StoreError::TypePrefixTaken(p) => "Prefix '"@ + p@ + "' is already used by another requirement type"@,
        StoreError::PrefixUsedByFeature(p) => "Prefix '"@ + p@ + "' is already used by a feature"@,
        StoreError::DefinitionExists(n) => "Relationship definition '"@ + n@ + "' already exists"@,
        StoreError::DefinitionNotFound(n) => "Relationship definition '"@ + n@ + "' not found"@,
        StoreError::BuiltInDefinition(n) => "Cannot remove built-in relationship definition '"@ + n@ + "'"@,
        StoreError::CommentNotFound => "Comment not found"@,
        StoreError::ParentCommentNotFound => "Parent comment not found"@,
    }
}

fn join3(a: &str, b: &str, c: &str) -> (r: String)
    ensures
        r@ == a@ + b@ + c@,
{
    let mut r = owned(a);
    r.append(b);
    r.append(c);
    r
}

fn join2(a: &str, b: &str) -> (r: String)
    ensures
        r@ == a@ + b@,
{
    let mut r = owned(a);
    r.append(b);
    r
}

fn join5(a: &str, b: &str, c: &str, d: &str, e: &str) -> (r: String)
    ensures
        r@ == a@ + b@ + c@ + d@ + e@,
{
    let mut r = owned(a);
    r.append(b);
    r.append(c);
    r.append(d);
    r.append(e);
    r
}

impl StoreError {
    /// The message that describes the error.
    pub fn message(&self) -> (r: String)
        ensures
            r@ == error_text(*self),
    {
        match self {
            StoreError::SourceNotFound(id) => {
                let u = uuid_string(*id);
                join2("Source requirement not found: ", u.as_str())
            },
            StoreError::TargetNotFound(id) => {
                let u = uuid_string(*id);
                join2("Target requirement not found: ", u.as_str())
            },
            StoreError::SelfRelationship => owned("Cannot create relationship to self"),
            StoreError::RelationshipExists(t, id) => {
                let k = t.display_text();
                let u = uuid_string(*id);
                join5("Relationship '", k.as_str(), "' to ", u.as_str(), " already exists")
            },
            StoreError::RelationshipNotFound(t, id) => {
                let k = t.display_text();
                let u = uuid_string(*id);
                join5("Relationship '", k.as_str(), "' to ", u.as_str(), " not found")
            },
            StoreError::DuplicateSpecId(s) => join2("Duplicate SPEC-ID found: ", s.as_str()),
            StoreError::PrefixReserved(p, n) => join5(
                "Prefix '",
                p.as_str(),
                "' is reserved for requirement type '",
                n.as_str(),
                "'",
            ),
            StoreError::FeaturePrefixTaken(p) => join3("Prefix '", p.as_str(), "' is already used by another feature"),
            StoreError::TypePrefixTaken(p) => join3(
                "Prefix '",
                p.as_str(),
                "' is already used by another requirement type",
            ),
            StoreError::PrefixUsedByFeature(p) => join3("Prefix '", p.as_str(), "' is already used by a feature"),
            StoreError::DefinitionExists(n) => join3("Relationship definition '", n.as_str(), "' already exists"),
            StoreError::DefinitionNotFound(n) => join3("Relationship definition '", n.as_str(), "' not found"),
            StoreError::BuiltInDefinition(n) => join3(
                "Cannot remove built-in relationship definition '",
                n.as_str(),
                "'",
            ),
            StoreError::CommentNotFound => owned("Comment not found"),
            StoreError::ParentCommentNotFound => owned("Parent comment not found"),
        }
    }
}

/// All requirements of a project with their configuration.
#[derive(Debug)]
pub struct RequirementsStore {
    /// The requirements
    pub requirements: Vec<Requirement>,
    /// The users
    pub users: Vec<User>,
    /// Identifier configuration
    pub id_config: IdConfiguration,
    /// Features with their prefixes
    pub features: Vec<FeatureDefinition>,
    /// Number the next feature gets
    pub next_feature_number: u32,
    /// Next number under global numbering
    pub next_spec_number: u32,
    /// Next number per prefix under per-prefix numbering, as (prefix, next)
    pub prefix_counters: Vec<(String, u32)>,
    /// Relationship kinds and their constraints
    pub relationship_definitions: Vec<RelationshipDefinition>,
    /// Reactions that comments can get
    pub reaction_definitions: Vec<ReactionDefinition>,
    /// Next number per meta prefix (such as `$USER`), as (prefix, next)
    pub meta_counters: Vec<(String, u32)>,
    /// Requirement types with their statuses and fields
    pub type_definitions: Vec<CustomTypeDefinition>,
    /// Prefixes known to the project
    pub allowed_prefixes: Vec<String>,
    /// Whether only known prefixes may be chosen
    pub restrict_prefixes: bool,
}

/// Meta prefix of user identifiers.
pub const META_PREFIX_USER: &'static str = "$USER";

/// Meta prefix of view identifiers.
pub const META_PREFIX_VIEW: &'static str = "$VIEW";

/// Meta prefix of feature identifiers.
pub const META_PREFIX_FEATURE: &'static str = "$FEAT";

/// The number the first feature gets.
pub fn default_next_feature_number() -> (r: u32)
    ensures
        r == 1,
{
    1
}

/// The number the first requirement gets under global numbering.
pub fn default_next_spec_number() -> (r: u32)
    ensures
        r == 1,
{
    1
}

// ---------------------------------------------------------------------------
// Looking requirements up
// ---------------------------------------------------------------------------

/// Whether `i` is the first position in `s` of a requirement with id `id`.
pub open spec fn first_with_id(s: Seq<Requirement>, id: u128, i: int) -> bool {
    0 <= i < s.len() && s[i].id == id && forall|j: int| 0 <= j < i ==> (#[trigger] s[j]).id != id
}

/// Whether some requirement in `s` has id `id`.
pub open spec fn has_id(s: Seq<Requirement>, id: u128) -> bool {
    exists|i: int| 0 <= i < s.len() && (#[trigger] s[i]).id == id
}

/// Whether `i` is the first position in `s` of a requirement with readable
/// identifier `sid`.
pub open spec fn first_with_spec_id(s: Seq<Requirement>, sid: Seq<char>, i: int) -> bool {
    0 <= i < s.len() && opt_is(s[i].spec_id, sid) && forall|j: int|
        0 <= j < i ==> !opt_is((#[trigger] s[j]).spec_id, sid)
}

/// The readable identifier `SPEC-NNN` for number `n`.
pub open spec fn spec_text(n: nat) -> Seq<char> {
    "SPEC-"@ + zero_pad(decimal(n), 3)
}

/// The number of requirements in `s` without readable identifier.
pub open spec fn count_missing(s: Seq<Requirement>) -> nat
    decreases s.len(),
{
    if s.len() == 0 {
        0
    } else {
        count_missing(s.drop_last()) + if s.last().spec_id is None { 1nat } else { 0nat }
    }
}

proof fn lemma_count_missing_push(s: Seq<Requirement>, r: Requirement)
    ensures
        count_missing(s.push(r)) == count_missing(s) + if r.spec_id is None { 1nat } else { 0nat },
{
    assert(s.push(r).drop_last() =~= s);
}

/// Requirements with the same identifiers at the same positions are found
/// at the same positions.
pub(crate) proof fn lemma_same_ids(s0: Seq<Requirement>, s1: Seq<Requirement>)
    requires
        s0.len() == s1.len(),
        forall|k: int| 0 <= k < s0.len() ==> (#[trigger] s1[k]).id == s0[k].id,
    ensures
        forall|id: u128, k: int| #[trigger] first_with_id(s1, id, k) <==> first_with_id(s0, id, k),
        forall|id: u128| #[trigger] has_id(s1, id) <==> has_id(s0, id),
{
    assert forall|id: u128, k: int| #[trigger] first_with_id(s1, id, k) <==> first_with_id(s0, id, k) by {
        if first_with_id(s1, id, k) {
            assert forall|j: int| 0 <= j < k implies (#[trigger] s0[j]).id != id by {
                assert(s1[j].id == s0[j].id);
            }
        }
        if first_with_id(s0, id, k) {
            assert forall|j: int| 0 <= j < k implies (#[trigger] s1[j]).id != id by {
                assert(s1[j].id == s0[j].id);
            }
        }
    }
    assert forall|id: u128| #[trigger] has_id(s1, id) <==> has_id(s0, id) by {
        if has_id(s0, id) {
            let j = choose|j: int| 0 <= j < s0.len() && (#[trigger] s0[j]).id == id;
            assert(s1[j].id == s0[j].id);
        }
        if has_id(s1, id) {
            let j = choose|j: int| 0 <= j < s1.len() && (#[trigger] s1[j]).id == id;
            assert(s1[j].id == s0[j].id);
        }
    }
}

pub(crate) proof fn lemma_first_unique(s: Seq<Requirement>, id: u128, i: int, j: int)
    requires
        first_with_id(s, id, i),
        first_with_id(s, id, j),
    ensures
        i == j,
{
    if i < j {
        assert(s[i].id != id);
    } else if j < i {
        assert(s[j].id != id);
    }
}

/// Whether two readable identifiers in `s`, at positions `i < j`, are equal.
pub open spec fn duplicate_at(s: Seq<Requirement>, i: int, j: int) -> bool {
    0 <= i < j < s.len() && s[i].spec_id is Some && s[j].spec_id is Some && s[i].spec_id->0@
        == s[j].spec_id->0@
}

/// Whether no two requirements in `s` share a readable identifier.
pub open spec fn spec_ids_unique(s: Seq<Requirement>) -> bool {
    forall|i: int, j: int| !#[trigger] duplicate_at(s, i, j)
}

/// Whether `s1` is `s0` after each requirement without readable identifier
/// got, in order, `SPEC-NNN` counting up from `next`; the others unchanged.
pub open spec fn assigned_spec_ids(s0: Seq<Requirement>, s1: Seq<Requirement>, next: nat) -> bool {
    &&& s1.len() == s0.len()
    &&& forall|i: int| 0 <= i < s0.len() && (#[trigger] s0[i]).spec_id is Some ==> s1[i] == s0[i]
    &&& forall|i: int|
        0 <= i < s0.len() && (#[trigger] s0[i]).spec_id is None ==> s1[i] == (Requirement {
            spec_id: s1[i].spec_id,
            ..s0[i]
        }) && opt_is(s1[i].spec_id, spec_text(next + count_missing(s0.take(i))))
}

impl RequirementsStore {
    /// An empty store with the default configuration.
    pub fn new() -> (r: Self)
        ensures
            r.requirements@.len() == 0,
            r.users@.len() == 0,
            r.id_config.format == IdFormat::SingleLevel,
            r.id_config.numbering == NumberingStrategy::Global,
            r.id_config.digits == 3,
            is_default_id_types(r.id_config.requirement_types@),
            r.features@.len() == 0,
            r.next_feature_number == 1,
            r.next_spec_number == 1,
            r.prefix_counters@.len() == 0,
            is_default_rel_defs(r.relationship_definitions@),
            is_default_reactions(r.reaction_definitions@),
            r.meta_counters@.len() == 0,
            is_default_type_defs(r.type_definitions@),
            r.allowed_prefixes@.len() == 0,
            !r.restrict_prefixes,
    {
        RequirementsStore {
            requirements: Vec::new(),
            users: Vec::new(),
            id_config: IdConfiguration::default_config(),
            features: Vec::new(),
            next_feature_number: default_next_feature_number(),
            next_spec_number: default_next_spec_number(),
            prefix_counters: Vec::new(),
            relationship_definitions: RelationshipDefinition::defaults(),
            reaction_definitions: default_reaction_definitions(),
            meta_counters: Vec::new(),
            type_definitions: default_type_definitions(),
            allowed_prefixes: Vec::new(),
            restrict_prefixes: false,
        }
    }

    /// The position of the first requirement with identifier `id`.
    pub fn index_of_id(&self, id: u128) -> (r: Option<usize>)
        ensures
            match r {
                Some(i) => first_with_id(self.requirements@, id, i as int),
                None => !has_id(self.requirements@, id),
            },
    {
        let mut i: usize = 0;
        while i < self.requirements.len()
            invariant
                i <= self.requirements@.len(),
                forall|j: int| 0 <= j < i ==> (#[trigger] self.requirements@[j]).id != id,
            decreases self.requirements.len() - i,
        {
            if self.requirements[i].id == id {
                return Some(i);
            }
            i = i + 1;
        }
        None
    }

    /// The first requirement with identifier `id`.
    pub fn get_requirement_by_id(&self, id: &u128) -> (r: Option<&Requirement>)
        ensures
            match r {
                Some(q) => exists|i: int| first_with_id(self.requirements@, *id, i) && *q == self.requirements@[i],
                None => !has_id(self.requirements@, *id),
            },
    {
        match self.index_of_id(*id) {
            Some(i) => Some(&self.requirements[i]),
            None => None,
        }
    }

    /// The position of the first requirement with readable identifier
    /// `spec_id`.
    pub fn index_of_spec_id(&self, spec_id: &str) -> (r: Option<usize>)
        ensures
            match r {
                Some(i) => first_with_spec_id(self.requirements@, spec_id@, i as int),
                None => forall|i: int|
                    0 <= i < self.requirements@.len() ==> !opt_is((#[trigger] self.requirements@[i]).spec_id, spec_id@),
            },
    {
        let mut i: usize = 0;
        while i < self.requirements.len()
            invariant
                i <= self.requirements@.len(),
                forall|j: int| 0 <= j < i ==> !opt_is((#[trigger] self.requirements@[j]).spec_id, spec_id@),
            decreases self.requirements.len() - i,
        {
            if crate::text::opt_eq_str(&self.requirements[i].spec_id, spec_id) {
                return Some(i);
            }
            i = i + 1;
        }
        None
    }

    /// The first requirement with readable identifier `spec_id`.
    pub fn get_requirement_by_spec_id(&self, spec_id: &str) -> (r: Option<&Requirement>)
        ensures
            match r {
                Some(q) => exists|i: int|
                    first_with_spec_id(self.requirements@, spec_id@, i) && *q == self.requirements@[i],
                None => forall|i: int|
                    0 <= i < self.requirements@.len() ==> !opt_is((#[trigger] self.requirements@[i]).spec_id, spec_id@),
            },
    {
        match self.index_of_spec_id(spec_id) {
            Some(i) => Some(&self.requirements[i]),
            None => None,
        }
    }

    /// Adds a requirement at the end, as it is.
    pub fn add_requirement(&mut self, req: Requirement)
        ensures
            final(self).requirements@ == old(self).requirements@.push(req),
            *final(self) == (RequirementsStore { requirements: final(self).requirements, ..*old(self) }),
    {
        self.requirements.push(req);
    }

    /// The readable identifier `SPEC-NNN` the next requirement without one
    /// gets.
    pub fn peek_next_spec_id(&self) -> (r: String)
        ensures
            r@ == spec_text(self.next_spec_number as nat),
    {
        let n = format_padded(self.next_spec_number, 3);
        let mut r = owned("SPEC-");
        r.append(n.as_str());
        r
    }

    /// Gives every requirement without readable identifier the next
    /// `SPEC-NNN`, in order, counting up from the global counter.
    pub fn assign_spec_ids(&mut self)
        requires
            old(self).next_spec_number + count_missing(old(self).requirements@) <= u32::MAX,
        ensures
            final(self).requirements@.len() == old(self).requirements@.len(),
            final(self).next_spec_number == old(self).next_spec_number + count_missing(old(self).requirements@),
            assigned_spec_ids(
                old(self).requirements@,
                final(self).requirements@,
                old(self).next_spec_number as nat,
            ),
            forall|i: int|
                0 <= i < final(self).requirements@.len() ==> (#[trigger] final(self).requirements@[i]).spec_id is Some,
            *final(self) == (RequirementsStore {
                requirements: final(self).requirements,
                next_spec_number: final(self).next_spec_number,
                ..*old(self)
            }),
    {
        let ghost orig = self.requirements@;
        let mut i: usize = 0;
        while i < self.requirements.len()
            invariant
                i <= self.requirements@.len(),
                self.requirements@.len() == orig.len(),
                orig == old(self).requirements@,
                self.next_spec_number == old(self).next_spec_number + count_missing(orig.take(i as int)),
                old(self).next_spec_number + count_missing(orig) <= u32::MAX,
                forall|k: int| i <= k < orig.len() ==> #[trigger] self.requirements@[k] == orig[k],
                forall|k: int|
                    0 <= k < i && (#[trigger] orig[k]).spec_id is Some ==> self.requirements@[k] == orig[k],
                forall|k: int|
                    0 <= k < i && (#[trigger] orig[k]).spec_id is None ==> self.requirements@[k] == (Requirement {
                        spec_id: self.requirements@[k].spec_id,
                        ..orig[k]
                    }) && opt_is(
                        self.requirements@[k].spec_id,
                        spec_text((old(self).next_spec_number + count_missing(orig.take(k))) as nat),
                    ),
                *self == (RequirementsStore {
                    requirements: self.requirements,
                    next_spec_number: self.next_spec_number,
                    ..*old(self)
                }),
            decreases self.requirements.len() - i,
        {
            proof {
                assert(orig.take(i as int + 1) =~= orig.take(i as int).push(orig[i as int]));
                lemma_count_missing_push(orig.take(i as int), orig[i as int]);
                lemma_count_missing_prefix(orig, i as int + 1);
            }
            if self.requirements[i].spec_id.is_none() {
                let id = self.peek_next_spec_id();
                self.requirements[i].spec_id = Some(id);
                self.next_spec_number = self.next_spec_number + 1;
            }
            i = i + 1;
        }
        proof {
            assert(orig.take(orig.len() as int) =~= orig);
            assert forall|k: int| 0 <= k < self.requirements@.len() implies (#[trigger] self.requirements@[k]).spec_id is Some by {
                if orig[k].spec_id is Some {
                    assert(self.requirements@[k] == orig[k]);
                }
            }
        }
    }

    /// Adds a requirement; when it has no readable identifier it first gets
    /// `SPEC-NNN` from the global counter.
    pub fn add_requirement_with_spec_id(&mut self, req: Requirement)
        requires
            req.spec_id is None ==> old(self).next_spec_number < u32::MAX,
        ensures
            final(self).requirements@.len() == old(self).requirements@.len() + 1,
            final(self).requirements@.drop_last() == old(self).requirements@,
            req.spec_id is Some ==> final(self).requirements@.last() == req && final(self).next_spec_number
                == old(self).next_spec_number,
            req.spec_id is None ==> final(self).requirements@.last() == (Requirement {
                spec_id: final(self).requirements@.last().spec_id,
                ..req
            }) && opt_is(final(self).requirements@.last().spec_id, spec_text(old(self).next_spec_number as nat))
                && final(self).next_spec_number == old(self).next_spec_number + 1,
            *final(self) == (RequirementsStore {
                requirements: final(self).requirements,
                next_spec_number: final(self).next_spec_number,
                ..*old(self)
            }),
    {
        let mut req = req;
        if req.spec_id.is_none() {
            req.spec_id = Some(self.peek_next_spec_id());
            self.next_spec_number = self.next_spec_number + 1;
        }
        self.requirements.push(req);
        proof {
            assert(self.requirements@.drop_last() =~= old(self).requirements@);
        }
    }

    /// Checks that no two requirements share a readable identifier; the
    /// error names the first identifier found a second time.
    pub fn validate_unique_spec_ids(&self) -> (r: Result<(), StoreError>)
        ensures
            r is Ok <==> spec_ids_unique(self.requirements@),
            r matches Err(e) ==> e matches StoreError::DuplicateSpecId(s) && exists|i: int, j: int|
                #[trigger] duplicate_at(self.requirements@, i, j) && self.requirements@[j].spec_id->0@ == s@
                    && forall|a: int, b: int| b < j ==> !#[trigger] duplicate_at(self.requirements@, a, b),
    {
        let mut j: usize = 0;
        while j < self.requirements.len()
            invariant
                j <= self.requirements@.len(),
                forall|a: int, b: int| b < j ==> !#[trigger] duplicate_at(self.requirements@, a, b),
            decreases self.requirements.len() - j,
        {
            match &self.requirements[j].spec_id {
                Some(sj) => {
                    let mut i: usize = 0;
                    while i < j
                        invariant
                            i <= j < self.requirements@.len(),
                            self.requirements@[j as int].spec_id == Some(*sj),
                            forall|a: int| 0 <= a < i ==> !#[trigger] duplicate_at(self.requirements@, a, j as int),
                            forall|a: int, b: int| b < j ==> !#[trigger] duplicate_at(self.requirements@, a, b),
                        decreases j - i,
                    {
                        if crate::text::opt_eq_str(&self.requirements[i].spec_id, sj.as_str()) {
                            let dup = sj.clone();
                            proof {
                                assert(duplicate_at(self.requirements@, i as int, j as int));
                                assert(self.requirements@[j as int].spec_id->0@ == dup@);
                                assert(exists|x: int, y: int|
                                    #[trigger] duplicate_at(self.requirements@, x, y) && self.requirements@[y].spec_id->0@
                                        == dup@ && forall|a: int, b: int| b < y ==> !#[trigger] duplicate_at(self.requirements@, a, b));
                            }
                            return Err(StoreError::DuplicateSpecId(dup));
                        }
                        i = i + 1;
                    }
                    proof {
                        assert forall|a: int, b: int| b < j + 1 implies !#[trigger] duplicate_at(
                            self.requirements@,
                            a,
                            b,
                        ) by {
                            if b == j && duplicate_at(self.requirements@, a, b) {
                                assert(!duplicate_at(self.requirements@, a, j as int));
                            }
                        }
                    }
                },
                None => {},
            }
            j = j + 1;
        }
        Ok(())
    }
}

proof fn lemma_count_missing_prefix(s: Seq<Requirement>, k: int)
    requires
        0 <= k <= s.len(),
    ensures
        count_missing(s.take(k)) <= count_missing(s),
    decreases s.len() - k,
{
    if k < s.len() {
        lemma_count_missing_prefix(s, k + 1);
        assert(s.take(k + 1) =~= s.take(k).push(s[k]));
        lemma_count_missing_push(s.take(k), s[k]);
    } else {
        assert(s.take(k) =~= s);
    }
}


// ---------------------------------------------------------------------------
// Relationship lists
// ---------------------------------------------------------------------------

/// Whether relationship `r` goes to `target` with kind `kind`.
pub open spec fn rel_is(r: Relationship, target: u128, kind: RelKind) -> bool {
    r.target_id == target && r.rel_type@ == kind
}

/// Whether `rels` holds a relationship to `target` of kind `kind`.
pub open spec fn has_rel(rels: Seq<Relationship>, target: u128, kind: RelKind) -> bool {
    exists|k: int| 0 <= k < rels.len() && rel_is(#[trigger] rels[k], target, kind)
}

/// `rels` without the relationships to `target` of kind `kind`, in order.
pub open spec fn without_rel(rels: Seq<Relationship>, target: u128, kind: RelKind) -> Seq<Relationship>
    decreases rels.len(),
{
    if rels.len() == 0 {
        rels
    } else if rel_is(rels.last(), target, kind) {
        without_rel(rels.drop_last(), target, kind)
    } else {
        without_rel(rels.drop_last(), target, kind).push(rels.last())
    }
}

/// `rels` without the relationships of kind `kind`, in order.
pub open spec fn without_kind(rels: Seq<Relationship>, kind: RelKind) -> Seq<Relationship>
    decreases rels.len(),
{
    if rels.len() == 0 {
        rels
    } else if rels.last().rel_type@ == kind {
        without_kind(rels.drop_last(), kind)
    } else {
        without_kind(rels.drop_last(), kind).push(rels.last())
    }
}

/// The targets of the relationships of kind `kind` in `rels`, in order.
pub open spec fn kind_targets(rels: Seq<Relationship>, kind: RelKind) -> Seq<u128>
    decreases rels.len(),
{
    if rels.len() == 0 {
        Seq::empty()
    } else if rels.last().rel_type@ == kind {
        kind_targets(rels.drop_last(), kind).push(rels.last().target_id)
    } else {
        kind_targets(rels.drop_last(), kind)
    }
}

/// Whether `after` is `before` with a relationship to `target` of kind
/// `kind` appended.
pub open spec fn pushed_rel(before: Requirement, after: Requirement, kind: RelKind, target: u128) -> bool {
    &&& after == (Requirement { relationships: after.relationships, ..before })
    &&& after.relationships@.len() == before.relationships@.len() + 1
    &&& after.relationships@.drop_last() == before.relationships@
    &&& rel_is(after.relationships@.last(), target, kind)
}

pub(crate) proof fn lemma_without_rel_same(rels: Seq<Relationship>, target: u128, kind: RelKind)
    requires
        !has_rel(rels, target, kind),
    ensures
        without_rel(rels, target, kind) == rels,
    decreases rels.len(),
{
    if rels.len() > 0 {
        assert(!rel_is(rels[rels.len() - 1], target, kind));
        assert forall|k: int| 0 <= k < rels.drop_last().len() implies !rel_is(#[trigger] rels.drop_last()[k], target, kind) by {
            assert(rels.drop_last()[k] == rels[k]);
        }
        lemma_without_rel_same(rels.drop_last(), target, kind);
        assert(rels.drop_last().push(rels.last()) =~= rels);
    }
}

pub(crate) proof fn lemma_without_rel_removes(rels: Seq<Relationship>, target: u128, kind: RelKind)
    ensures
        !has_rel(without_rel(rels, target, kind), target, kind),
        without_rel(rels, target, kind).len() <= rels.len(),
        has_rel(rels, target, kind) ==> without_rel(rels, target, kind).len() < rels.len(),
    decreases rels.len(),
{
    if rels.len() > 0 {
        lemma_without_rel_removes(rels.drop_last(), target, kind);
        let w = without_rel(rels.drop_last(), target, kind);
        if !rel_is(rels.last(), target, kind) {
            assert forall|k: int| 0 <= k < w.push(rels.last()).len() implies !rel_is(#[trigger] w.push(rels.last())[k], target, kind) by {
                if k < w.len() {
                    assert(w.push(rels.last())[k] == w[k]);
                }
            }
            if has_rel(rels, target, kind) {
                let k = choose|k: int| 0 <= k < rels.len() && rel_is(#[trigger] rels[k], target, kind);
                assert(rels.drop_last()[k] == rels[k]);
            }
        }
    }
}

pub(crate) proof fn lemma_without_kind_removes(rels: Seq<Relationship>, target: u128, kind: RelKind)
    ensures
        !has_rel(without_kind(rels, kind), target, kind),
    decreases rels.len(),
{
    if rels.len() > 0 {
        lemma_without_kind_removes(rels.drop_last(), target, kind);
        let w = without_kind(rels.drop_last(), kind);
        if rels.last().rel_type@ != kind {
            assert forall|k: int| 0 <= k < w.push(rels.last()).len() implies !rel_is(#[trigger] w.push(rels.last())[k], target, kind) by {
                if k < w.len() {
                    assert(w.push(rels.last())[k] == w[k]);
                }
            }
        }
    }
}

/// Whether `rels` holds a relationship to `target` of kind `kind`.
pub(crate) fn find_rel(rels: &Vec<Relationship>, target: u128, kind: &RelationshipType) -> (r: bool)
    ensures
        r == has_rel(rels@, target, kind@),
{
    let mut i: usize = 0;
    while i < rels.len()
        invariant
            i <= rels@.len(),
            forall|k: int| 0 <= k < i ==> !rel_is(#[trigger] rels@[k], target, kind@),
        decreases rels.len() - i,
    {
        if rels[i].target_id == target && rels[i].rel_type.same_as(kind) {
            proof {
                assert(rel_is(rels@[i as int], target, kind@));
            }
            return true;
        }
        i = i + 1;
    }
    false
}

/// Removes from `rels` the relationships to `target` of kind `kind`.
pub(crate) fn retain_without_rel(rels: &mut Vec<Relationship>, target: u128, kind: &RelationshipType)
    ensures
        final(rels)@ == without_rel(old(rels)@, target, kind@),
{
    let ghost orig = old(rels)@;
    let ghost mut k: int = 0;
    let mut i: usize = 0;
    while i < rels.len()
        invariant
            0 <= k <= orig.len(),
            rels@ == without_rel(orig.take(k), target, kind@) + orig.skip(k),
            i == without_rel(orig.take(k), target, kind@).len(),
        decreases orig.len() - k,
    {
        proof {
            assert(orig.take(k + 1).drop_last() =~= orig.take(k));
            assert(rels@[i as int] == orig[k]);
        }
        let ghost before = rels@;
        if rels[i].target_id == target && rels[i].rel_type.same_as(kind) {
            rels.remove(i);
            proof {
                assert(rels@ =~= without_rel(orig.take(k + 1), target, kind@) + orig.skip(k + 1));
            }
        } else {
            i = i + 1;
            proof {
                assert(before =~= without_rel(orig.take(k + 1), target, kind@) + orig.skip(k + 1));
            }
        }
        proof {
            k = k + 1;
        }
    }
    proof {
        if k < orig.len() {
            assert(rels@.len() > i);
        }
        assert(orig.take(orig.len() as int) =~= orig);
        assert(orig.skip(orig.len() as int) =~= Seq::<Relationship>::empty());
        assert(rels@ =~= without_rel(orig, target, kind@));
    }
}

/// Removes from `rels` the relationships of kind `kind`, returning their
/// targets in order.
pub(crate) fn retain_without_kind(rels: &mut Vec<Relationship>, kind: &RelationshipType) -> (targets: Vec<u128>)
    ensures
        final(rels)@ == without_kind(old(rels)@, kind@),
        targets@ == kind_targets(old(rels)@, kind@),
{
    let ghost orig = old(rels)@;
    let ghost mut k: int = 0;
    let mut targets: Vec<u128> = Vec::new();
    let mut i: usize = 0;
    while i < rels.len()
        invariant
            0 <= k <= orig.len(),
            rels@ == without_kind(orig.take(k), kind@) + orig.skip(k),
            i == without_kind(orig.take(k), kind@).len(),
            targets@ == kind_targets(orig.take(k), kind@),
        decreases orig.len() - k,
    {
        proof {
            assert(orig.take(k + 1).drop_last() =~= orig.take(k));
            assert(rels@[i as int] == orig[k]);
        }
        let ghost before = rels@;
        if rels[i].rel_type.same_as(kind) {
            targets.push(rels[i].target_id);
            rels.remove(i);
            proof {
                assert(rels@ =~= without_kind(orig.take(k + 1), kind@) + orig.skip(k + 1));
            }
        } else {
            i = i + 1;
            proof {
                assert(before =~= without_kind(orig.take(k + 1), kind@) + orig.skip(k + 1));
            }
        }
        proof {
            k = k + 1;
        }
    }
    proof {
        if k < orig.len() {
            assert(rels@.len() > i);
        }
        assert(orig.take(orig.len() as int) =~= orig);
        assert(orig.skip(orig.len() as int) =~= Seq::<Relationship>::empty());
        assert(rels@ =~= without_kind(orig, kind@));
    }
    targets
}

/// What adding a relationship does to the requirements `s0`, giving `s1`:
/// the first requirement with id `source` gets a relationship to `target` of
/// kind `kind` at the end; when `inv` holds an inverse kind and the first
/// requirement with id `target` has no relationship back of that kind, it
/// gets one; every other requirement is unchanged.
pub open spec fn added_rel(
    s0: Seq<Requirement>,
    s1: Seq<Requirement>,
    source: u128,
    kind: RelKind,
    target: u128,
    inv: Option<RelKind>,
) -> bool {
    exists|si: int, ti: int|
        #![trigger first_with_id(s0, source, si), first_with_id(s0, target, ti)]
        first_with_id(s0, source, si) && first_with_id(s0, target, ti) && {
            &&& s1.len() == s0.len()
            &&& pushed_rel(s0[si], s1[si], kind, target)
            &&& match inv {
                Some(ik) => if has_rel(s0[ti].relationships@, source, ik) {
                    s1[ti] == s0[ti]
                } else {
                    pushed_rel(s0[ti], s1[ti], ik, source)
                },
                None => s1[ti] == s0[ti],
            }
            &&& forall|k: int| 0 <= k < s0.len() && k != si && k != ti ==> #[trigger] s1[k] == s0[k]
        }
}

/// The inverse kind that a bidirectional operation also touches.
pub open spec fn touched_inverse(kind: RelKind, bidirectional: bool) -> Option<RelKind> {
    if bidirectional {
        rel_kind_inverse(kind)
    } else {
        None
    }
}

/// Whether the checks before adding a relationship pass on `s`: both
/// requirements exist, differ, and the source lacks the relationship.
pub open spec fn can_add_rel(s: Seq<Requirement>, source: u128, kind: RelKind, target: u128) -> bool {
    &&& has_id(s, source)
    &&& has_id(s, target)
    &&& source != target
    &&& forall|si: int| #[trigger] first_with_id(s, source, si) ==> !has_rel(s[si].relationships@, target, kind)
}

impl RequirementsStore {
    /// Adds a relationship of kind `rel_type` from the requirement `source_id`
    /// to the requirement `target_id`. Both must exist and differ, and the
    /// relationship must be new. When `bidirectional` holds and the kind has a
    /// built-in inverse, the target also gets the inverse relationship back to
    /// the source, unless it already has it.
    pub fn add_relationship(
        &mut self,
        source_id: &u128,
        rel_type: RelationshipType,
        target_id: &u128,
        bidirectional: bool,
    ) -> (r: Result<(), StoreError>)
        ensures
            !has_id(old(self).requirements@, *source_id) ==> (r matches Err(StoreError::SourceNotFound(x)) && x
                == *source_id),
            has_id(old(self).requirements@, *source_id) && !has_id(old(self).requirements@, *target_id) ==> (r matches Err(
                StoreError::TargetNotFound(x),
            ) && x == *target_id),
            has_id(old(self).requirements@, *source_id) && has_id(old(self).requirements@, *target_id) && *source_id
                == *target_id ==> r matches Err(StoreError::SelfRelationship),
            has_id(old(self).requirements@, *source_id) && has_id(old(self).requirements@, *target_id) && *source_id
                != *target_id && !can_add_rel(old(self).requirements@, *source_id, rel_type@, *target_id) ==> (r matches Err(
                StoreError::RelationshipExists(t, x),
            ) && t@ == rel_type@ && x == *target_id),
            r is Ok <==> can_add_rel(old(self).requirements@, *source_id, rel_type@, *target_id),
            r is Err ==> *final(self) == *old(self),
            r is Ok ==> added_rel(
                old(self).requirements@,
                final(self).requirements@,
                *source_id,
                rel_type@,
                *target_id,
                touched_inverse(rel_type@, bidirectional),
            ),
            *final(self) == (RequirementsStore { requirements: final(self).requirements, ..*old(self) }),
    {
        let si = match self.index_of_id(*source_id) {
            Some(i) => i,
            None => {
                return Err(StoreError::SourceNotFound(*source_id));
            },
        };
        let ti = match self.index_of_id(*target_id) {
            Some(i) => i,
            None => {
                return Err(StoreError::TargetNotFound(*target_id));
            },
        };
        if *source_id == *target_id {
            return Err(StoreError::SelfRelationship);
        }
        if find_rel(&self.requirements[si].relationships, *target_id, &rel_type) {
            return Err(StoreError::RelationshipExists(rel_type.duplicate(), *target_id));
        }
        proof {
            assert forall|x: int| #[trigger] first_with_id(old(self).requirements@, *source_id, x) implies !has_rel(
                old(self).requirements@[x].relationships@,
                *target_id,
                rel_type@,
            ) by {
                lemma_first_unique(old(self).requirements@, *source_id, x, si as int);
            }
        }
        let ghost s0 = self.requirements@;
        let inverse = rel_type.inverse();
        self.requirements[si].relationships.push(Relationship { rel_type: rel_type, target_id: *target_id });
        proof {
            assert(self.requirements@[si as int].relationships@.drop_last() =~= s0[si as int].relationships@);
        }
        let ghost s_mid = self.requirements@;
        if bidirectional {
            match inverse {
                Some(inverse_type) => {
                    if !find_rel(&self.requirements[ti].relationships, *source_id, &inverse_type) {
                        self.requirements[ti].relationships.push(
                            Relationship { rel_type: inverse_type, target_id: *source_id },
                        );
                        proof {
                            assert(self.requirements@[ti as int].relationships@.drop_last()
                                =~= s0[ti as int].relationships@);
                        }
                    }
                },
                None => {},
            }
        }
        proof {
            assert(first_with_id(s0, *source_id, si as int));
            assert(first_with_id(s0, *target_id, ti as int));
        }
        Ok(())
    }

    /// Removes the relationship of kind `rel_type` from the requirement
    /// `source_id` to `target_id`; it must exist. When `bidirectional` holds
    /// and the kind has a built-in inverse, the inverse relationship from the
    /// target back to the source is removed too, where there is one.
    pub fn remove_relationship(
        &mut self,
        source_id: &u128,
        rel_type: &RelationshipType,
        target_id: &u128,
        bidirectional: bool,
    ) -> (r: Result<(), StoreError>)
        ensures
            !has_id(old(self).requirements@, *source_id) ==> (r matches Err(StoreError::SourceNotFound(x)) && x
                == *source_id),
            forall|si: int| #[trigger]
                first_with_id(old(self).requirements@, *source_id, si) ==> {
                    &&& !has_rel(old(self).requirements@[si].relationships@, *target_id, rel_type@) ==> (r matches Err(
                        StoreError::RelationshipNotFound(t, x),
                    ) && t@ == rel_type@ && x == *target_id)
                    &&& has_rel(old(self).requirements@[si].relationships@, *target_id, rel_type@) ==> r is Ok
                    &&& r is Ok ==> removed_rel(
                        old(self).requirements@,
                        final(self).requirements@,
                        si,
                        *source_id,
                        rel_type@,
                        *target_id,
                        touched_inverse(rel_type@, bidirectional),
                    )
                },
            r is Err ==> *final(self) == *old(self),
            *final(self) == (RequirementsStore { requirements: final(self).requirements, ..*old(self) }),
    {
        let si = match self.index_of_id(*source_id) {
            Some(i) => i,
            None => {
                return Err(StoreError::SourceNotFound(*source_id));
            },
        };
        proof {
            assert forall|x: int| #[trigger] first_with_id(old(self).requirements@, *source_id, x) implies x == si by {
                lemma_first_unique(old(self).requirements@, *source_id, x, si as int);
            }
        }
        if !find_rel(&self.requirements[si].relationships, *target_id, rel_type) {
            return Err(StoreError::RelationshipNotFound(rel_type.duplicate(), *target_id));
        }
        let ghost s0 = self.requirements@;
        retain_without_rel(&mut self.requirements[si].relationships, *target_id, rel_type);
        let ghost s_mid = self.requirements@;
        proof {
            assert forall|k: int| 0 <= k < s0.len() implies (#[trigger] s_mid[k]).id == s0[k].id by {
                if k != si {
                    assert(s_mid[k] == s0[k]);
                }
            }
            lemma_same_ids(s0, s_mid);
        }
        if bidirectional {
            match rel_type.inverse() {
                Some(inverse_type) => {
                    match self.index_of_id(*target_id) {
                        Some(ti) => {
                            proof {
                                assert(first_with_id(s0, *target_id, ti as int));
                            }
                            retain_without_rel(&mut self.requirements[ti].relationships, *source_id, &inverse_type);
                        },
                        None => {
                            proof {
                                assert(!has_id(s0, *target_id));
                            }
                        },
                    }
                },
                None => {},
            }
        }
        Ok(())
    }
}

/// What removing a relationship does to the requirements `s0`, giving `s1`:
/// the source (at `si`) loses its relationships to `target` of kind `kind`;
/// when `inv` holds an inverse kind and some requirement has id `target`, the
/// first one loses its relationships back to `source` of that kind (after
/// the first step, should it be the source itself); all else is unchanged.
pub open spec fn removed_rel(
    s0: Seq<Requirement>,
    s1: Seq<Requirement>,
    si: int,
    source: u128,
    kind: RelKind,
    target: u128,
    inv: Option<RelKind>,
) -> bool {
    &&& s1.len() == s0.len()
    &&& 0 <= si < s0.len()
    &&& forall|k: int|
        0 <= k < s0.len() ==> (#[trigger] s1[k]) == (Requirement { relationships: s1[k].relationships, ..s0[k] })
    &&& forall|k: int|
        0 <= k < s0.len() ==> (#[trigger] s1[k]).relationships@ == {
            let base = if k == si {
                without_rel(s0[k].relationships@, target, kind)
            } else {
                s0[k].relationships@
            };
            match inv {
                Some(ik) => if first_with_id(s0, target, k) {
                    without_rel(base, source, ik)
                } else {
                    base
                },
                None => base,
            }
        }
}


/// Whether `b` equals `a` up to the identity of its relationship vector:
/// same fields, same relationships.
pub open spec fn same_requirement(a: Requirement, b: Requirement) -> bool {
    b == (Requirement { relationships: b.relationships, ..a }) && b.relationships@ == a.relationships@
}

proof fn lemma_without_rel_push_match(rels: Seq<Relationship>, x: Relationship, target: u128, kind: RelKind)
    requires
        rel_is(x, target, kind),
    ensures
        without_rel(rels.push(x), target, kind) == without_rel(rels, target, kind),
{
    assert(rels.push(x).drop_last() =~= rels);
}

/// After a successful addition, the source has the new relationship to the
/// target, and with an inverse kind the target has the relationship back to
/// the source.
pub proof fn lemma_added_relationship_present(
    s0: Seq<Requirement>,
    s1: Seq<Requirement>,
    source: u128,
    kind: RelKind,
    target: u128,
    inv: Option<RelKind>,
)
    requires
        added_rel(s0, s1, source, kind, target, inv),
    ensures
        exists|si: int| first_with_id(s1, source, si) && has_rel(s1[si].relationships@, target, kind),
        inv matches Some(ik) ==> exists|ti: int|
            first_with_id(s1, target, ti) && has_rel(s1[ti].relationships@, source, ik),
{
    let (si, ti) = choose|si: int, ti: int|
        first_with_id(s0, source, si) && first_with_id(s0, target, ti) && {
            &&& s1.len() == s0.len()
            &&& pushed_rel(s0[si], s1[si], kind, target)
            &&& match inv {
                Some(ik) => if has_rel(s0[ti].relationships@, source, ik) {
                    s1[ti] == s0[ti]
                } else {
                    pushed_rel(s0[ti], s1[ti], ik, source)
                },
                None => s1[ti] == s0[ti],
            }
            &&& forall|k: int| 0 <= k < s0.len() && k != si && k != ti ==> #[trigger] s1[k] == s0[k]
        };
    assert forall|k: int| 0 <= k < s0.len() implies (#[trigger] s1[k]).id == s0[k].id by {
        if k != si && k != ti {
            assert(s1[k] == s0[k]);
        }
    }
    lemma_same_ids(s0, s1);
    let last = s1[si].relationships@.len() - 1;
    assert(s1[si].relationships@[last] == s1[si].relationships@.last());
    assert(rel_is(s1[si].relationships@[last], target, kind));
    assert(first_with_id(s1, source, si));
    match inv {
        Some(ik) => {
            assert(first_with_id(s1, target, ti));
            if has_rel(s0[ti].relationships@, source, ik) {
                let w = choose|w: int| 0 <= w < s0[ti].relationships@.len() && rel_is(#[trigger] s0[ti].relationships@[w], source, ik);
                assert(s1[ti].relationships@[w] == s0[ti].relationships@[w]);
                assert(has_rel(s1[ti].relationships@, source, ik));
            } else {
                let tl = s1[ti].relationships@.len() - 1;
                assert(s1[ti].relationships@[tl] == s1[ti].relationships@.last());
                assert(rel_is(s1[ti].relationships@[tl], source, ik));
                assert(has_rel(s1[ti].relationships@, source, ik));
            }
        },
        None => {},
    }
}

/// Removing a relationship right after adding it gives back the requirements
/// as they were, provided that, in the bidirectional case, the target did not
/// already have the inverse relationship.
pub proof fn lemma_remove_undoes_add(
    s0: Seq<Requirement>,
    s1: Seq<Requirement>,
    s2: Seq<Requirement>,
    si: int,
    source: u128,
    kind: RelKind,
    target: u128,
    inv: Option<RelKind>,
)
    requires
        can_add_rel(s0, source, kind, target),
        added_rel(s0, s1, source, kind, target, inv),
        first_with_id(s1, source, si),
        removed_rel(s1, s2, si, source, kind, target, inv),
        inv matches Some(ik) ==> forall|ti: int| #[trigger] first_with_id(s0, target, ti) ==> !has_rel(s0[ti].relationships@, source, ik),
    ensures
        s2.len() == s0.len(),
        forall|k: int| 0 <= k < s0.len() ==> same_requirement(s0[k], #[trigger] s2[k]),
{
    let (a, ti) = choose|a: int, ti: int|
        first_with_id(s0, source, a) && first_with_id(s0, target, ti) && {
            &&& s1.len() == s0.len()
            &&& pushed_rel(s0[a], s1[a], kind, target)
            &&& match inv {
                Some(ik) => if has_rel(s0[ti].relationships@, source, ik) {
                    s1[ti] == s0[ti]
                } else {
                    pushed_rel(s0[ti], s1[ti], ik, source)
                },
                None => s1[ti] == s0[ti],
            }
            &&& forall|k: int| 0 <= k < s0.len() && k != a && k != ti ==> #[trigger] s1[k] == s0[k]
        };
    assert forall|k: int| 0 <= k < s0.len() implies (#[trigger] s1[k]).id == s0[k].id by {
        if k != a && k != ti {
            assert(s1[k] == s0[k]);
        }
    }
    lemma_same_ids(s0, s1);
    lemma_first_unique(s0, source, a, si);
    assert(a != ti);
    assert forall|k: int| 0 <= k < s0.len() implies same_requirement(s0[k], #[trigger] s2[k]) by {
        if k == si {
            assert(!has_rel(s0[si].relationships@, target, kind));
            assert(s1[si].relationships@ =~= s0[si].relationships@.push(s1[si].relationships@.last()));
            lemma_without_rel_push_match(s0[si].relationships@, s1[si].relationships@.last(), target, kind);
            lemma_without_rel_same(s0[si].relationships@, target, kind);
            if inv is Some {
                assert(!first_with_id(s1, target, k)) by {
                    if first_with_id(s1, target, k) {
                        lemma_first_unique(s0, target, k, ti);
                    }
                }
            }
        } else if k == ti {
            match inv {
                Some(ik) => {
                    assert(first_with_id(s1, target, k));
                    assert(!has_rel(s0[ti].relationships@, source, ik));
                    assert(s1[ti].relationships@ =~= s0[ti].relationships@.push(s1[ti].relationships@.last()));
                    lemma_without_rel_push_match(s0[ti].relationships@, s1[ti].relationships@.last(), source, ik);
                    lemma_without_rel_same(s0[ti].relationships@, source, ik);
                },
                None => {},
            }
        } else {
            assert(s1[k] == s0[k]);
            if inv is Some {
                assert(!first_with_id(s1, target, k)) by {
                    if first_with_id(s1, target, k) {
                        lemma_first_unique(s0, target, k, ti);
                    }
                }
            }
        }
    }
}

/// Different counter values give different `SPEC-NNN` identifiers.
pub proof fn lemma_spec_text_injective(m: nat, n: nat)
    requires
        m != n,
    ensures
        spec_text(m) != spec_text(n),
{
    reveal_strlit("SPEC-");
    lemma_padded_decimal_injective(m, n, 3);
    if spec_text(m) == spec_text(n) {
        assert(spec_text(m).skip(5) =~= zero_pad(decimal(m), 3));
        assert(spec_text(n).skip(5) =~= zero_pad(decimal(n), 3));
    }
}

proof fn lemma_count_missing_grows(s: Seq<Requirement>, i: int, j: int)
    requires
        0 <= i < j <= s.len(),
        s[i].spec_id is None,
    ensures
        count_missing(s.take(i)) < count_missing(s.take(j)),
    decreases j - i,
{
    assert(s.take(j).take(i + 1) =~= s.take(i + 1));
    lemma_count_missing_prefix(s.take(j), i + 1);
    assert(s.take(i + 1) =~= s.take(i).push(s[i]));
    lemma_count_missing_push(s.take(i), s[i]);
}

/// The identifier that `peek_next_spec_id` shows is the one that
/// `add_requirement_with_spec_id` gives next to a requirement without
/// identifier, and the identifier shown afterwards is a different one.
pub proof fn lemma_peek_is_next_assigned(
    s0: RequirementsStore,
    s1: RequirementsStore,
    req: Requirement,
    peeked: Seq<char>,
)
    requires
        peeked == spec_text(s0.next_spec_number as nat),
        req.spec_id is None,
        s1.requirements@.len() == s0.requirements@.len() + 1,
        opt_is(s1.requirements@.last().spec_id, spec_text(s0.next_spec_number as nat)),
        s1.next_spec_number == s0.next_spec_number + 1,
    ensures
        s1.requirements@.last().spec_id is Some,
        s1.requirements@.last().spec_id->0@ == peeked,
        spec_text(s1.next_spec_number as nat) != peeked,
{
    lemma_spec_text_injective(s1.next_spec_number as nat, s0.next_spec_number as nat);
}

/// Assigning identifiers keeps them unique: when the identifiers present
/// are unique and none of them is `SPEC-NNN` for a number the counter has not
/// yet given, every requirement ends with an identifier of its own.
pub proof fn lemma_assigned_ids_unique(s0: Seq<Requirement>, s1: Seq<Requirement>, next: nat)
    requires
        assigned_spec_ids(s0, s1, next),
        spec_ids_unique(s0),
        forall|i: int, k: nat|
            0 <= i < s0.len() && (#[trigger] s0[i]).spec_id is Some && k >= next ==> s0[i].spec_id->0@
                != #[trigger] spec_text(k),
    ensures
        spec_ids_unique(s1),
{
    assert forall|i: int, j: int| !#[trigger] duplicate_at(s1, i, j) by {
        if duplicate_at(s1, i, j) {
            if s0[i].spec_id is Some && s0[j].spec_id is Some {
                assert(duplicate_at(s0, i, j));
            } else if s0[i].spec_id is Some {
                let k = next + count_missing(s0.take(j));
                assert(s0[i].spec_id->0@ != spec_text(k));
            } else if s0[j].spec_id is Some {
                let k = next + count_missing(s0.take(i));
                assert(s0[j].spec_id->0@ != spec_text(k));
            } else {
                lemma_count_missing_grows(s0, i, j);
                lemma_spec_text_injective(next + count_missing(s0.take(i)), next + count_missing(s0.take(j)));
            }
        }
    }
}

} // verus!
