//! Relationship definitions of a store, checking proposed relationships
//! against them, and replacing relationships.
use vstd::prelude::*;
use crate::clock::{uuid_string, uuid_text};
use crate::graph::closes_cycle;
use crate::model::{
    rel_kind_from_text, rel_kind_inverse, rel_kind_name, rel_kind_text, req_type_text, type_list_allows, Cardinality,
    RelKind, RelationshipDefinition, RelationshipType, RelationshipValidation,
};
use crate::requirement::{Relationship, Requirement};
use crate::store::{
    added_rel, can_add_rel, first_with_id, has_id, has_rel, kind_targets, lemma_first_unique, rel_is, retain_without_kind,
    retain_without_rel, touched_inverse, without_kind, without_rel, RequirementsStore, StoreError,
};
use crate::text::{eq_ignore_ascii_case, lowercase, opt_is, opt_view, owned, str_eq, to_lower, views};

verus! {

/// What `format!("{:?}", v)` gives for a list of strings.
pub uninterp spec fn debug_list(v: Seq<Seq<char>>) -> Seq<char>;

/// Calls `format!("{:?}", v)` on a list of strings (std's `Debug` for
/// `Vec<String>`); the result is the named debug text of the list.
#[verifier::external_body]
fn debug_strings(v: &Vec<String>) -> (r: String)
    ensures
        r@ == debug_list(views(v@)),
{
    format!("{:?}", v)
}

/// The first definition in `defs` named `n`.
pub open spec fn find_def(defs: Seq<RelationshipDefinition>, n: Seq<char>) -> Option<RelationshipDefinition>
    decreases defs.len(),
{
    if defs.len() == 0 {
        None
    } else if defs[0].name@ == n {
        Some(defs[0])
    } else {
        find_def(defs.drop_first(), n)
    }
}

/// Whether some definition in `defs` is named `n`.
pub open spec fn has_def(defs: Seq<RelationshipDefinition>, n: Seq<char>) -> bool {
    exists|i: int| 0 <= i < defs.len() && (#[trigger] defs[i]).name@ == n
}

pub(crate) proof fn lemma_find_def(defs: Seq<RelationshipDefinition>, n: Seq<char>)
    ensures
        find_def(defs, n) is Some <==> has_def(defs, n),
        find_def(defs, n) matches Some(d) ==> exists|i: int|
            0 <= i < defs.len() && defs[i] == d && d.name@ == n && forall|j: int|
                0 <= j < i ==> (#[trigger] defs[j]).name@ != n,
    decreases defs.len(),
{
    if defs.len() > 0 {
        lemma_find_def(defs.drop_first(), n);
        if defs[0].name@ != n {
            if has_def(defs, n) {
                let i = choose|i: int| 0 <= i < defs.len() && (#[trigger] defs[i]).name@ == n;
                assert(defs.drop_first()[i - 1] == defs[i]);
            }
            if has_def(defs.drop_first(), n) {
                let i = choose|i: int| 0 <= i < defs.drop_first().len() && (#[trigger] defs.drop_first()[i]).name@ == n;
                assert(defs[i + 1] == defs.drop_first()[i]);
            }
            if find_def(defs, n) is Some {
                let d = find_def(defs, n)->0;
                let i = choose|i: int|
                    0 <= i < defs.drop_first().len() && defs.drop_first()[i] == d && d.name@ == n && forall|j: int|
                        0 <= j < i ==> (#[trigger] defs.drop_first()[j]).name@ != n;
                assert(defs[i + 1] == d);
                assert forall|j: int| 0 <= j < i + 1 implies (#[trigger] defs[j]).name@ != n by {
                    if j > 0 {
                        assert(defs[j] == defs.drop_first()[j - 1]);
                    }
                }
            }
        } else {
            assert(defs[0].name@ == n);
        }
    }
}

/// Whether `s` holds a relationship of kind `kind`.
pub open spec fn has_kind(rels: Seq<Relationship>, kind: RelKind) -> bool {
    exists|j: int| 0 <= j < rels.len() && (#[trigger] rels[j]).rel_type@ == kind
}

/// Whether a requirement other than `source` has a relationship of kind
/// `kind` to `target`.
pub open spec fn has_incoming(s: Seq<Requirement>, source: u128, target: u128, kind: RelKind) -> bool {
    exists|i: int| 0 <= i < s.len() && (#[trigger] s[i]).id != source && has_rel(s[i].relationships@, target, kind)
}

/// The position of the first requirement with id `id` (meaningful when there
/// is one).
pub open spec fn first_index(s: Seq<Requirement>, id: u128) -> int {
    choose|i: int| first_with_id(s, id, i)
}

/// The error for a relationship that exists already.
pub open spec fn exists_message(kind: RelKind, target: u128) -> Seq<char> {
    "Relationship '"@ + rel_kind_text(kind) + "' to "@ + uuid_text(target) + " already exists"@
}

/// The warning for a relationship kind with no definition.
pub open spec fn no_definition_message(kind: RelKind) -> Seq<char> {
    "No definition found for relationship type '"@ + rel_kind_name(kind) + "'. Consider creating one."@
}

/// The error for a source type the definition does not allow.
pub open spec fn source_type_message(t: Seq<char>, d: RelationshipDefinition) -> Seq<char> {
    "Source requirement type '"@ + t + "' is not allowed for '"@ + d.display_name@ + "' relationships. Allowed: "@
        + debug_list(views(d.source_types@))
}

/// The error for a target type the definition does not allow.
pub open spec fn target_type_message(t: Seq<char>, d: RelationshipDefinition) -> Seq<char> {
    "Target requirement type '"@ + t + "' is not allowed for '"@ + d.display_name@ + "' relationships. Allowed: "@
        + debug_list(views(d.target_types@))
}

/// The warning for a second relationship from a source under 1:1.
pub open spec fn one_to_one_source_message(d: RelationshipDefinition) -> Seq<char> {
    "Source already has a '"@ + d.display_name@ + "' relationship (cardinality is 1:1)"@
}

/// The warning for a second relationship to a target under 1:1.
pub open spec fn one_to_one_target_message(d: RelationshipDefinition) -> Seq<char> {
    "Target already has an incoming '"@ + d.display_name@ + "' relationship (cardinality is 1:1)"@
}

/// The warning for a second relationship from a source under N:1.
pub open spec fn many_to_one_message(d: RelationshipDefinition) -> Seq<char> {
    "Source already has a '"@ + d.display_name@ + "' relationship (cardinality is N:1, only one allowed per source)"@
}

/// The warning for a second relationship to a target under 1:N.
pub open spec fn one_to_many_message(d: RelationshipDefinition) -> Seq<char> {
    "Target already has an incoming '"@ + d.display_name@ + "' relationship (cardinality is 1:N)"@
}

/// The error for a relationship that would close a cycle.
pub open spec fn cycle_message() -> Seq<char> {
    "This relationship would create a cycle in the hierarchy"@
}

/// The cardinality warnings for a relationship of kind `kind` from the source
/// (at `si`) to `target`, under definition `d`.
pub open spec fn cardinality_warnings(
    s: Seq<Requirement>,
    si: int,
    source: u128,
    target: u128,
    kind: RelKind,
    d: RelationshipDefinition,
) -> Seq<Seq<char>> {
    let out = has_kind(s[si].relationships@, kind);
    let inc = has_incoming(s, source, target, kind);
    match d.cardinality {
        Cardinality::OneToOne => (if out {
            seq![one_to_one_source_message(d)]
        } else {
            Seq::empty()
        }) + (if inc {
            seq![one_to_one_target_message(d)]
        } else {
            Seq::empty()
        }),
        Cardinality::ManyToOne => if out {
            seq![many_to_one_message(d)]
        } else {
            Seq::empty()
        },
        Cardinality::OneToMany => if inc {
            seq![one_to_many_message(d)]
        } else {
            Seq::empty()
        },
        Cardinality::ManyToMany => Seq::empty(),
    }
}

/// The outcome of checking a relationship of kind `kind` from `source` to
/// `target` against the requirements `s` and the definitions `defs`: whether
/// it is valid, its errors and its warnings.
pub open spec fn validation_of(
    s: Seq<Requirement>,
    defs: Seq<RelationshipDefinition>,
    source: u128,
    kind: RelKind,
    target: u128,
) -> (bool, Seq<Seq<char>>, Seq<Seq<char>>) {
    if source == target {
        (false, seq!["Cannot create relationship to self"@], Seq::empty())
    } else if !has_id(s, source) {
        (false, seq!["Source requirement not found"@], Seq::empty())
    } else if !has_id(s, target) {
        (false, seq!["Target requirement not found"@], Seq::empty())
    } else {
        let si = first_index(s, source);
        let ti = first_index(s, target);
        if has_rel(s[si].relationships@, target, kind) {
            (false, seq![exists_message(kind, target)], Seq::empty())
        } else {
            match find_def(defs, lowercase(rel_kind_name(kind))) {
                None => (true, Seq::empty(), seq![no_definition_message(kind)]),
                Some(d) => {
                    let e1 = if type_list_allows(d.source_types@, s[si].req_type) {
                        Seq::empty()
                    } else {
                        seq![source_type_message(req_type_text(s[si].req_type), d)]
                    };
                    let e2 = if type_list_allows(d.target_types@, s[ti].req_type) {
                        Seq::empty()
                    } else {
                        seq![target_type_message(req_type_text(s[ti].req_type), d)]
                    };
                    let e3 = if closes_cycle(s, source, target, kind) {
                        seq![cycle_message()]
                    } else {
                        Seq::empty()
                    };
                    let errors = e1 + e2 + e3;
                    (errors.len() == 0, errors, cardinality_warnings(s, si, source, target, kind, d))
                },
            }
        }
    }
}

fn concat3(a: &str, b: &str, c: &str) -> (r: String)
    ensures
        r@ == a@ + b@ + c@,
{
    let mut r = owned(a);
    r.append(b);
    r.append(c);
    r
}

fn concat5(a: &str, b: &str, c: &str, d: &str, e: &str) -> (r: String)
    ensures
        r@ == a@ + b@ + c@ + d@ + e@,
{
    let mut r = owned(a);
    r.append(b);
    r.append(c);
    r.append(d);
    r.append(e);
    r
}

fn find_kind(rels: &Vec<Relationship>, kind: &RelationshipType) -> (r: bool)
    ensures
        r == has_kind(rels@, kind@),
{
    let mut j: usize = 0;
    while j < rels.len()
        invariant
            j <= rels@.len(),
            forall|x: int| 0 <= x < j ==> (#[trigger] rels@[x]).rel_type@ != kind@,
        decreases rels.len() - j,
    {
        if rels[j].rel_type.same_as(kind) {
            return true;
        }
        j = j + 1;
    }
    false
}

proof fn lemma_first_index(s: Seq<Requirement>, id: u128, i: int)
    requires
        first_with_id(s, id, i),
    ensures
        first_index(s, id) == i,
{
    let j = first_index(s, id);
    lemma_first_unique(s, id, i, j);
}

/// A target whose type the kind's definition does not allow is refused:
/// when the source and the target exist and differ, the source has no such
/// relationship yet, and the definition of the kind lists target types none
/// of which names the target's type (ignoring ASCII case), the proposal is
/// not valid and its errors include the target-type error, which names the
/// target's type, the definition and its allowed types.
pub proof fn lemma_target_type_refused(
    s: Seq<Requirement>,
    defs: Seq<RelationshipDefinition>,
    source: u128,
    kind: RelKind,
    target: u128,
    si: int,
    ti: int,
    d: RelationshipDefinition,
)
    requires
        source != target,
        first_with_id(s, source, si),
        first_with_id(s, target, ti),
        !has_rel(s[si].relationships@, target, kind),
        find_def(defs, lowercase(rel_kind_name(kind))) == Some(d),
        d.target_types@.len() > 0,
        forall|k: int|
            0 <= k < d.target_types@.len() ==> !eq_ignore_ascii_case(
                #[trigger] d.target_types@[k]@,
                req_type_text(s[ti].req_type),
            ),
    ensures
        !validation_of(s, defs, source, kind, target).0,
        validation_of(s, defs, source, kind, target).1.contains(
            "Target requirement type '"@ + req_type_text(s[ti].req_type) + "' is not allowed for '"@
                + d.display_name@ + "' relationships. Allowed: "@ + debug_list(views(d.target_types@)),
        ),
{
    lemma_first_index(s, source, si);
    lemma_first_index(s, target, ti);
    assert(s[si].id == source && s[ti].id == target);
    assert(!type_list_allows(d.target_types@, s[ti].req_type));
    let v = validation_of(s, defs, source, kind, target);
    let e1 = if type_list_allows(d.source_types@, s[si].req_type) {
        Seq::<Seq<char>>::empty()
    } else {
        seq![source_type_message(req_type_text(s[si].req_type), d)]
    };
    let m = target_type_message(req_type_text(s[ti].req_type), d);
    let e3 = if closes_cycle(s, source, target, kind) {
        seq![cycle_message()]
    } else {
        Seq::<Seq<char>>::empty()
    };
    assert(v.1 == e1 + seq![m] + e3);
    assert((e1 + seq![m] + e3)[e1.len() as int] == m);
}

/// A source whose type the kind's definition does not allow is refused, in
/// the same way: the proposal is not valid and its errors include the
/// source-type error.
pub proof fn lemma_source_type_refused(
    s: Seq<Requirement>,
    defs: Seq<RelationshipDefinition>,
    source: u128,
    kind: RelKind,
    target: u128,
    si: int,
    ti: int,
    d: RelationshipDefinition,
)
    requires
        source != target,
        first_with_id(s, source, si),
        first_with_id(s, target, ti),
        !has_rel(s[si].relationships@, target, kind),
        find_def(defs, lowercase(rel_kind_name(kind))) == Some(d),
        d.source_types@.len() > 0,
        forall|k: int|
            0 <= k < d.source_types@.len() ==> !eq_ignore_ascii_case(
                #[trigger] d.source_types@[k]@,
                req_type_text(s[si].req_type),
            ),
    ensures
        !validation_of(s, defs, source, kind, target).0,
        validation_of(s, defs, source, kind, target).1.contains(
            "Source requirement type '"@ + req_type_text(s[si].req_type) + "' is not allowed for '"@
                + d.display_name@ + "' relationships. Allowed: "@ + debug_list(views(d.source_types@)),
        ),
{
    lemma_first_index(s, source, si);
    lemma_first_index(s, target, ti);
    assert(s[si].id == source && s[ti].id == target);
    assert(!type_list_allows(d.source_types@, s[si].req_type));
    let v = validation_of(s, defs, source, kind, target);
    assert(v.1[0] == source_type_message(req_type_text(s[si].req_type), d));
}

impl RequirementsStore {
    /// The first relationship definition named `name` in lowercase.
    pub fn get_relationship_definition(&self, name: &str) -> (r: Option<&RelationshipDefinition>)
        ensures
            match r {
                Some(d) => find_def(self.relationship_definitions@, lowercase(name@)) == Some(*d),
                None => find_def(self.relationship_definitions@, lowercase(name@)) is None,
            },
    {
        let lower = to_lower(name);
        let defs = &self.relationship_definitions;
        let mut i: usize = 0;
        proof {
            assert(defs@.skip(0) =~= defs@);
        }
        while i < defs.len()
            invariant
                i <= defs@.len(),
                defs@ == self.relationship_definitions@,
                lower@ == lowercase(name@),
                find_def(defs@, lower@) == find_def(defs@.skip(i as int), lower@),
            decreases defs.len() - i,
        {
            proof {
                assert(defs@.skip(i as int).drop_first() =~= defs@.skip(i as int + 1));
                assert(defs@.skip(i as int)[0] == defs@[i as int]);
            }
            if defs[i].name == lower {
                proof {
                    assert(defs@.skip(i as int)[0].name@ == lower@);
                    assert(find_def(defs@.skip(i as int), lower@) == Some(defs@.skip(i as int)[0]));
                }
                return Some(&defs[i]);
            }
            i = i + 1;
        }
        None
    }

    /// The definition of a relationship kind: the one named like the kind.
    pub fn get_definition_for_type(&self, rel_type: &RelationshipType) -> (r: Option<&RelationshipDefinition>)
        ensures
            match r {
                Some(d) => find_def(self.relationship_definitions@, lowercase(rel_kind_name(rel_type@))) == Some(*d),
                None => find_def(self.relationship_definitions@, lowercase(rel_kind_name(rel_type@))) is None,
            },
    {
        let n = rel_type.name();
        self.get_relationship_definition(n.as_str())
    }

    /// All relationship definitions.
    pub fn get_relationship_definitions(&self) -> (r: &[RelationshipDefinition])
        ensures
            r@ == self.relationship_definitions@,
    {
        self.relationship_definitions.as_slice()
    }

    /// The relationships of the first requirement with identifier `id`, as
    /// (kind, target) pairs; none when there is no such requirement.
    pub fn get_relationships(&self, id: &u128) -> (r: Vec<(RelationshipType, u128)>)
        ensures
            !has_id(self.requirements@, *id) ==> r@.len() == 0,
            forall|i: int| #[trigger] first_with_id(self.requirements@, *id, i) ==> {
                let rels = self.requirements@[i].relationships@;
                &&& r@.len() == rels.len()
                &&& forall|j: int| 0 <= j < rels.len() ==> (#[trigger] r@[j]).0@ == rels[j].rel_type@ && r@[j].1 == rels[j].target_id
            },
    {
        let mut out: Vec<(RelationshipType, u128)> = Vec::new();
        match self.index_of_id(*id) {
            Some(i) => {
                let rels = &self.requirements[i].relationships;
                let mut j: usize = 0;
                while j < rels.len()
                    invariant
                        j <= rels@.len(),
                        out@.len() == j,
                        forall|x: int| 0 <= x < j ==> (#[trigger] out@[x]).0@ == rels@[x].rel_type@ && out@[x].1 == rels@[x].target_id,
                    decreases rels.len() - j,
                {
                    out.push((rels[j].rel_type.duplicate(), rels[j].target_id));
                    j = j + 1;
                }
                proof {
                    assert forall|x: int| #[trigger] first_with_id(self.requirements@, *id, x) implies x == i by {
                        lemma_first_unique(self.requirements@, *id, x, i as int);
                    }
                }
            },
            None => {},
        }
        out
    }

    /// The targets of the relationships of kind `rel_type` of the first
    /// requirement with identifier `id`, in order.
    pub fn get_relationships_by_type(&self, id: &u128, rel_type: &RelationshipType) -> (r: Vec<u128>)
        ensures
            !has_id(self.requirements@, *id) ==> r@.len() == 0,
            forall|i: int| #[trigger] first_with_id(self.requirements@, *id, i) ==> r@ == kind_targets(
                self.requirements@[i].relationships@,
                rel_type@,
            ),
    {
        let mut out: Vec<u128> = Vec::new();
        match self.index_of_id(*id) {
            Some(i) => {
                let rels = &self.requirements[i].relationships;
                let mut j: usize = 0;
                while j < rels.len()
                    invariant
                        j <= rels@.len(),
                        out@ == kind_targets(rels@.take(j as int), rel_type@),
                    decreases rels.len() - j,
                {
                    proof {
                        assert(rels@.take(j as int + 1).drop_last() =~= rels@.take(j as int));
                    }
                    if rels[j].rel_type.same_as(rel_type) {
                        out.push(rels[j].target_id);
                    }
                    j = j + 1;
                }
                proof {
                    assert(rels@.take(rels@.len() as int) =~= rels@);
                    assert forall|x: int| #[trigger] first_with_id(self.requirements@, *id, x) implies x == i by {
                        lemma_first_unique(self.requirements@, *id, x, i as int);
                    }
                }
            },
            None => {},
        }
        out
    }

    /// The inverse of a relationship kind: the built-in one; else the inverse
    /// named by its definition; else the kind itself when its definition is
    /// symmetric.
    pub fn get_inverse_type(&self, rel_type: &RelationshipType) -> (r: Option<RelationshipType>)
        ensures
            rel_kind_inverse(rel_type@) is Some ==> opt_kind_of(r) == rel_kind_inverse(rel_type@),
            rel_kind_inverse(rel_type@) is None ==> opt_kind_of(r) == match find_def(
                self.relationship_definitions@,
                lowercase(rel_kind_name(rel_type@)),
            ) {
                Some(d) => match d.inverse {
                    Some(n) => Some(rel_kind_from_text(n@)),
                    None => if d.symmetric {
                        Some(rel_type@)
                    } else {
                        None
                    },
                },
                None => None,
            },
    {
        match rel_type.inverse() {
            Some(i) => {
                return Some(i);
            },
            None => {},
        }
        match self.get_definition_for_type(rel_type) {
            Some(def) => {
                match &def.inverse {
                    Some(name) => Some(RelationshipType::from_str(name.as_str())),
                    None => {
                        if def.symmetric {
                            Some(rel_type.duplicate())
                        } else {
                            None
                        }
                    },
                }
            },
            None => None,
        }
    }

    fn has_incoming_rel(&self, source_id: u128, target_id: u128, rel_type: &RelationshipType) -> (r: bool)
        ensures
            r == has_incoming(self.requirements@, source_id, target_id, rel_type@),
    {
        let mut i: usize = 0;
        while i < self.requirements.len()
            invariant
                i <= self.requirements@.len(),
                forall|k: int|
                    0 <= k < i ==> !((#[trigger] self.requirements@[k]).id != source_id && has_rel(
                        self.requirements@[k].relationships@,
                        target_id,
                        rel_type@,
                    )),
            decreases self.requirements.len() - i,
        {
            if self.requirements[i].id != source_id && crate::store::find_rel(
                &self.requirements[i].relationships,
                target_id,
                rel_type,
            ) {
                return true;
            }
            i = i + 1;
        }
        false
    }

    /// Checks a proposed relationship of kind `rel_type` from `source_id` to
    /// `target_id`: both must exist and differ, and the relationship must be
    /// new; against the kind's definition the source and target types must be
    /// allowed and the relationship must not close a parent or child cycle;
    /// cardinality conflicts and a missing definition only give warnings.
    pub fn validate_relationship(&self, source_id: &u128, rel_type: &RelationshipType, target_id: &u128) -> (r:
        RelationshipValidation)
        ensures
            (r.valid, views(r.errors@), views(r.warnings@)) == validation_of(
                self.requirements@,
                self.relationship_definitions@,
                *source_id,
                rel_type@,
                *target_id,
            ),
    {
        let ghost s = self.requirements@;
        if *source_id == *target_id {
            return RelationshipValidation::error("Cannot create relationship to self");
        }
        let si = match self.index_of_id(*source_id) {
            Some(i) => i,
            None => {
                return RelationshipValidation::error("Source requirement not found");
            },
        };
        let ti = match self.index_of_id(*target_id) {
            Some(i) => i,
            None => {
                return RelationshipValidation::error("Target requirement not found");
            },
        };
        proof {
            lemma_first_index(s, *source_id, si as int);
            lemma_first_index(s, *target_id, ti as int);
        }
        let source = &self.requirements[si];
        let target = &self.requirements[ti];
        if crate::store::find_rel(&source.relationships, *target_id, rel_type) {
            let k = rel_type.display_text();
            let u = uuid_string(*target_id);
            let msg = concat5("Relationship '", k.as_str(), "' to ", u.as_str(), " already exists");
            return RelationshipValidation::error(msg.as_str());
        }
        let mut validation = RelationshipValidation::ok();
        let definition = match self.get_definition_for_type(rel_type) {
            Some(d) => d,
            None => {
                let n = rel_type.name();
                let msg = concat3("No definition found for relationship type '", n.as_str(), "'. Consider creating one.");
                validation.add_warning(msg.as_str());
                proof {
                    assert(views(validation.warnings@) =~= seq![no_definition_message(rel_type@)]);
                    assert(views(validation.errors@) =~= Seq::<Seq<char>>::empty());
                }
                return validation;
            },
        };
        let ghost d = *definition;
        if !definition.allows_source_type(&source.req_type) {
            let t = source.req_type.display_text();
            let allowed = debug_strings(&definition.source_types);
            let msg = concat5(
                "Source requirement type '",
                t.as_str(),
                "' is not allowed for '",
                definition.display_name.as_str(),
                "' relationships. Allowed: ",
            );
            let mut msg = msg;
            msg.append(allowed.as_str());
            validation.add_error(msg.as_str());
        }
        let ghost e1 = views(validation.errors@);
        if !definition.allows_target_type(&target.req_type) {
            let t = target.req_type.display_text();
            let allowed = debug_strings(&definition.target_types);
            let msg = concat5(
                "Target requirement type '",
                t.as_str(),
                "' is not allowed for '",
                definition.display_name.as_str(),
                "' relationships. Allowed: ",
            );
            let mut msg = msg;
            msg.append(allowed.as_str());
            validation.add_error(msg.as_str());
        }
        let ghost e2 = views(validation.errors@);
        match definition.cardinality {
            Cardinality::OneToOne => {
                if find_kind(&source.relationships, rel_type) {
                    let msg = concat3(
                        "Source already has a '",
                        definition.display_name.as_str(),
                        "' relationship (cardinality is 1:1)",
                    );
                    validation.add_warning(msg.as_str());
                }
                if self.has_incoming_rel(*source_id, *target_id, rel_type) {
                    let msg = concat3(
                        "Target already has an incoming '",
                        definition.display_name.as_str(),
                        "' relationship (cardinality is 1:1)",
                    );
                    validation.add_warning(msg.as_str());
                }
            },
            Cardinality::ManyToOne => {
                if find_kind(&source.relationships, rel_type) {
                    let msg = concat3(
                        "Source already has a '",
                        definition.display_name.as_str(),
                        "' relationship (cardinality is N:1, only one allowed per source)",
                    );
                    validation.add_warning(msg.as_str());
                }
            },
            Cardinality::OneToMany => {
                if self.has_incoming_rel(*source_id, *target_id, rel_type) {
                    let msg = concat3(
                        "Target already has an incoming '",
                        definition.display_name.as_str(),
                        "' relationship (cardinality is 1:N)",
                    );
                    validation.add_warning(msg.as_str());
                }
            },
            Cardinality::ManyToMany => {},
        }
        let name = rel_type.name();
        if str_eq(name.as_str(), "parent") || str_eq(name.as_str(), "child") {
            if self.would_create_cycle(source_id, target_id, rel_type) {
                validation.add_error("This relationship would create a cycle in the hierarchy");
            }
        } else {
            proof {
                assert(!closes_cycle(s, *source_id, *target_id, rel_type@));
            }
        }
        proof {
            let e3 = if closes_cycle(s, *source_id, *target_id, rel_type@) {
                seq![cycle_message()]
            } else {
                Seq::<Seq<char>>::empty()
            };
            let ee1 = if type_list_allows(d.source_types@, s[si as int].req_type) {
                Seq::<Seq<char>>::empty()
            } else {
                seq![source_type_message(req_type_text(s[si as int].req_type), d)]
            };
            let ee2 = if type_list_allows(d.target_types@, s[ti as int].req_type) {
                Seq::<Seq<char>>::empty()
            } else {
                seq![target_type_message(req_type_text(s[ti as int].req_type), d)]
            };
            assert(e1 =~= ee1);
            assert(e2 =~= ee1 + ee2);
            assert(views(validation.errors@) =~= ee1 + ee2 + e3);
            assert(views(validation.warnings@) =~= cardinality_warnings(s, si as int, *source_id, *target_id, rel_type@, d));
        }
        validation
    }
}


/// The relationships of requirement `k` after the relationships of kind
/// `kind` of the source (at `si`) are cleared: the source loses them all, and
/// with an inverse kind the first requirement with each old target's id loses
/// its relationships of that kind back to the source.
pub open spec fn cleared_rels(
    s0: Seq<Requirement>,
    si: int,
    k: int,
    source: u128,
    kind: RelKind,
    inv: Option<RelKind>,
) -> Seq<Relationship> {
    let base = if k == si {
        without_kind(s0[k].relationships@, kind)
    } else {
        s0[k].relationships@
    };
    match inv {
        Some(ik) => if kind_targets(s0[si].relationships@, kind).contains(s0[k].id) && first_with_id(s0, s0[k].id, k) {
            without_rel(base, source, ik)
        } else {
            base
        },
        None => base,
    }
}

/// Whether `mid` is `s0` after clearing, as `cleared_rels` says.
pub open spec fn cleared(s0: Seq<Requirement>, mid: Seq<Requirement>, si: int, source: u128, kind: RelKind, inv: Option<RelKind>) -> bool {
    &&& mid.len() == s0.len()
    &&& forall|k: int|
        0 <= k < s0.len() ==> (#[trigger] mid[k]) == (Requirement { relationships: mid[k].relationships, ..s0[k] })
            && mid[k].relationships@ == cleared_rels(s0, si, k, source, kind, inv)
}

proof fn lemma_without_rel_idem(r: Seq<Relationship>, t: u128, k: RelKind)
    ensures
        without_rel(without_rel(r, t, k), t, k) == without_rel(r, t, k),
{
    crate::store::lemma_without_rel_removes(r, t, k);
    crate::store::lemma_without_rel_same(without_rel(r, t, k), t, k);
}

proof fn lemma_without_rel_keeps_absent(r: Seq<Relationship>, a: u128, b: RelKind, t: u128, k: RelKind)
    requires
        !has_rel(r, a, b),
    ensures
        !has_rel(without_rel(r, t, k), a, b),
    decreases r.len(),
{
    if r.len() > 0 {
        assert forall|j: int| 0 <= j < r.drop_last().len() implies !rel_is(#[trigger] r.drop_last()[j], a, b) by {
            assert(r.drop_last()[j] == r[j]);
        }
        lemma_without_rel_keeps_absent(r.drop_last(), a, b, t, k);
        let w = without_rel(r.drop_last(), t, k);
        if !rel_is(r.last(), t, k) {
            assert(!rel_is(r[r.len() - 1], a, b));
            assert forall|j: int| 0 <= j < w.push(r.last()).len() implies !rel_is(#[trigger] w.push(r.last())[j], a, b) by {
                if j < w.len() {
                    assert(w.push(r.last())[j] == w[j]);
                }
            }
        }
    }
}

impl RequirementsStore {
    /// Replaces the relationships of kind `rel_type` of the requirement
    /// `source_id` by one to `target_id`: both must exist and differ; the
    /// source loses all its relationships of that kind (and, when
    /// `bidirectional` holds and the kind has a built-in inverse, the old
    /// targets lose their inverse relationships to the source), then the
    /// relationship is added as `add_relationship` does.
    pub fn set_relationship(
        &mut self,
        source_id: &u128,
        rel_type: RelationshipType,
        target_id: &u128,
        bidirectional: bool,
    ) -> (r: Result<(), StoreError>)
        ensures
            !has_id(old(self).requirements@, *source_id) ==> (r matches Err(StoreError::SourceNotFound(x)) && x
                == *source_id),
            has_id(old(self).requirements@, *source_id) && !has_id(old(self).requirements@, *target_id) ==> (r matches Err(
                StoreError::TargetNotFound(x),
            ) && x == *target_id),
            has_id(old(self).requirements@, *source_id) && has_id(old(self).requirements@, *target_id) && *source_id
                == *target_id ==> r matches Err(StoreError::SelfRelationship),
            r is Ok <==> (has_id(old(self).requirements@, *source_id) && has_id(old(self).requirements@, *target_id)
                && *source_id != *target_id),
            r is Err ==> *final(self) == *old(self),
            r is Ok ==> exists|mid: Seq<Requirement>|
                cleared(
                    old(self).requirements@,
                    mid,
                    first_index(old(self).requirements@, *source_id),
                    *source_id,
                    rel_type@,
                    touched_inverse(rel_type@, bidirectional),
                ) && added_rel(
                    mid,
                    final(self).requirements@,
                    *source_id,
                    rel_type@,
                    *target_id,
                    touched_inverse(rel_type@, bidirectional),
                ),
            *final(self) == (RequirementsStore { requirements: final(self).requirements, ..*old(self) }),
    {
        let si = match self.index_of_id(*source_id) {
            Some(i) => i,
            None => {
                return Err(StoreError::SourceNotFound(*source_id));
            },
        };
        let ti = match self.index_of_id(*target_id) {
            Some(i) => i,
            None => {
                return Err(StoreError::TargetNotFound(*target_id));
            },
        };
        if *source_id == *target_id {
            return Err(StoreError::SelfRelationship);
        }
        let ghost s0 = self.requirements@;
        let ghost inv = touched_inverse(rel_type@, bidirectional);
        proof {
            lemma_first_index(s0, *source_id, si as int);
        }
        let old_targets = retain_without_kind(&mut self.requirements[si].relationships, &rel_type);
        proof {
            assert forall|k: int| 0 <= k < s0.len() implies (#[trigger] self.requirements@[k]).id == s0[k].id by {
                if k != si {
                    assert(self.requirements@[k] == s0[k]);
                }
            }
            crate::store::lemma_same_ids(s0, self.requirements@);
        }
        let inverse = if bidirectional { rel_type.inverse() } else { None };
        match inverse {
            Some(inverse_type) => {
                let mut j: usize = 0;
                while j < old_targets.len()
                    invariant
                        j <= old_targets@.len(),
                        old_targets@ == kind_targets(s0[si as int].relationships@, rel_type@),
                        inv == Some(inverse_type@),
                        0 <= si < s0.len(),
                        self.requirements@.len() == s0.len(),
                        forall|id: u128, x: int| #[trigger] first_with_id(self.requirements@, id, x) <==> first_with_id(s0, id, x),
                        forall|k: int|
                            0 <= k < s0.len() ==> (#[trigger] self.requirements@[k]) == (Requirement {
                                relationships: self.requirements@[k].relationships,
                                ..s0[k]
                            }) && self.requirements@[k].relationships@ == {
                                let base = if k == si {
                                    without_kind(s0[k].relationships@, rel_type@)
                                } else {
                                    s0[k].relationships@
                                };
                                if old_targets@.take(j as int).contains(s0[k].id) && first_with_id(s0, s0[k].id, k) {
                                    without_rel(base, *source_id, inverse_type@)
                                } else {
                                    base
                                }
                            },
                        *self == (RequirementsStore { requirements: self.requirements, ..*old(self) }),
                    decreases old_targets.len() - j,
                {
                    let t = old_targets[j];
                    match self.index_of_id(t) {
                        Some(x) => {
                            let ghost before = self.requirements@;
                            retain_without_rel(&mut self.requirements[x].relationships, *source_id, &inverse_type);
                            proof {
                                assert(first_with_id(s0, t, x as int));
                                assert(s0[x as int].id == t);
                                assert(old_targets@.take(j as int + 1) =~= old_targets@.take(j as int).push(t));
                                assert forall|k: int| 0 <= k < s0.len() implies (#[trigger] self.requirements@[k]).id == s0[k].id by {
                                    if k != x {
                                        assert(self.requirements@[k] == before[k]);
                                    }
                                }
                                crate::store::lemma_same_ids(s0, self.requirements@);
                                assert forall|k: int|
                                    0 <= k < s0.len() implies (#[trigger] self.requirements@[k]) == (Requirement {
                                        relationships: self.requirements@[k].relationships,
                                        ..s0[k]
                                    }) && self.requirements@[k].relationships@ == {
                                        let base = if k == si {
                                            without_kind(s0[k].relationships@, rel_type@)
                                        } else {
                                            s0[k].relationships@
                                        };
                                        if old_targets@.take(j as int + 1).contains(s0[k].id) && first_with_id(s0, s0[k].id, k) {
                                            without_rel(base, *source_id, inverse_type@)
                                        } else {
                                            base
                                        }
                                    } by {
                                    let base = if k == si {
                                        without_kind(s0[k].relationships@, rel_type@)
                                    } else {
                                        s0[k].relationships@
                                    };
                                    if k == x {
                                        lemma_without_rel_idem(base, *source_id, inverse_type@);
                                        assert(old_targets@.take(j as int + 1).contains(s0[k].id)) by {
                                            assert(old_targets@.take(j as int + 1)[j as int] == t);
                                        }
                                    } else {
                                        assert(self.requirements@[k] == before[k]);
                                        if old_targets@.take(j as int + 1).contains(s0[k].id) && first_with_id(s0, s0[k].id, k) {
                                            if s0[k].id == t {
                                                lemma_first_unique(s0, t, k, x as int);
                                            }
                                            let w = choose|w: int| 0 <= w < j + 1 && #[trigger] old_targets@.take(j as int + 1)[w] == s0[k].id;
                                            assert(w < j);
                                            assert(old_targets@.take(j as int)[w] == s0[k].id);
                                        }
                                        if old_targets@.take(j as int).contains(s0[k].id) {
                                            let w = choose|w: int| 0 <= w < j && #[trigger] old_targets@.take(j as int)[w] == s0[k].id;
                                            assert(old_targets@.take(j as int + 1)[w] == s0[k].id);
                                        }
                                    }
                                }
                            }
                        },
                        None => {
                            proof {
                                assert(old_targets@.take(j as int + 1) =~= old_targets@.take(j as int).push(t));
                                assert forall|k: int| 0 <= k < s0.len() && first_with_id(s0, s0[k].id, k) implies s0[k].id != t by {
                                    if s0[k].id == t {
                                        assert(has_id(s0, t));
                                        assert(has_id(self.requirements@, t)) by {
                                            assert(self.requirements@[k].id == t);
                                        }
                                    }
                                }
                                assert forall|k: int| 0 <= k < s0.len() implies
                                    (old_targets@.take(j as int + 1).contains(s0[k].id) && first_with_id(s0, s0[k].id, k))
                                    == (old_targets@.take(j as int).contains(s0[k].id) && first_with_id(s0, s0[k].id, k)) by {
                                    if old_targets@.take(j as int + 1).contains(s0[k].id) && first_with_id(s0, s0[k].id, k) {
                                        let w = choose|w: int| 0 <= w < j + 1 && #[trigger] old_targets@.take(j as int + 1)[w] == s0[k].id;
                                        if w < j {
                                            assert(old_targets@.take(j as int)[w] == s0[k].id);
                                        }
                                    }
                                    if old_targets@.take(j as int).contains(s0[k].id) {
                                        let w = choose|w: int| 0 <= w < j && #[trigger] old_targets@.take(j as int)[w] == s0[k].id;
                                        assert(old_targets@.take(j as int + 1)[w] == s0[k].id);
                                    }
                                }
                            }
                        },
                    }
                    j = j + 1;
                }
                proof {
                    assert(old_targets@.take(old_targets@.len() as int) =~= old_targets@);
                }
            },
            None => {},
        }
        let ghost mid = self.requirements@;
        proof {
            assert(cleared(s0, mid, si as int, *source_id, rel_type@, inv));
            crate::store::lemma_same_ids(s0, mid);
            assert forall|x: int| #[trigger] first_with_id(mid, *source_id, x) implies !has_rel(
                mid[x].relationships@,
                *target_id,
                rel_type@,
            ) by {
                lemma_first_unique(s0, *source_id, x, si as int);
                crate::store::lemma_without_kind_removes(s0[si as int].relationships@, *target_id, rel_type@);
                match inv {
                    Some(ik) => {
                        lemma_without_rel_keeps_absent(
                            without_kind(s0[si as int].relationships@, rel_type@),
                            *target_id,
                            rel_type@,
                            *source_id,
                            ik,
                        );
                    },
                    None => {},
                }
            }
            assert(can_add_rel(mid, *source_id, rel_type@, *target_id));
        }
        let r = self.add_relationship(source_id, rel_type, target_id, bidirectional);
        r
    }
}

/// The view of an optional relationship kind.
pub open spec fn opt_kind_of(o: Option<RelationshipType>) -> Option<RelKind> {
    match o {
        Some(t) => Some(t@),
        None => None,
    }
}

} // verus!
