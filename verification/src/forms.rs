//! The definition forms of the editor: relationship kinds and requirement
//! types, and the link form, with what saving each does to the store.
use vstd::prelude::*;
use vstd::string::*;
use crate::catalog::first_def_named;
use crate::clock::current_time;
use crate::model::{
    req_type_key, Cardinality, CustomFieldDefinition, CustomFieldType, CustomTypeDefinition, ReactionDefinition,
    RelationshipDefinition,
};
use crate::requirement::{find_field, has_field, Requirement, UrlLink};
use crate::relations::{find_def, has_def, lemma_find_def};
use crate::store::RequirementsStore;
use crate::text::{
    clone_opt, contains_view, join_texts, joined, list_items, lowercase, opt_view, owned, split_list, str_eq, to_lower, to_upper,
    trim_str, trimmed, uppercase, vec_contains_str, views,
};
use crate::editing::text_or_empty;
use crate::typedefs::same_field;

verus! {

/// The fields of the relationship definition form.
pub struct RelationshipDefinitionForm {
    /// Name of the kind
    pub name: String,
    /// Display name
    pub display_name: String,
    /// Description
    pub description: String,
    /// Name of the inverse kind (empty: none)
    pub inverse: String,
    /// Whether the kind is symmetric
    pub symmetric: bool,
    /// Cardinality
    pub cardinality: Cardinality,
    /// Allowed source types, separated by commas
    pub source_types: String,
    /// Allowed target types, separated by commas
    pub target_types: String,
    /// Colour (empty: none)
    pub color: String,
}

/// The colour the form gives: its trimmed text, none when blank.
pub open spec fn form_color(f: RelationshipDefinitionForm) -> Option<Seq<char>> {
    if trimmed(f.color@).len() == 0 {
        None
    } else {
        Some(trimmed(f.color@))
    }
}

/// The inverse the form gives: its trimmed text in lowercase, none when
/// blank.
pub open spec fn form_inverse(f: RelationshipDefinitionForm) -> Option<Seq<char>> {
    if trimmed(f.inverse@).len() == 0 {
        None
    } else {
        Some(lowercase(trimmed(f.inverse@)))
    }
}

/// Definition `d` takes from form `f` what every save sets: display name,
/// description, allowed source and target types, and colour.
pub open spec fn takes_shared(d: RelationshipDefinition, f: RelationshipDefinitionForm) -> bool {
    &&& d.display_name@ == f.display_name@
    &&& d.description@ == f.description@
    &&& views(d.source_types@) == list_items(f.source_types@)
    &&& views(d.target_types@) == list_items(f.target_types@)
    &&& opt_view(d.color) == form_color(f)
}

/// Definition `d` is definition `d0` (first named `l`) saved from form `f`:
/// a built-in one keeps its name, inverse, symmetry, cardinality and icon;
/// another one is rebuilt from the form under the name `l`, not built in,
/// with no icon.
pub open spec fn definition_saved(
    d0: RelationshipDefinition,
    d: RelationshipDefinition,
    f: RelationshipDefinitionForm,
    l: Seq<char>,
) -> bool {
    &&& takes_shared(d, f)
    &&& if d0.built_in {
        &&& d.name == d0.name
        &&& d.inverse == d0.inverse
        &&& d.symmetric == d0.symmetric
        &&& d.cardinality == d0.cardinality
        &&& d.built_in
        &&& d.icon == d0.icon
    } else {
        &&& d.name@ == l
        &&& opt_view(d.inverse) == form_inverse(f)
        &&& d.symmetric == f.symmetric
        &&& d.cardinality == f.cardinality
        &&& !d.built_in
        &&& d.icon is None
    }
}

/// The name a new definition gets from form `f`: the trimmed name in
/// lowercase (stored in lowercase once more).
pub open spec fn new_definition_name(f: RelationshipDefinitionForm) -> Seq<char> {
    lowercase(lowercase(lowercase(trimmed(f.name@))))
}

/// Definition `d` is a new one made from form `f`.
pub open spec fn definition_made(d: RelationshipDefinition, f: RelationshipDefinitionForm) -> bool {
    &&& takes_shared(d, f) || (trimmed(f.display_name@).len() == 0 && d.display_name@ == f.name@
        && d.description@ == f.description@ && views(d.source_types@) == list_items(f.source_types@) && views(
        d.target_types@,
    ) == list_items(f.target_types@) && opt_view(d.color) == form_color(f))
    &&& trimmed(f.display_name@).len() > 0 ==> d.display_name@ == f.display_name@
    &&& trimmed(f.display_name@).len() == 0 ==> d.display_name@ == f.name@
    &&& d.name@ == new_definition_name(f)
    &&& opt_view(d.inverse) == form_inverse(f)
    &&& d.symmetric == f.symmetric
    &&& d.cardinality == f.cardinality
    &&& !d.built_in
    &&& d.icon is None
}

/// The trimmed text of `s`, none when blank.
fn trimmed_or_none(s: &str) -> (r: Option<String>)
    ensures
        opt_view(r) == if trimmed(s@).len() == 0 {
            None
        } else {
            Some(trimmed(s@))
        },
{
    let t = trim_str(s);
    if t.unicode_len() == 0 {
        None
    } else {
        Some(t)
    }
}

/// The trimmed text of `s` in lowercase, none when blank.
fn lowered_or_none(s: &str) -> (r: Option<String>)
    ensures
        opt_view(r) == if trimmed(s@).len() == 0 {
            None
        } else {
            Some(lowercase(trimmed(s@)))
        },
{
    let t = trim_str(s);
    if t.unicode_len() == 0 {
        None
    } else {
        Some(to_lower(t.as_str()))
    }
}

/// `a` followed by `b`.
fn concat(a: &str, b: &str) -> (r: String)
    ensures
        r@ == a@ + b@,
{
    let mut r = owned(a);
    r.append(b);
    r
}

impl RelationshipDefinitionForm {
    /// The empty form: no texts, not symmetric, many-to-many.
    pub fn cleared() -> (r: Self)
        ensures
            r.name@.len() == 0,
            r.display_name@.len() == 0,
            r.description@.len() == 0,
            r.inverse@.len() == 0,
            !r.symmetric,
            r.cardinality == Cardinality::ManyToMany,
            r.source_types@.len() == 0,
            r.target_types@.len() == 0,
            r.color@.len() == 0,
    {
        RelationshipDefinitionForm {
            name: String::new(),
            display_name: String::new(),
            description: String::new(),
            inverse: String::new(),
            symmetric: false,
            cardinality: Cardinality::ManyToMany,
            source_types: String::new(),
            target_types: String::new(),
            color: String::new(),
        }
    }

    /// The form filled from a definition: its texts, inverse and colour
    /// (empty when none), and its allowed types joined with `, `.
    pub fn from_definition(def: &RelationshipDefinition) -> (r: Self)
        ensures
            r.name@ == def.name@,
            r.display_name@ == def.display_name@,
            r.description@ == def.description@,
            r.inverse@ == text_or_empty(opt_view(def.inverse)),
            r.symmetric == def.symmetric,
            r.cardinality == def.cardinality,
            r.source_types@ == joined(views(def.source_types@), ", "@),
            r.target_types@ == joined(views(def.target_types@), ", "@),
            r.color@ == text_or_empty(opt_view(def.color)),
    {
        RelationshipDefinitionForm {
            name: def.name.clone(),
            display_name: def.display_name.clone(),
            description: def.description.clone(),
            inverse: match &def.inverse {
                Some(s) => s.clone(),
                None => String::new(),
            },
            symmetric: def.symmetric,
            cardinality: def.cardinality,
            source_types: join_texts(&def.source_types, ", "),
            target_types: join_texts(&def.target_types, ", "),
            color: match &def.color {
                Some(s) => s.clone(),
                None => String::new(),
            },
        }
    }
}

impl RequirementsStore {
    /// Saves the relationship definition form: when `editing` names a
    /// definition, updates the first one with that name in lowercase (a
    /// built-in one takes only the display name, description, allowed types
    /// and colour); otherwise adds a new definition, which needs a name. The
    /// error is the message to show.
    pub fn save_rel_def_form(&mut self, editing: Option<&str>, form: &RelationshipDefinitionForm) -> (r: Result<
        (),
        String,
    >)
        ensures
            *final(self) == (RequirementsStore {
                relationship_definitions: final(self).relationship_definitions,
                ..*old(self)
            }),
            r is Err ==> *final(self) == *old(self),
            match editing {
                Some(n) => {
                    let l = lowercase(n@);
                    let defs = old(self).relationship_definitions@;
                    &&& !has_def(defs, l) ==> (r matches Err(m) && m@ == "Failed to update: "@
                        + "Relationship definition '"@ + l + "' not found"@)
                    &&& has_def(defs, l) ==> r is Ok && exists|i: int|
                        first_def_named(defs, l, i) && final(self).relationship_definitions@.len() == defs.len() && (
                        forall|j: int|
                            0 <= j < defs.len() && j != i ==> #[trigger] final(self).relationship_definitions@[j]
                                == defs[j]) && definition_saved(
                            defs[i],
                            final(self).relationship_definitions@[i],
                            *form,
                            l,
                        )
                },
                None => {
                    let defs = old(self).relationship_definitions@;
                    let n = new_definition_name(*form);
                    &&& trimmed(form.name@).len() == 0 ==> (r matches Err(m) && m@ == "Name is required"@)
                    &&& trimmed(form.name@).len() > 0 && has_def(defs, n) ==> (r matches Err(m) && m@
                        == "Failed to add: "@ + "Relationship definition '"@ + n + "' already exists"@)
                    &&& trimmed(form.name@).len() > 0 && !has_def(defs, n) ==> r is Ok
                        && final(self).relationship_definitions@.drop_last() == defs
                        && final(self).relationship_definitions@.len() == defs.len() + 1 && definition_made(
                        final(self).relationship_definitions@.last(),
                        *form,
                    )
                },
            },
    {
        let source_types = split_list(form.source_types.as_str());
        let target_types = split_list(form.target_types.as_str());
        let color = trimmed_or_none(form.color.as_str());
        let inverse = lowered_or_none(form.inverse.as_str());
        match editing {
            Some(edit_name) => {
                let ghost defs = self.relationship_definitions@;
                let ghost l = lowercase(edit_name@);
                proof {
                    lemma_find_def(defs, l);
                }
                let updated = match self.get_relationship_definition(edit_name) {
                    Some(d) if d.built_in => RelationshipDefinition {
                        name: d.name.clone(),
                        display_name: form.display_name.clone(),
                        description: form.description.clone(),
                        inverse: clone_opt(&d.inverse),
                        symmetric: d.symmetric,
                        cardinality: d.cardinality,
                        source_types,
                        target_types,
                        built_in: true,
                        color,
                        icon: clone_opt(&d.icon),
                    },
                    _ => {
                        let fresh = RelationshipDefinition::new(form.name.as_str(), form.display_name.as_str());
                        RelationshipDefinition {
                            description: form.description.clone(),
                            inverse,
                            symmetric: form.symmetric,
                            cardinality: form.cardinality,
                            source_types,
                            target_types,
                            color,
                            ..fresh
                        }
                    },
                };
                let ghost u = updated;
                match self.update_relationship_definition(edit_name, updated) {
                    Ok(()) => {
                        proof {
                            let i = choose|i: int|
                                first_def_named(defs, l, i) && self.relationship_definitions@.len() == defs.len() && (
                                forall|j: int|
                                    0 <= j < defs.len() && j != i ==> #[trigger] self.relationship_definitions@[j]
                                        == defs[j]) && if defs[i].built_in {
                                    self.relationship_definitions@[i] == (RelationshipDefinition {
                                        display_name: u.display_name,
                                        description: u.description,
                                        color: u.color,
                                        icon: u.icon,
                                        source_types: u.source_types,
                                        target_types: u.target_types,
                                        ..defs[i]
                                    })
                                } else {
                                    self.relationship_definitions@[i] == (RelationshipDefinition {
                                        name: self.relationship_definitions@[i].name,
                                        built_in: false,
                                        ..u
                                    }) && self.relationship_definitions@[i].name@ == l
                                };
                            let d = find_def(defs, l)->0;
                            let k = choose|k: int|
                                0 <= k < defs.len() && defs[k] == d && d.name@ == l && forall|j: int|
                                    0 <= j < k ==> (#[trigger] defs[j]).name@ != l;
                            assert(k == i) by {
                                if k < i {
                                    assert(defs[k].name@ != l);
                                } else if i < k {
                                    assert(defs[i].name@ != l);
                                }
                            }
                            assert(definition_saved(defs[i], self.relationship_definitions@[i], *form, l));
                        }
                        Ok(())
                    },
                    Err(e) => {
                        let m = e.message();
                        let msg = concat("Failed to update: ", m.as_str());
                        proof {
                            assert(msg@ =~= "Failed to update: "@ + "Relationship definition '"@ + l + "' not found"@);
                        }
                        Err(msg)
                    },
                }
            },
            None => {
                let trimmed_name = trim_str(form.name.as_str());
                if trimmed_name.unicode_len() == 0 {
                    return Err(owned("Name is required"));
                }
                let lname = to_lower(trimmed_name.as_str());
                let display = if trim_str(form.display_name.as_str()).unicode_len() == 0 {
                    form.name.clone()
                } else {
                    form.display_name.clone()
                };
                let fresh = RelationshipDefinition::new(lname.as_str(), display.as_str());
                let def = RelationshipDefinition {
                    description: form.description.clone(),
                    inverse,
                    symmetric: form.symmetric,
                    cardinality: form.cardinality,
                    source_types,
                    target_types,
                    color,
                    ..fresh
                };
                match self.add_relationship_definition(def) {
                    Ok(()) => Ok(()),
                    Err(e) => {
                        let m = e.message();
                        let msg = concat("Failed to add: ", m.as_str());
                        proof {
                            assert(msg@ =~= "Failed to add: "@ + "Relationship definition '"@ + new_definition_name(*form)
                                + "' already exists"@);
                        }
                        Err(msg)
                    },
                }
            },
        }
    }
}

} // verus!

verus! {

/// The fields of the requirement type form.
pub struct TypeDefinitionForm {
    /// Key of the type
    pub name: String,
    /// Display label
    pub display_name: String,
    /// Description (empty: none)
    pub description: String,
    /// Identifier prefix (empty: none)
    pub prefix: String,
    /// Statuses of the type
    pub statuses: Vec<String>,
    /// Custom fields of the type
    pub custom_fields: Vec<CustomFieldDefinition>,
}

/// The text of `s`, none when it is empty.
pub open spec fn nonempty_text(s: Seq<char>) -> Option<Seq<char>> {
    if s.len() == 0 {
        None
    } else {
        Some(s)
    }
}

/// Whether `i` is the first type definition in `v` named exactly `n`.
pub open spec fn first_type_def_named(v: Seq<CustomTypeDefinition>, n: Seq<char>, i: int) -> bool {
    0 <= i < v.len() && v[i].name@ == n && forall|j: int| 0 <= j < i ==> (#[trigger] v[j]).name@ != n
}

/// Type definition `d` is the one the form `f` makes, built in when
/// `built_in`: its texts, the prefix in uppercase, empty texts as none, no
/// colour.
pub open spec fn type_def_made(d: CustomTypeDefinition, f: TypeDefinitionForm, built_in: bool) -> bool {
    &&& d.name == f.name
    &&& d.display_name == f.display_name
    &&& opt_view(d.description) == nonempty_text(f.description@)
    &&& opt_view(d.prefix) == if f.prefix@.len() == 0 {
        None
    } else {
        Some(uppercase(f.prefix@))
    }
    &&& d.statuses == f.statuses
    &&& d.custom_fields == f.custom_fields
    &&& d.built_in == built_in
    &&& d.color is None
}

proof fn lemma_first_type_def_unique(v: Seq<CustomTypeDefinition>, n: Seq<char>, i: int)
    requires
        first_type_def_named(v, n, i),
    ensures
        forall|j: int| #[trigger] first_type_def_named(v, n, j) ==> j == i,
{
    assert forall|j: int| #[trigger] first_type_def_named(v, n, j) implies j == i by {
        if j < i {
            assert(v[j].name@ != n);
        } else if i < j {
            assert(v[i].name@ != n);
        }
    }
}

fn type_def_index(v: &Vec<CustomTypeDefinition>, n: &str) -> (r: Option<usize>)
    ensures
        match r {
            Some(i) => first_type_def_named(v@, n@, i as int),
            None => forall|i: int| 0 <= i < v@.len() ==> (#[trigger] v@[i]).name@ != n@,
        },
{
    let mut i: usize = 0;
    while i < v.len()
        invariant
            i <= v@.len(),
            forall|j: int| 0 <= j < i ==> (#[trigger] v@[j]).name@ != n@,
        decreases v.len() - i,
    {
        if str_eq(v[i].name.as_str(), n) {
            return Some(i);
        }
        i = i + 1;
    }
    None
}

/// The fields of the link form.
pub struct UrlForm {
    /// Address
    pub url: String,
    /// Title
    pub title: String,
    /// Description (empty: none)
    pub description: String,
}

/// Link `u` is link `u0` with address, title and description from form
/// `f`, and, when the address was just checked (`verified`), the check's
/// outcome stamped now.
pub open spec fn url_saved(u0: UrlLink, u: UrlLink, f: UrlForm, verified: Option<bool>) -> bool {
    &&& u.id == u0.id
    &&& u.url@ == f.url@
    &&& u.title@ == f.title@
    &&& opt_view(u.description) == nonempty_text(f.description@)
    &&& u.added_at == u0.added_at
    &&& u.added_by == u0.added_by
    &&& match verified {
        Some(ok) => u.last_verified is Some && u.last_verified_ok == Some(ok),
        None => u.last_verified == u0.last_verified && u.last_verified_ok == u0.last_verified_ok,
    }
}

/// Link `u` is a new link made from form `f` by `author`, with the check's
/// outcome when the address was just checked.
pub open spec fn url_made(u: UrlLink, f: UrlForm, verified: Option<bool>, author: Seq<char>) -> bool {
    &&& u.url@ == f.url@
    &&& u.title@ == f.title@
    &&& opt_view(u.description) == nonempty_text(f.description@)
    &&& u.added_by@ == author
    &&& match verified {
        Some(ok) => u.last_verified is Some && u.last_verified_ok == Some(ok),
        None => u.last_verified is None && u.last_verified_ok is None,
    }
}

/// Whether `i` is the first link in `v` with identifier `id`.
pub open spec fn first_url_with(v: Seq<UrlLink>, id: u128, i: int) -> bool {
    0 <= i < v.len() && v[i].id == id && forall|j: int| 0 <= j < i ==> (#[trigger] v[j]).id != id
}

fn url_index(v: &Vec<UrlLink>, id: u128) -> (r: Option<usize>)
    ensures
        match r {
            Some(i) => first_url_with(v@, id, i as int),
            None => forall|i: int| 0 <= i < v@.len() ==> (#[trigger] v@[i]).id != id,
        },
{
    let mut i: usize = 0;
    while i < v.len()
        invariant
            i <= v@.len(),
            forall|j: int| 0 <= j < i ==> (#[trigger] v@[j]).id != id,
        decreases v.len() - i,
    {
        if v[i].id == id {
            return Some(i);
        }
        i = i + 1;
    }
    None
}

/// Copies of custom field definitions, in order.
fn copy_field_defs(v: &Vec<CustomFieldDefinition>) -> (r: Vec<CustomFieldDefinition>)
    ensures
        r@.len() == v@.len(),
        forall|i: int| 0 <= i < v@.len() ==> same_field(#[trigger] r@[i], v@[i]),
{
    let mut r: Vec<CustomFieldDefinition> = Vec::new();
    let mut i: usize = 0;
    while i < v.len()
        invariant
            i <= v@.len(),
            r@.len() == i,
            forall|j: int| 0 <= j < i ==> same_field(#[trigger] r@[j], v@[j]),
        decreases v.len() - i,
    {
        r.push(v[i].copy());
        i = i + 1;
    }
    r
}

impl TypeDefinitionForm {
    /// The form filled from a type definition: its texts, the description
    /// and prefix empty when it has none, its statuses and copies of its
    /// custom fields.
    pub fn from_definition(def: &CustomTypeDefinition) -> (r: Self)
        ensures
            r.name@ == def.name@,
            r.display_name@ == def.display_name@,
            r.description@ == text_or_empty(opt_view(def.description)),
            r.prefix@ == text_or_empty(opt_view(def.prefix)),
            r.statuses@ == def.statuses@,
            r.custom_fields@.len() == def.custom_fields@.len(),
            forall|i: int|
                0 <= i < def.custom_fields@.len() ==> same_field(#[trigger] r.custom_fields@[i], def.custom_fields@[i]),
    {
        TypeDefinitionForm {
            name: def.name.clone(),
            display_name: def.display_name.clone(),
            description: match &def.description {
                Some(d) => d.clone(),
                None => String::new(),
            },
            prefix: match &def.prefix {
                Some(p) => p.clone(),
                None => String::new(),
            },
            statuses: crate::text::clone_strings(&def.statuses),
            custom_fields: copy_field_defs(&def.custom_fields),
        }
    }
}

/// Whether a requirement of the type named `n` has the custom status `st`.
pub open spec fn status_in_use(s: Seq<Requirement>, n: Seq<char>, st: Seq<char>) -> bool {
    exists|i: int|
        0 <= i < s.len() && req_type_key((#[trigger] s[i]).req_type) == n && opt_view(s[i].custom_status) == Some(st)
}

/// Whether a requirement of the type named `n` has a value for the custom
/// field `f`.
pub open spec fn field_in_use(s: Seq<Requirement>, n: Seq<char>, f: Seq<char>) -> bool {
    exists|i: int| 0 <= i < s.len() && req_type_key((#[trigger] s[i]).req_type) == n && has_field(s[i].custom_fields@, f)
}

impl TypeDefinitionForm {
    /// Adds a status typed into the form, unless it is empty or listed
    /// already. Returns whether it was added.
    pub fn add_status(&mut self, status: &str) -> (r: bool)
        ensures
            r == (status@.len() > 0 && !views(old(self).statuses@).contains(status@)),
            r ==> views(final(self).statuses@) == views(old(self).statuses@).push(status@),
            !r ==> *final(self) == *old(self),
            final(self).name == old(self).name,
            final(self).display_name == old(self).display_name,
            final(self).description == old(self).description,
            final(self).prefix == old(self).prefix,
            final(self).custom_fields == old(self).custom_fields,
    {
        if status.unicode_len() == 0 {
            return false;
        }
        let listed = vec_contains_str(&self.statuses, status);
        proof {
            lemma_contains_views(self.statuses@, status@);
        }
        if listed {
            return false;
        }
        self.statuses.push(owned(status));
        proof {
            assert(views(self.statuses@) =~= views(old(self).statuses@).push(status@));
        }
        true
    }

    /// Removes status `idx` from the form. When the form edits the type
    /// named `editing` and a requirement of that type has the status, it is
    /// kept and the message says so.
    pub fn remove_status(&mut self, store: &RequirementsStore, editing: Option<&str>, idx: usize) -> (r: Result<
        (),
        String,
    >)
        requires
            idx < old(self).statuses@.len(),
        ensures
            ({
                let st = old(self).statuses@[idx as int]@;
                let blocked = match editing {
                    Some(n) => status_in_use(store.requirements@, n@, st),
                    None => false,
                };
                &&& r is Err <==> blocked
                &&& r matches Err(m) ==> m@ == "Cannot remove '"@ + st + "': status is in use"@
                &&& blocked ==> *final(self) == *old(self)
                &&& !blocked ==> final(self).statuses@ == old(self).statuses@.remove(idx as int)
                &&& !blocked ==> *final(self) == (TypeDefinitionForm { statuses: final(self).statuses, ..*old(self) })
            }),
    {
        let blocked = match editing {
            Some(n) => status_used(&store.requirements, n, self.statuses[idx].as_str()),
            None => false,
        };
        if blocked {
            let mut m = owned("Cannot remove '");
            m.append(self.statuses[idx].as_str());
            m.append("': status is in use");
            return Err(m);
        }
        self.statuses.remove(idx);
        Ok(())
    }

    /// Removes custom field `idx` from the form. When the form edits the
    /// type named `editing` and a requirement of that type has a value for
    /// the field, it is kept and the message says so.
    pub fn remove_field(&mut self, store: &RequirementsStore, editing: Option<&str>, idx: usize) -> (r: Result<
        (),
        String,
    >)
        requires
            idx < old(self).custom_fields@.len(),
        ensures
            ({
                let f = old(self).custom_fields@[idx as int].name@;
                let blocked = match editing {
                    Some(n) => field_in_use(store.requirements@, n@, f),
                    None => false,
                };
                &&& r is Err <==> blocked
                &&& r matches Err(m) ==> m@ == "Cannot remove '"@ + f + "': field is in use"@
                &&& blocked ==> *final(self) == *old(self)
                &&& !blocked ==> final(self).custom_fields@ == old(self).custom_fields@.remove(idx as int)
                &&& !blocked ==> *final(self) == (TypeDefinitionForm {
                    custom_fields: final(self).custom_fields,
                    ..*old(self)
                })
            }),
    {
        let blocked = match editing {
            Some(n) => field_used(&store.requirements, n, self.custom_fields[idx].name.as_str()),
            None => false,
        };
        if blocked {
            let mut m = owned("Cannot remove '");
            m.append(self.custom_fields[idx].name.as_str());
            m.append("': field is in use");
            return Err(m);
        }
        self.custom_fields.remove(idx);
        Ok(())
    }
}

fn status_used(reqs: &Vec<Requirement>, n: &str, st: &str) -> (r: bool)
    ensures
        r == status_in_use(reqs@, n@, st@),
{
    let mut j: usize = 0;
    while j < reqs.len()
        invariant
            j <= reqs@.len(),
            forall|a: int|
                0 <= a < j ==> !(req_type_key((#[trigger] reqs@[a]).req_type) == n@ && opt_view(reqs@[a].custom_status)
                    == Some(st@)),
        decreases reqs.len() - j,
    {
        let key = reqs[j].req_type.key_text();
        let same_status = match &reqs[j].custom_status {
            Some(c) => str_eq(c.as_str(), st),
            None => false,
        };
        if str_eq(key.as_str(), n) && same_status {
            return true;
        }
        j = j + 1;
    }
    false
}

fn field_used(reqs: &Vec<Requirement>, n: &str, f: &str) -> (r: bool)
    ensures
        r == field_in_use(reqs@, n@, f@),
{
    let mut j: usize = 0;
    while j < reqs.len()
        invariant
            j <= reqs@.len(),
            forall|a: int|
                0 <= a < j ==> !(req_type_key((#[trigger] reqs@[a]).req_type) == n@ && has_field(
                    reqs@[a].custom_fields@,
                    f@,
                )),
        decreases reqs.len() - j,
    {
        let key = reqs[j].req_type.key_text();
        let has = find_field(&reqs[j].custom_fields, f).is_some();
        if str_eq(key.as_str(), n) && has {
            return true;
        }
        j = j + 1;
    }
    false
}

proof fn lemma_contains_views(v: Seq<String>, s: Seq<char>)
    ensures
        contains_view(v, s) == views(v).contains(s),
{
    if contains_view(v, s) {
        let i = choose|i: int| 0 <= i < v.len() && #[trigger] v[i]@ == s;
        assert(views(v)[i] == s);
    }
    if views(v).contains(s) {
        let i = choose|i: int| 0 <= i < views(v).len() && views(v)[i] == s;
        assert(v[i]@ == s);
    }
}

/// The author of a new link: the user's name, `Unknown` when it is empty.
pub open spec fn link_author(name: Seq<char>) -> Seq<char> {
    if name.len() == 0 {
        "Unknown"@
    } else {
        name
    }
}

impl RequirementsStore {
    /// Restores the type named `name` to its built-in definition: when
    /// `defaults` holds a definition of that name and the store a type of
    /// that name, the first such type becomes the first such definition;
    /// otherwise nothing changes. Returns whether it was restored.
    pub fn restore_type_definition(&mut self, name: &str, defaults: Vec<CustomTypeDefinition>) -> (r: bool)
        ensures
            r == ((exists|d: int| first_type_def_named(defaults@, name@, d)) && (exists|i: int|
                first_type_def_named(old(self).type_definitions@, name@, i))),
            !r ==> *final(self) == *old(self),
            forall|i: int, d: int|
                first_type_def_named(old(self).type_definitions@, name@, i) && first_type_def_named(
                    defaults@,
                    name@,
                    d,
                ) ==> final(self).type_definitions@ == old(self).type_definitions@.update(i, defaults@[d]),
            *final(self) == (RequirementsStore { type_definitions: final(self).type_definitions, ..*old(self) }),
    {
        let mut defaults = defaults;
        let d = match type_def_index(&defaults, name) {
            Some(d) => d,
            None => {
                proof {
                    assert forall|d: int| !first_type_def_named(defaults@, name@, d) by {
                        if 0 <= d < defaults@.len() {
                            assert(defaults@[d].name@ != name@);
                        }
                    }
                }
                return false;
            },
        };
        let i = match type_def_index(&self.type_definitions, name) {
            Some(i) => i,
            None => {
                proof {
                    assert forall|i: int| !first_type_def_named(old(self).type_definitions@, name@, i) by {
                        if 0 <= i < self.type_definitions@.len() {
                            assert(self.type_definitions@[i].name@ != name@);
                        }
                    }
                }
                return false;
            },
        };
        proof {
            lemma_first_type_def_unique(defaults@, name@, d as int);
            lemma_first_type_def_unique(self.type_definitions@, name@, i as int);
        }
        let def = defaults.remove(d);
        self.type_definitions.set(i, def);
        true
    }

    /// Saves the type definition form: when `editing` names a type, the
    /// first type with exactly that name is replaced (keeping whether it is
    /// built in; nothing changes when there is none); otherwise the new type
    /// is appended.
    pub fn save_type_definition(&mut self, editing: Option<&str>, form: TypeDefinitionForm)
        ensures
            *final(self) == (RequirementsStore { type_definitions: final(self).type_definitions, ..*old(self) }),
            match editing {
                Some(n) => {
                    let v = old(self).type_definitions@;
                    &&& (forall|i: int| 0 <= i < v.len() ==> (#[trigger] v[i]).name@ != n@) ==> *final(self)
                        == *old(self)
                    &&& forall|i: int|
                        #[trigger] first_type_def_named(v, n@, i) ==> final(self).type_definitions@ == v.update(
                            i,
                            final(self).type_definitions@[i],
                        ) && type_def_made(final(self).type_definitions@[i], form, v[i].built_in)
                },
                None => final(self).type_definitions@.drop_last() == old(self).type_definitions@
                    && final(self).type_definitions@.len() == old(self).type_definitions@.len() + 1 && type_def_made(
                    final(self).type_definitions@.last(),
                    form,
                    false,
                ),
            },
    {
        let pos = match editing {
            Some(n) => type_def_index(&self.type_definitions, n),
            None => None,
        };
        let built_in = match pos {
            Some(i) => self.type_definitions[i].built_in,
            None => false,
        };
        let description = if form.description.unicode_len() == 0 {
            None
        } else {
            Some(form.description)
        };
        let prefix = if form.prefix.unicode_len() == 0 {
            None
        } else {
            Some(to_upper(form.prefix.as_str()))
        };
        let def = CustomTypeDefinition {
            name: form.name,
            display_name: form.display_name,
            description,
            prefix,
            statuses: form.statuses,
            custom_fields: form.custom_fields,
            built_in,
            color: None,
        };
        match editing {
            Some(n) => {
                match pos {
                    Some(i) => {
                        self.type_definitions.set(i, def);
                        proof {
                            assert forall|k: int|
                                #[trigger] first_type_def_named(old(self).type_definitions@, n@, k) implies k == i by {
                                if k < i {
                                    assert(old(self).type_definitions@[k].name@ != n@);
                                } else if i < k {
                                    assert(old(self).type_definitions@[i as int].name@ != n@);
                                }
                            }
                        }
                    },
                    None => {},
                }
            },
            None => {
                self.type_definitions.push(def);
                proof {
                    assert(self.type_definitions@.drop_last() =~= old(self).type_definitions@);
                }
            },
        }
    }

    /// Saves the link form on the selected requirement (at `selected_idx`),
    /// which must be the requirement `req_id`: when `editing_url_id` is
    /// given, the first link with that identifier takes the form's values
    /// (nothing changes when there is none); otherwise a new link by the user
    /// (`Unknown` when the name is empty) is appended. When the address was
    /// just checked, the outcome is stamped now. False, with nothing changed,
    /// when the selection is not that requirement.
    pub fn save_url_link(
        &mut self,
        selected_idx: Option<usize>,
        req_id: u128,
        editing_url_id: Option<u128>,
        form: &UrlForm,
        verified: Option<bool>,
        user_name: &str,
    ) -> (r: bool)
        ensures
            r == (selected_idx matches Some(i) && i < old(self).requirements@.len()
                && old(self).requirements@[i as int].id == req_id),
            !r ==> *final(self) == *old(self),
            *final(self) == (RequirementsStore { requirements: final(self).requirements, ..*old(self) }),
            r ==> {
                let i = selected_idx->0 as int;
                let r0 = old(self).requirements@[i];
                let e = final(self).requirements@[i];
                &&& final(self).requirements@ == old(self).requirements@.update(i, e)
                &&& e == (Requirement { urls: e.urls, ..r0 })
                &&& match editing_url_id {
                    Some(eid) => {
                        &&& (forall|k: int| 0 <= k < r0.urls@.len() ==> (#[trigger] r0.urls@[k]).id != eid)
                            ==> e.urls@ == r0.urls@
                        &&& forall|k: int|
                            #[trigger] first_url_with(r0.urls@, eid, k) ==> e.urls@ == r0.urls@.update(k, e.urls@[k])
                                && url_saved(r0.urls@[k], e.urls@[k], *form, verified)
                    },
                    None => e.urls@.drop_last() == r0.urls@ && e.urls@.len() == r0.urls@.len() + 1 && url_made(
                        e.urls@.last(),
                        *form,
                        verified,
                        link_author(user_name@),
                    ),
                }
            },
    {
        let author = if user_name.unicode_len() == 0 {
            owned("Unknown")
        } else {
            owned(user_name)
        };
        let idx = match selected_idx {
            Some(i) => i,
            None => {
                return false;
            },
        };
        if idx >= self.requirements.len() || self.requirements[idx].id != req_id {
            return false;
        }
        let description = if form.description.unicode_len() == 0 {
            None
        } else {
            Some(form.description.clone())
        };
        match editing_url_id {
            Some(eid) => {
                match url_index(&self.requirements[idx].urls, eid) {
                    Some(k) => {
                        let req = &mut self.requirements[idx];
                        let link = &mut req.urls[k];
                        link.url = form.url.clone();
                        link.title = form.title.clone();
                        link.description = description;
                        match verified {
                            Some(ok) => {
                                link.last_verified = Some(current_time());
                                link.last_verified_ok = Some(ok);
                            },
                            None => {},
                        }
                        proof {
                            assert forall|k2: int|
                                #[trigger] first_url_with(old(self).requirements@[idx as int].urls@, eid, k2) implies k2
                                == k by {
                                if k2 < k {
                                    assert(old(self).requirements@[idx as int].urls@[k2].id != eid);
                                } else if k < k2 {
                                    assert(old(self).requirements@[idx as int].urls@[k as int].id != eid);
                                }
                            }
                        }
                    },
                    None => {
                        proof {
                            assert(self.requirements@ =~= old(self).requirements@.update(
                                idx as int,
                                self.requirements@[idx as int],
                            ));
                        }
                    },
                }
            },
            None => {
                let mut link = UrlLink::new(form.url.as_str(), form.title.as_str(), author.as_str());
                link.description = description;
                match verified {
                    Some(ok) => {
                        link.last_verified = Some(current_time());
                        link.last_verified_ok = Some(ok);
                    },
                    None => {},
                }
                let req = &mut self.requirements[idx];
                req.urls.push(link);
                proof {
                    assert(req.urls@.drop_last() =~= old(self).requirements@[idx as int].urls@);
                }
            },
        }
        true
    }
}

} // verus!

verus! {

/// The fields of the reaction definition form.
pub struct ReactionDefinitionForm {
    /// Key of the reaction
    pub name: String,
    /// Emoji
    pub emoji: String,
    /// Label
    pub label: String,
    /// Description (empty: none)
    pub description: String,
}

/// Whether `i` is the first reaction definition in `v` named `n`.
pub open spec fn first_reaction_named(v: Seq<ReactionDefinition>, n: Seq<char>, i: int) -> bool {
    0 <= i < v.len() && v[i].name@ == n && forall|j: int| 0 <= j < i ==> (#[trigger] v[j]).name@ != n
}

/// The reaction definitions of `v` not named `n`, in order.
pub open spec fn without_reaction_named(v: Seq<ReactionDefinition>, n: Seq<char>) -> Seq<ReactionDefinition>
    decreases v.len(),
{
    if v.len() == 0 {
        Seq::empty()
    } else if v.last().name@ == n {
        without_reaction_named(v.drop_last(), n)
    } else {
        without_reaction_named(v.drop_last(), n).push(v.last())
    }
}

/// The type definitions of `v` not named `n`, in order.
pub open spec fn without_type_named(v: Seq<CustomTypeDefinition>, n: Seq<char>) -> Seq<CustomTypeDefinition>
    decreases v.len(),
{
    if v.len() == 0 {
        Seq::empty()
    } else if v.last().name@ == n {
        without_type_named(v.drop_last(), n)
    } else {
        without_type_named(v.drop_last(), n).push(v.last())
    }
}

/// Whether some requirement of `s` has the type whose key is `n`.
pub open spec fn type_in_use(s: Seq<Requirement>, n: Seq<char>) -> bool {
    exists|i: int| 0 <= i < s.len() && req_type_key((#[trigger] s[i]).req_type) == n
}

impl RequirementsStore {
    /// Saves the reaction definition form, which needs a name, an emoji and
    /// a label (false, with nothing changed, otherwise): when `editing` names
    /// a reaction, the first one of that name takes the emoji, label and
    /// description (nothing changes when there is none); otherwise a new
    /// reaction is appended. An empty description is none.
    pub fn save_reaction_definition(&mut self, editing: Option<&str>, form: &ReactionDefinitionForm) -> (r: bool)
        ensures
            r == (form.name@.len() > 0 && form.emoji@.len() > 0 && form.label@.len() > 0),
            !r ==> *final(self) == *old(self),
            *final(self) == (RequirementsStore {
                reaction_definitions: final(self).reaction_definitions,
                ..*old(self)
            }),
            r ==> match editing {
                Some(n) => {
                    let v = old(self).reaction_definitions@;
                    &&& (forall|i: int| 0 <= i < v.len() ==> (#[trigger] v[i]).name@ != n@) ==> *final(self)
                        == *old(self)
                    &&& forall|i: int|
                        #[trigger] first_reaction_named(v, n@, i) ==> final(self).reaction_definitions@ == v.update(
                            i,
                            final(self).reaction_definitions@[i],
                        ) && final(self).reaction_definitions@[i] == (ReactionDefinition {
                            emoji: final(self).reaction_definitions@[i].emoji,
                            label: final(self).reaction_definitions@[i].label,
                            description: final(self).reaction_definitions@[i].description,
                            ..v[i]
                        }) && final(self).reaction_definitions@[i].emoji@ == form.emoji@
                            && final(self).reaction_definitions@[i].label@ == form.label@ && opt_view(
                            final(self).reaction_definitions@[i].description,
                        ) == nonempty_text(form.description@)
                },
                None => {
                    let v = old(self).reaction_definitions@;
                    let d = final(self).reaction_definitions@.last();
                    &&& final(self).reaction_definitions@.drop_last() == v
                    &&& final(self).reaction_definitions@.len() == v.len() + 1
                    &&& d.name@ == form.name@ && d.emoji@ == form.emoji@ && d.label@ == form.label@
                    &&& opt_view(d.description) == nonempty_text(form.description@)
                    &&& !d.built_in
                },
            },
    {
        if form.name.unicode_len() == 0 || form.emoji.unicode_len() == 0 || form.label.unicode_len() == 0 {
            return false;
        }
        let description = if form.description.unicode_len() == 0 {
            None
        } else {
            Some(form.description.clone())
        };
        match editing {
            Some(n) => {
                let mut i: usize = 0;
                while i < self.reaction_definitions.len() && !str_eq(self.reaction_definitions[i].name.as_str(), n)
                    invariant
                        i <= self.reaction_definitions@.len(),
                        forall|j: int| 0 <= j < i ==> (#[trigger] self.reaction_definitions@[j]).name@ != n@,
                    decreases self.reaction_definitions.len() - i,
                {
                    i = i + 1;
                }
                if i < self.reaction_definitions.len() {
                    let d = &mut self.reaction_definitions[i];
                    d.emoji = form.emoji.clone();
                    d.label = form.label.clone();
                    d.description = description;
                    proof {
                        assert forall|k: int|
                            #[trigger] first_reaction_named(old(self).reaction_definitions@, n@, k) implies k == i by {
                            if k < i {
                                assert(old(self).reaction_definitions@[k].name@ != n@);
                            } else if (i as int) < k {
                                assert(old(self).reaction_definitions@[i as int].name@ != n@);
                            }
                        }
                    }
                }
            },
            None => {
                let mut def = ReactionDefinition::new(form.name.as_str(), form.emoji.as_str(), form.label.as_str());
                def.description = description;
                self.reaction_definitions.push(def);
                proof {
                    assert(self.reaction_definitions@.drop_last() =~= old(self).reaction_definitions@);
                }
            },
        }
        true
    }

    /// Removes the reaction definitions named `name`.
    pub fn delete_reaction_definition(&mut self, name: &str)
        ensures
            final(self).reaction_definitions@ == without_reaction_named(old(self).reaction_definitions@, name@),
            *final(self) == (RequirementsStore {
                reaction_definitions: final(self).reaction_definitions,
                ..*old(self)
            }),
    {
        let mut kept: Vec<ReactionDefinition> = Vec::new();
        let n = self.reaction_definitions.len();
        let mut i: usize = 0;
        proof {
            assert(old(self).reaction_definitions@.take(0) =~= Seq::<ReactionDefinition>::empty());
        }
        while self.reaction_definitions.len() > 0
            invariant
                self.reaction_definitions@ == old(self).reaction_definitions@.skip(i as int),
                n == old(self).reaction_definitions@.len(),
                i + self.reaction_definitions@.len() == n,
                kept@ == without_reaction_named(old(self).reaction_definitions@.take(i as int), name@),
                *self == (RequirementsStore { reaction_definitions: self.reaction_definitions, ..*old(self) }),
            decreases self.reaction_definitions.len(),
        {
            let d = self.reaction_definitions.remove(0);
            proof {
                let t = old(self).reaction_definitions@.take(i as int + 1);
                assert(t.drop_last() =~= old(self).reaction_definitions@.take(i as int));
                assert(t.last() == old(self).reaction_definitions@[i as int]);
                assert(self.reaction_definitions@ =~= old(self).reaction_definitions@.skip(i as int + 1));
            }
            if !str_eq(d.name.as_str(), name) {
                kept.push(d);
            }
            i = i + 1;
        }
        proof {
            assert(old(self).reaction_definitions@.take(n as int) =~= old(self).reaction_definitions@);
        }
        self.reaction_definitions = kept;
    }

    /// Removes the type definitions named `name`, unless a requirement has
    /// the type whose key is `name`: then nothing changes and the message
    /// says so.
    pub fn delete_type_definition(&mut self, name: &str) -> (r: Result<(), String>)
        ensures
            r is Err <==> type_in_use(old(self).requirements@, name@),
            r matches Err(m) ==> m@ == "Cannot delete '"@ + name@ + "': type is in use by existing requirements"@,
            r is Err ==> *final(self) == *old(self),
            r is Ok ==> final(self).type_definitions@ == without_type_named(old(self).type_definitions@, name@),
            *final(self) == (RequirementsStore { type_definitions: final(self).type_definitions, ..*old(self) }),
    {
        let mut j: usize = 0;
        while j < self.requirements.len()
            invariant
                j <= self.requirements@.len(),
                forall|a: int| 0 <= a < j ==> req_type_key((#[trigger] self.requirements@[a]).req_type) != name@,
            decreases self.requirements.len() - j,
        {
            let key = self.requirements[j].req_type.key_text();
            if str_eq(key.as_str(), name) {
                let mut m = owned("Cannot delete '");
                m.append(name);
                m.append("': type is in use by existing requirements");
                return Err(m);
            }
            j = j + 1;
        }
        let mut kept: Vec<CustomTypeDefinition> = Vec::new();
        let n = self.type_definitions.len();
        let mut i: usize = 0;
        proof {
            assert(old(self).type_definitions@.take(0) =~= Seq::<CustomTypeDefinition>::empty());
        }
        while self.type_definitions.len() > 0
            invariant
                self.type_definitions@ == old(self).type_definitions@.skip(i as int),
                n == old(self).type_definitions@.len(),
                i + self.type_definitions@.len() == n,
                kept@ == without_type_named(old(self).type_definitions@.take(i as int), name@),
                *self == (RequirementsStore { type_definitions: self.type_definitions, ..*old(self) }),
            decreases self.type_definitions.len(),
        {
            let d = self.type_definitions.remove(0);
            proof {
                let t = old(self).type_definitions@.take(i as int + 1);
                assert(t.drop_last() =~= old(self).type_definitions@.take(i as int));
                assert(t.last() == old(self).type_definitions@[i as int]);
                assert(self.type_definitions@ =~= old(self).type_definitions@.skip(i as int + 1));
            }
            if !str_eq(d.name.as_str(), name) {
                kept.push(d);
            }
            i = i + 1;
        }
        proof {
            assert(old(self).type_definitions@.take(n as int) =~= old(self).type_definitions@);
        }
        self.type_definitions = kept;
        Ok(())
    }
}

} // verus!

verus! {

/// The fields of the custom field form.
pub struct CustomFieldForm {
    /// Field name
    pub name: String,
    /// Display label
    pub label: String,
    /// Field type
    pub field_type: CustomFieldType,
    /// Whether the field must be filled in
    pub required: bool,
    /// Options of a select field, separated by commas
    pub options: String,
    /// Default value (empty: none)
    pub default_value: String,
}

/// Definition `d` is the field that form `f` describes: its name, label,
/// type and whether it is required; for a select field the items of its
/// option list, for another type no options; an empty default as none; no
/// description; order 0.
pub open spec fn field_made(d: CustomFieldDefinition, f: CustomFieldForm) -> bool {
    &&& d.name@ == f.name@
    &&& d.label@ == f.label@
    &&& d.field_type == f.field_type
    &&& d.required == f.required
    &&& views(d.options@) == if f.field_type == CustomFieldType::Select {
        list_items(f.options@)
    } else {
        Seq::empty()
    }
    &&& opt_view(d.default_value) == nonempty_text(f.default_value@)
    &&& d.description is None
    &&& d.order == 0
}

impl CustomFieldForm {
    /// Saves the form into the fields of the type being edited, which needs
    /// a name and a label (false, with nothing changed, otherwise): it
    /// replaces the field at `editing_idx`, or is appended.
    pub fn save_into(&self, fields: &mut Vec<CustomFieldDefinition>, editing_idx: Option<usize>) -> (r: bool)
        requires
            editing_idx matches Some(i) ==> i < old(fields)@.len(),
        ensures
            r == (self.name@.len() > 0 && self.label@.len() > 0),
            !r ==> final(fields)@ == old(fields)@,
            r ==> match editing_idx {
                Some(i) => final(fields)@ == old(fields)@.update(i as int, final(fields)@[i as int]) && field_made(
                    final(fields)@[i as int],
                    *self,
                ),
                None => final(fields)@.drop_last() == old(fields)@ && final(fields)@.len() == old(fields)@.len() + 1
                    && field_made(final(fields)@.last(), *self),
            },
    {
        if self.name.unicode_len() == 0 || self.label.unicode_len() == 0 {
            return false;
        }
        let options = if self.field_type == CustomFieldType::Select {
            split_list(self.options.as_str())
        } else {
            Vec::new()
        };
        let field = CustomFieldDefinition {
            name: self.name.clone(),
            label: self.label.clone(),
            field_type: self.field_type,
            required: self.required,
            options,
            default_value: if self.default_value.unicode_len() == 0 {
                None
            } else {
                Some(self.default_value.clone())
            },
            description: None,
            order: 0,
        };
        proof {
            if self.field_type != CustomFieldType::Select {
                assert(views(field.options@) =~= Seq::<Seq<char>>::empty());
            }
        }
        match editing_idx {
            Some(i) => {
                fields.set(i, field);
            },
            None => {
                fields.push(field);
                proof {
                    assert(fields@.drop_last() =~= old(fields)@);
                }
            },
        }
        true
    }
}

} // verus!
