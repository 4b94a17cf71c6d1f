//! The requirement form: what it holds, how it is filled from a requirement,
//! and how an edit made in it is applied to the store, with every change
//! recorded in the requirement's history.
use vstd::prelude::*;
use vstd::string::*;
use crate::catalog::first_feature_with_name;
use crate::model::{
    first_type_with_name, priority_text, req_type_key, req_type_text, FeatureDefinition, FieldChange,
    RequirementPriority, RequirementStatus, RequirementType, RequirementTypeDefinition,
};
use crate::numbering::{counters_at_most, generate, generate_with_override, numbering_of, renumbered, Numbering};
use crate::model::RelationshipType;
use crate::store::{added_rel, can_add_rel, touched_inverse};
use crate::order::text_order;
use crate::requirement::{
    effective_status_text, field_names_distinct, find_field, first_field, has_field, valid_prefix, Requirement,
};
use crate::store::RequirementsStore;
use crate::typedefs::type_statuses;
use crate::text::{
    contains_view, join_texts, joined, list_items, lowercase, opt_is, opt_view, owned, split_list, trim_str, trimmed,
    uppercase, vec_contains_str, views,
};

verus! {

/// The fields of the requirement form.
pub struct RequirementForm {
    /// Title
    pub title: String,
    /// Description
    pub description: String,
    /// Standard status
    pub status: RequirementStatus,
    /// Status text (a standard or a custom status)
    pub status_string: String,
    /// Priority
    pub priority: RequirementPriority,
    /// Type
    pub req_type: RequirementType,
    /// Owner
    pub owner: String,
    /// Feature
    pub feature: String,
    /// Tags, separated by commas
    pub tags: String,
    /// Prefix override (empty: none)
    pub prefix: String,
    /// Custom field values, as (name, value)
    pub custom_fields: Vec<(String, String)>,
}

/// Whether two lists of custom field values hold the same fields with the
/// same values (the first entry of a name counts).
pub open spec fn same_fields(a: Seq<(String, String)>, b: Seq<(String, String)>) -> bool {
    &&& forall|k: Seq<char>| #[trigger] has_field(a, k) <==> has_field(b, k)
    &&& forall|k: Seq<char>, i: int, j: int|
        #![trigger first_field(a, k, i), first_field(b, k, j)]
        first_field(a, k, i) && first_field(b, k, j) ==> a[i].1@ == b[j].1@
}

/// Whether two forms hold the same values.
pub open spec fn same_form(a: RequirementForm, b: RequirementForm) -> bool {
    &&& a.title@ == b.title@
    &&& a.description@ == b.description@
    &&& a.status_string@ == b.status_string@
    &&& a.priority == b.priority
    &&& a.req_type == b.req_type
    &&& a.owner@ == b.owner@
    &&& a.feature@ == b.feature@
    &&& a.tags@ == b.tags@
    &&& a.prefix@ == b.prefix@
    &&& same_fields(a.custom_fields@, b.custom_fields@)
}

/// The text of an optional string, empty when there is none.
pub open spec fn text_or_empty(o: Option<Seq<char>>) -> Seq<char> {
    match o {
        Some(s) => s,
        None => Seq::empty(),
    }
}

/// A copy of a list of custom field values.
fn copy_fields(v: &Vec<(String, String)>) -> (r: Vec<(String, String)>)
    ensures
        r@.len() == v@.len(),
        forall|i: int| 0 <= i < v@.len() ==> (#[trigger] r@[i]).0@ == v@[i].0@ && r@[i].1@ == v@[i].1@,
{
    let mut r: Vec<(String, String)> = Vec::new();
    let mut i: usize = 0;
    while i < v.len()
        invariant
            i <= v@.len(),
            r@.len() == i,
            forall|j: int| 0 <= j < i ==> (#[trigger] r@[j]).0@ == v@[j].0@ && r@[j].1@ == v@[j].1@,
        decreases v.len() - i,
    {
        let k = v[i].0.clone();
        let x = v[i].1.clone();
        r.push((k, x));
        i = i + 1;
    }
    r
}

/// Whether two lists of custom field values hold the same fields with the
/// same values.
pub fn same_custom_fields(a: &Vec<(String, String)>, b: &Vec<(String, String)>) -> (r: bool)
    ensures
        r == same_fields(a@, b@),
{
    let mut i: usize = 0;
    while i < a.len()
        invariant
            i <= a@.len(),
            forall|i2: int| 0 <= i2 < i ==> has_field(b@, #[trigger] a@[i2].0@),
            forall|k: Seq<char>, i2: int, j2: int|
                #![trigger first_field(a@, k, i2), first_field(b@, k, j2)]
                first_field(a@, k, i2) && first_field(b@, k, j2) && i2 < i ==> a@[i2].1@ == b@[j2].1@,
        decreases a.len() - i,
    {
        let fa = find_field(a, a[i].0.as_str());
        let fb = find_field(b, a[i].0.as_str());
        proof {
            assert(has_field(a@, a@[i as int].0@));
        }
        match (fa, fb) {
            (Some(ia), Some(jb)) => {
                if a[ia].1 != b[jb].1 {
                    return false;
                }
                proof {
                    assert forall|k: Seq<char>, i2: int, j2: int|
                        #![trigger first_field(a@, k, i2), first_field(b@, k, j2)]
                        first_field(a@, k, i2) && first_field(b@, k, j2) && i2 < i + 1 implies a@[i2].1@
                        == b@[j2].1@ by {
                        if i2 == i {
                            assert(i2 == ia);
                            assert(j2 == jb);
                        }
                    }
                }
            },
            (Some(ia), None) => {
                return false;
            },
            (None, _) => {
                return false;
            },
        }
        i = i + 1;
    }
    let mut j: usize = 0;
    while j < b.len()
        invariant
            j <= b@.len(),
            forall|j2: int| 0 <= j2 < j ==> has_field(a@, #[trigger] b@[j2].0@),
        decreases b.len() - j,
    {
        match find_field(a, b[j].0.as_str()) {
            Some(_) => {},
            None => {
                return false;
            },
        }
        j = j + 1;
    }
    proof {
        assert forall|k: Seq<char>| #[trigger] has_field(a@, k) <==> has_field(b@, k) by {
            if has_field(a@, k) {
                let i2 = choose|i2: int| 0 <= i2 < a@.len() && (#[trigger] a@[i2]).0@ == k;
                assert(has_field(b@, a@[i2].0@));
            }
            if has_field(b@, k) {
                let j2 = choose|j2: int| 0 <= j2 < b@.len() && (#[trigger] b@[j2]).0@ == k;
                assert(has_field(a@, b@[j2].0@));
            }
        }
        assert forall|k: Seq<char>, i2: int, j2: int|
            #![trigger first_field(a@, k, i2), first_field(b@, k, j2)]
            first_field(a@, k, i2) && first_field(b@, k, j2) implies a@[i2].1@ == b@[j2].1@ by {
        }
    }
    true
}

// ---------------------------------------------------------------------------
// Change records
// ---------------------------------------------------------------------------

/// A field change as (field name, value before, value after).
pub type ChangeView = (Seq<char>, Seq<char>, Seq<char>);

/// The views of a list of field changes.
pub open spec fn change_views(c: Seq<FieldChange>) -> Seq<ChangeView> {
    c.map_values(|x: FieldChange| (x.field_name@, x.old_value@, x.new_value@))
}

/// One change of field `name` when `changed`, else none.
pub open spec fn change_if(changed: bool, name: Seq<char>, before: Seq<char>, after: Seq<char>) -> Seq<ChangeView> {
    if changed {
        seq![(name, before, after)]
    } else {
        Seq::empty()
    }
}

/// Appends a change of field `name` from `before` to `after` when `changed`.
fn note_change(changes: &mut Vec<FieldChange>, changed: bool, name: &str, before: String, after: String)
    ensures
        change_views(final(changes)@) == change_views(old(changes)@) + change_if(changed, name@, before@, after@),
{
    if changed {
        changes.push(FieldChange { field_name: owned(name), old_value: before, new_value: after });
        proof {
            assert(change_views(changes@) =~= change_views(old(changes)@) + change_if(changed, name@, before@, after@));
        }
    } else {
        proof {
            assert(change_views(changes@) =~= change_views(old(changes)@) + change_if(changed, name@, before@, after@));
        }
    }
}

/// The value of custom field `k` in `v` (its first entry), empty when `v`
/// has none.
pub open spec fn field_value(v: Seq<(String, String)>, k: Seq<char>) -> Seq<char> {
    if has_field(v, k) {
        v[choose|i: int| first_field(v, k, i)].1@
    } else {
        Seq::empty()
    }
}

/// The changes of custom field values from `before` to `after`: for each
/// entry of `after` in order whose value differs from the value of that
/// field in `before`.
pub open spec fn field_value_changes(before: Seq<(String, String)>, after: Seq<(String, String)>) -> Seq<ChangeView>
    decreases after.len(),
{
    if after.len() == 0 {
        Seq::empty()
    } else {
        let k = after.last().0@;
        field_value_changes(before, after.drop_last()) + change_if(
            after.last().1@ != field_value(before, k),
            k,
            field_value(before, k),
            after.last().1@,
        )
    }
}

/// The value of custom field `name` in `v`, empty when `v` has none.
fn field_value_of(v: &Vec<(String, String)>, name: &str) -> (r: String)
    ensures
        r@ == field_value(v@, name@),
{
    match find_field(v, name) {
        Some(i) => {
            proof {
                let j = choose|j: int| first_field(v@, name@, j);
                assert(j == i as int) by {
                    if j < i {
                        assert(v@[j].0@ != name@);
                    } else if i < j {
                        assert(v@[i as int].0@ != name@);
                    }
                }
            }
            v[i].1.clone()
        },
        None => String::new(),
    }
}

/// Appends the changes of custom field values from `before` to `after`.
fn note_field_changes(changes: &mut Vec<FieldChange>, before: &Vec<(String, String)>, after: &Vec<(String, String)>)
    ensures
        change_views(final(changes)@) == change_views(old(changes)@) + field_value_changes(before@, after@),
{
    let mut i: usize = 0;
    proof {
        assert(after@.take(0) =~= Seq::<(String, String)>::empty());
        assert(change_views(changes@) =~= change_views(old(changes)@) + field_value_changes(before@, after@.take(0)));
    }
    while i < after.len()
        invariant
            i <= after@.len(),
            change_views(changes@) == change_views(old(changes)@) + field_value_changes(before@, after@.take(i as int)),
        decreases after.len() - i,
    {
        let ghost mid = changes@;
        let old_value = field_value_of(before, after[i].0.as_str());
        let changed = after[i].1 != old_value;
        note_change(changes, changed, after[i].0.as_str(), old_value, after[i].1.clone());
        proof {
            let t = after@.take(i as int + 1);
            assert(t.drop_last() =~= after@.take(i as int));
            assert(t.last() == after@[i as int]);
            assert(change_views(changes@) =~= change_views(old(changes)@) + field_value_changes(before@, t));
        }
        i = i + 1;
    }
    proof {
        assert(after@.take(after@.len() as int) =~= after@);
    }
}

// ---------------------------------------------------------------------------
// Tags
// ---------------------------------------------------------------------------

/// The texts of `s`, each once, in the order they first occur.
pub open spec fn distinct_items(s: Seq<Seq<char>>) -> Seq<Seq<char>>
    decreases s.len(),
{
    if s.len() == 0 {
        Seq::empty()
    } else {
        let d = distinct_items(s.drop_last());
        if d.contains(s.last()) {
            d
        } else {
            d.push(s.last())
        }
    }
}

/// The strings of `v`, each once, in the order they first occur.
fn distinct_strings(v: Vec<String>) -> (r: Vec<String>)
    ensures
        views(r@) == distinct_items(views(v@)),
{
    let mut r: Vec<String> = Vec::new();
    let mut i: usize = 0;
    proof {
        assert(views(v@).take(0) =~= Seq::<Seq<char>>::empty());
        assert(views(r@) =~= Seq::<Seq<char>>::empty());
    }
    while i < v.len()
        invariant
            i <= v@.len(),
            views(r@) == distinct_items(views(v@).take(i as int)),
        decreases v.len() - i,
    {
        let ghost before = r@;
        proof {
            let t = views(v@).take(i as int + 1);
            assert(t.drop_last() =~= views(v@).take(i as int));
            assert(t.last() == v@[i as int]@);
        }
        if !vec_contains_str(&r, v[i].as_str()) {
            proof {
                assert(!views(before).contains(v@[i as int]@)) by {
                    if views(before).contains(v@[i as int]@) {
                        let k = choose|k: int| 0 <= k < views(before).len() && views(before)[k] == v@[i as int]@;
                        assert(before[k]@ == v@[i as int]@);
                    }
                }
            }
            r.push(v[i].clone());
            proof {
                assert(views(r@) =~= views(before).push(v@[i as int]@));
            }
        } else {
            proof {
                let k = choose|k: int| 0 <= k < before.len() && #[trigger] before[k]@ == v@[i as int]@;
                assert(views(before)[k] == v@[i as int]@);
            }
        }
        i = i + 1;
    }
    proof {
        assert(views(v@).take(v@.len() as int) =~= views(v@));
    }
    r
}

/// Whether two lists of strings hold the same texts (in any order, any
/// number of times).
pub(crate) fn same_texts(a: &Vec<String>, b: &Vec<String>) -> (r: bool)
    ensures
        r == (views(a@).to_set() == views(b@).to_set()),
{
    let mut i: usize = 0;
    while i < a.len()
        invariant
            i <= a@.len(),
            forall|k: int| 0 <= k < i ==> contains_view(b@, #[trigger] a@[k]@),
        decreases a.len() - i,
    {
        if !vec_contains_str(b, a[i].as_str()) {
            proof {
                assert(views(a@).to_set().contains(a@[i as int]@)) by {
                    assert(views(a@)[i as int] == a@[i as int]@);
                }
                assert(!views(b@).to_set().contains(a@[i as int]@)) by {
                    if views(b@).contains(a@[i as int]@) {
                        let k = choose|k: int| 0 <= k < views(b@).len() && views(b@)[k] == a@[i as int]@;
                        assert(b@[k]@ == a@[i as int]@);
                    }
                }
            }
            return false;
        }
        i = i + 1;
    }
    let mut j: usize = 0;
    while j < b.len()
        invariant
            j <= b@.len(),
            forall|k: int| 0 <= k < j ==> contains_view(a@, #[trigger] b@[k]@),
        decreases b.len() - j,
    {
        if !vec_contains_str(a, b[j].as_str()) {
            proof {
                assert(views(b@).to_set().contains(b@[j as int]@)) by {
                    assert(views(b@)[j as int] == b@[j as int]@);
                }
                assert(!views(a@).to_set().contains(b@[j as int]@)) by {
                    if views(a@).contains(b@[j as int]@) {
                        let k = choose|k: int| 0 <= k < views(a@).len() && views(a@)[k] == b@[j as int]@;
                        assert(a@[k]@ == b@[j as int]@);
                    }
                }
            }
            return false;
        }
        j = j + 1;
    }
    proof {
        assert forall|x: Seq<char>| views(a@).to_set().contains(x) <==> views(b@).to_set().contains(x) by {
            if views(a@).contains(x) {
                let k = choose|k: int| 0 <= k < views(a@).len() && views(a@)[k] == x;
                assert(contains_view(b@, a@[k]@));
                let w = choose|w: int| 0 <= w < b@.len() && #[trigger] b@[w]@ == a@[k]@;
                assert(views(b@)[w] == x);
            }
            if views(b@).contains(x) {
                let k = choose|k: int| 0 <= k < views(b@).len() && views(b@)[k] == x;
                assert(contains_view(a@, b@[k]@));
                let w = choose|w: int| 0 <= w < a@.len() && #[trigger] a@[w]@ == b@[k]@;
                assert(views(a@)[w] == x);
            }
        }
        assert(views(a@).to_set() =~= views(b@).to_set());
    }
    true
}

// ---------------------------------------------------------------------------
// Applying an edit
// ---------------------------------------------------------------------------

/// The prefix override an edit asks for: none when the prefix text is blank,
/// else what `Requirement::validate_prefix` makes of it (none when invalid).
pub open spec fn edit_prefix(f: RequirementForm) -> Option<Seq<char>> {
    if trimmed(f.prefix@).len() == 0 {
        None
    } else {
        valid_prefix(f.prefix@)
    }
}

/// Whether an edit of `r` asks for a new readable identifier: its prefix
/// override changes, or it has none and its feature or its type changes.
pub open spec fn edit_needs_new_id(r: Requirement, f: RequirementForm) -> bool {
    let p = edit_prefix(f);
    p != opt_view(r.prefix_override) || (p is None && (f.feature@ != r.feature@ || f.req_type != r.req_type))
}

/// The prefix of the first feature named `name` (compared in lowercase).
pub open spec fn named_feature_prefix(v: Seq<FeatureDefinition>, name: Seq<char>) -> Option<Seq<char>> {
    if exists|i: int| first_feature_with_name(v, lowercase(name), i) {
        Some(v[choose|i: int| first_feature_with_name(v, lowercase(name), i)].prefix@)
    } else {
        None
    }
}

/// The prefix configured for type `t`: that of the first configured type
/// named like its display text (compared in lowercase).
pub open spec fn configured_type_prefix(v: Seq<RequirementTypeDefinition>, t: RequirementType) -> Option<Seq<char>> {
    if exists|i: int| first_type_with_name(v, lowercase(req_type_text(t)), i) {
        Some(v[choose|i: int| first_type_with_name(v, lowercase(req_type_text(t)), i)].prefix@)
    } else {
        None
    }
}

/// The identifier an edit generates in store `s`, and the numbering after
/// it: from the edit's prefix override when it has one, else from the prefix
/// of its feature and that of its type.
pub open spec fn edit_new_id(s: RequirementsStore, f: RequirementForm) -> (Seq<char>, Numbering) {
    match edit_prefix(f) {
        Some(p) => generate_with_override(numbering_of(s), s.id_config.numbering, s.id_config.digits, p),
        None => generate(
            numbering_of(s),
            s.id_config.format,
            s.id_config.numbering,
            s.id_config.digits,
            named_feature_prefix(s.features@, f.feature@),
            configured_type_prefix(s.id_config.requirement_types@, f.req_type),
        ),
    }
}

/// Whether a requirement other than `uuid` has the readable identifier `id`.
pub open spec fn taken_by_other(s: Seq<Requirement>, uuid: u128, id: Seq<char>) -> bool {
    exists|i: int| 0 <= i < s.len() && (#[trigger] s[i]).id != uuid && opt_is(s[i].spec_id, id)
}

/// The allowed prefixes after an edit: when the prefix text is not blank and
/// prefixes are not restricted, its trimmed text in uppercase is added unless
/// it is there, and the list sorted; otherwise the list stays.
pub open spec fn prefix_listed(s: RequirementsStore, after: Seq<String>, f: RequirementForm) -> bool {
    let p = uppercase(trimmed(f.prefix@));
    if trimmed(f.prefix@).len() > 0 && !s.restrict_prefixes && !contains_view(s.allowed_prefixes@, p) {
        views(after) == views(s.allowed_prefixes@).push(p).sort_by(text_order())
    } else {
        after == s.allowed_prefixes@
    }
}

/// The tags an edit gives: the items of its comma-separated tag text, each
/// once.
pub open spec fn edit_tags(f: RequirementForm) -> Seq<Seq<char>> {
    distinct_items(list_items(f.tags@))
}

/// Whether an edit changes the tags of `r` (as sets).
pub open spec fn tags_differ(r: Requirement, f: RequirementForm) -> bool {
    edit_tags(f).to_set() != views(r.tags@).to_set()
}

/// The changes an edit records for the fields it sets in place, in order:
/// title, description, status, custom field values, priority, type, owner
/// and feature.
pub open spec fn head_changes(r: Requirement, f: RequirementForm) -> Seq<ChangeView> {
    text_changes(r, f) + value_changes(r, f)
}

/// The changes an edit records for tags, prefix override and readable
/// identifier (`new_id`, when one was generated), in that order.
pub open spec fn tail_changes(r: Requirement, f: RequirementForm, new_id: Option<Seq<char>>) -> Seq<ChangeView> {
    let np = edit_prefix(f);
    let old_id = text_or_empty(opt_view(r.spec_id));
    change_if(tags_differ(r, f), "tags"@, joined(views(r.tags@), ", "@), joined(edit_tags(f), ", "@))
        + change_if(
        np != opt_view(r.prefix_override),
        "prefix_override"@,
        text_or_empty(opt_view(r.prefix_override)),
        text_or_empty(np),
    ) + match new_id {
        Some(id) => change_if(old_id != id, "spec_id"@, old_id, id),
        None => Seq::empty(),
    }
}

/// The changes an edit records, in order: title, description, status,
/// custom field values, priority, type, owner, feature, tags, prefix
/// override and readable identifier (`new_id`, when one was generated).
pub open spec fn edit_changes(r: Requirement, f: RequirementForm, new_id: Option<Seq<char>>) -> Seq<ChangeView> {
    head_changes(r, f) + tail_changes(r, f, new_id)
}

/// The status of `e` is that of `r` set from the text `t`: a standard
/// status by name, with no custom status; any other text as custom status,
/// the status kept.
pub open spec fn status_set_to(r: Requirement, e: Requirement, t: Seq<char>) -> bool {
    if t == "Draft"@ {
        e.status == RequirementStatus::Draft && e.custom_status is None
    } else if t == "Approved"@ {
        e.status == RequirementStatus::Approved && e.custom_status is None
    } else if t == "Completed"@ {
        e.status == RequirementStatus::Completed && e.custom_status is None
    } else if t == "Rejected"@ {
        e.status == RequirementStatus::Rejected && e.custom_status is None
    } else {
        e.status == r.status && opt_is(e.custom_status, t)
    }
}

/// Requirement `e` is `r` with the fields the form sets in place taken from
/// `f`: title, description, status, custom field values, priority, type,
/// owner and feature.
pub open spec fn head_applied(r: Requirement, e: Requirement, f: RequirementForm) -> bool {
    &&& e.title@ == f.title@
    &&& e.description@ == f.description@
    &&& if f.status_string@ != effective_status_text(r) {
        status_set_to(r, e, f.status_string@)
    } else {
        e.status == r.status && e.custom_status == r.custom_status
    }
    &&& e.custom_fields@.len() == f.custom_fields@.len()
    &&& forall|i: int|
        0 <= i < f.custom_fields@.len() ==> (#[trigger] e.custom_fields@[i]).0@ == f.custom_fields@[i].0@
            && e.custom_fields@[i].1@ == f.custom_fields@[i].1@
    &&& e.priority == f.priority
    &&& e.req_type == f.req_type
    &&& e.owner@ == f.owner@
    &&& e.feature@ == f.feature@
}

/// Requirement `e` is `r` edited with form `f` by `author` (with `new_id`
/// as its new readable identifier when one was generated): each field takes
/// the form's value, the identifiers, dates, links, comments and archive
/// mark stay, and when anything changed a history entry by `author` records
/// the changes.
pub open spec fn edited(
    r: Requirement,
    e: Requirement,
    f: RequirementForm,
    new_id: Option<Seq<char>>,
    author: Seq<char>,
) -> bool {
    let np = edit_prefix(f);
    let changes = edit_changes(r, f, new_id);
    &&& head_applied(r, e, f)
    &&& if tags_differ(r, f) {
        views(e.tags@) == edit_tags(f)
    } else {
        e.tags == r.tags
    }
    &&& if np != opt_view(r.prefix_override) {
        opt_view(e.prefix_override) == np
    } else {
        e.prefix_override == r.prefix_override
    }
    &&& match new_id {
        Some(id) => if text_or_empty(opt_view(r.spec_id)) != id {
            opt_is(e.spec_id, id)
        } else {
            e.spec_id == r.spec_id
        },
        None => e.spec_id == r.spec_id,
    }
    &&& e.id == r.id
    &&& e.created_at == r.created_at
    &&& e.dependencies == r.dependencies
    &&& e.relationships == r.relationships
    &&& e.comments == r.comments
    &&& e.archived == r.archived
    &&& e.urls == r.urls
    &&& if changes.len() == 0 {
        e.history == r.history && e.modified_at == r.modified_at
    } else {
        &&& e.history@.drop_last() == r.history@
        &&& e.history@.len() == r.history@.len() + 1
        &&& e.history@.last().author@ == author
        &&& change_views(e.history@.last().changes@) == changes
    }
}

/// Whether `n` names a field the requirement form sets in place or the
/// edit derives: title, description, status, priority, type, owner,
/// feature, tags, prefix override or readable identifier.
pub open spec fn is_standard_field(n: Seq<char>) -> bool {
    ||| n == "title"@
    ||| n == "description"@
    ||| n == "status"@
    ||| n == "priority"@
    ||| n == "type"@
    ||| n == "owner"@
    ||| n == "feature"@
    ||| n == "tags"@
    ||| n == "prefix_override"@
    ||| n == "spec_id"@
}

/// The value of standard field `n` of requirement `r` as its history
/// writes it.
pub open spec fn recorded_text(r: Requirement, n: Seq<char>) -> Seq<char> {
    if n == "title"@ {
        r.title@
    } else if n == "description"@ {
        r.description@
    } else if n == "status"@ {
        effective_status_text(r)
    } else if n == "priority"@ {
        priority_text(r.priority)
    } else if n == "type"@ {
        req_type_key(r.req_type)
    } else if n == "owner"@ {
        r.owner@
    } else if n == "feature"@ {
        r.feature@
    } else if n == "tags"@ {
        joined(views(r.tags@), ", "@)
    } else if n == "prefix_override"@ {
        text_or_empty(opt_view(r.prefix_override))
    } else {
        text_or_empty(opt_view(r.spec_id))
    }
}

proof fn lemma_concat_contains(a: Seq<ChangeView>, b: Seq<ChangeView>, x: ChangeView)
    ensures
        (a + b).contains(x) <==> a.contains(x) || b.contains(x),
{
    if (a + b).contains(x) {
        let i = choose|i: int| 0 <= i < (a + b).len() && (a + b)[i] == x;
        if i < a.len() {
            assert(a[i] == x);
        } else {
            assert(b[i - a.len()] == x);
        }
    }
    if a.contains(x) {
        let i = choose|i: int| 0 <= i < a.len() && a[i] == x;
        assert((a + b)[i] == x);
    }
    if b.contains(x) {
        let i = choose|i: int| 0 <= i < b.len() && b[i] == x;
        assert((a + b)[a.len() + i] == x);
    }
}

proof fn lemma_change_if_contains(changed: bool, name: Seq<char>, before: Seq<char>, after: Seq<char>, x: ChangeView)
    ensures
        change_if(changed, name, before, after).contains(x) <==> changed && x == (name, before, after),
{
    if changed {
        assert(change_if(changed, name, before, after)[0] == (name, before, after));
    }
}

proof fn lemma_value_change_names(before: Seq<(String, String)>, after: Seq<(String, String)>, x: ChangeView)
    requires
        field_value_changes(before, after).contains(x),
    ensures
        exists|i: int| 0 <= i < after.len() && (#[trigger] after[i]).0@ == x.0,
    decreases after.len(),
{
    let k = after.last().0@;
    let c = change_if(after.last().1@ != field_value(before, k), k, field_value(before, k), after.last().1@);
    lemma_concat_contains(field_value_changes(before, after.drop_last()), c, x);
    lemma_change_if_contains(after.last().1@ != field_value(before, k), k, field_value(before, k), after.last().1@, x);
    if field_value_changes(before, after.drop_last()).contains(x) {
        lemma_value_change_names(before, after.drop_last(), x);
        let i = choose|i: int| 0 <= i < after.drop_last().len() && (#[trigger] after.drop_last()[i]).0@ == x.0;
        assert(after[i] == after.drop_last()[i]);
    } else {
        assert(after[after.len() - 1].0@ == x.0);
    }
}

/// The changes an edit records, slot by slot.
proof fn lemma_edit_change_members(r: Requirement, f: RequirementForm, new_id: Option<Seq<char>>, x: ChangeView)
    ensures
        edit_changes(r, f, new_id).contains(x) <==> {
            let np = edit_prefix(f);
            let old_id = text_or_empty(opt_view(r.spec_id));
            ||| change_if(f.title@ != r.title@, "title"@, r.title@, f.title@).contains(x)
            ||| change_if(f.description@ != r.description@, "description"@, r.description@, f.description@).contains(x)
            ||| change_if(
                f.status_string@ != effective_status_text(r),
                "status"@,
                effective_status_text(r),
                f.status_string@,
            ).contains(x)
            ||| field_value_changes(r.custom_fields@, f.custom_fields@).contains(x)
            ||| change_if(f.priority != r.priority, "priority"@, priority_text(r.priority), priority_text(f.priority)).contains(x)
            ||| change_if(f.req_type != r.req_type, "type"@, req_type_key(r.req_type), req_type_key(f.req_type)).contains(x)
            ||| change_if(f.owner@ != r.owner@, "owner"@, r.owner@, f.owner@).contains(x)
            ||| change_if(f.feature@ != r.feature@, "feature"@, r.feature@, f.feature@).contains(x)
            ||| change_if(tags_differ(r, f), "tags"@, joined(views(r.tags@), ", "@), joined(edit_tags(f), ", "@)).contains(x)
            ||| change_if(
                np != opt_view(r.prefix_override),
                "prefix_override"@,
                text_or_empty(opt_view(r.prefix_override)),
                text_or_empty(np),
            ).contains(x)
            ||| match new_id {
                Some(id) => change_if(old_id != id, "spec_id"@, old_id, id).contains(x),
                None => false,
            }
        },
{
    let np = edit_prefix(f);
    let old_id = text_or_empty(opt_view(r.spec_id));
    let ct = change_if(f.title@ != r.title@, "title"@, r.title@, f.title@);
    let cd = change_if(f.description@ != r.description@, "description"@, r.description@, f.description@);
    let cs = change_if(f.status_string@ != effective_status_text(r), "status"@, effective_status_text(r), f.status_string@);
    let fv = field_value_changes(r.custom_fields@, f.custom_fields@);
    let cp = change_if(f.priority != r.priority, "priority"@, priority_text(r.priority), priority_text(f.priority));
    let cy = change_if(f.req_type != r.req_type, "type"@, req_type_key(r.req_type), req_type_key(f.req_type));
    let co = change_if(f.owner@ != r.owner@, "owner"@, r.owner@, f.owner@);
    let cf = change_if(f.feature@ != r.feature@, "feature"@, r.feature@, f.feature@);
    let cg = change_if(tags_differ(r, f), "tags"@, joined(views(r.tags@), ", "@), joined(edit_tags(f), ", "@));
    let cx = change_if(
        np != opt_view(r.prefix_override),
        "prefix_override"@,
        text_or_empty(opt_view(r.prefix_override)),
        text_or_empty(np),
    );
    let ci = match new_id {
        Some(id) => change_if(old_id != id, "spec_id"@, old_id, id),
        None => Seq::<ChangeView>::empty(),
    };
    assert(text_changes(r, f) == ct + cd + cs);
    assert(value_changes(r, f) == fv + cp + cy + co + cf);
    assert(tail_changes(r, f, new_id) == cg + cx + ci);
    lemma_concat_contains(ct, cd, x);
    lemma_concat_contains(ct + cd, cs, x);
    lemma_concat_contains(fv, cp, x);
    lemma_concat_contains(fv + cp, cy, x);
    lemma_concat_contains(fv + cp + cy, co, x);
    lemma_concat_contains(fv + cp + cy + co, cf, x);
    lemma_concat_contains(cg, cx, x);
    lemma_concat_contains(cg + cx, ci, x);
    lemma_concat_contains(ct + cd + cs, fv + cp + cy + co + cf, x);
    lemma_concat_contains(ct + cd + cs + (fv + cp + cy + co + cf), cg + cx + ci, x);
}

proof fn lemma_standard_names_distinct()
    ensures
        "title"@ != "description"@ && "title"@ != "status"@ && "title"@ != "priority"@ && "title"@ != "type"@
            && "title"@ != "owner"@ && "title"@ != "feature"@ && "title"@ != "tags"@ && "title"@ != "prefix_override"@
            && "title"@ != "spec_id"@,
        "description"@ != "status"@ && "description"@ != "priority"@ && "description"@ != "type"@ && "description"@
            != "owner"@ && "description"@ != "feature"@ && "description"@ != "tags"@ && "description"@
            != "prefix_override"@ && "description"@ != "spec_id"@,
        "status"@ != "priority"@ && "status"@ != "type"@ && "status"@ != "owner"@ && "status"@ != "feature"@
            && "status"@ != "tags"@ && "status"@ != "prefix_override"@ && "status"@ != "spec_id"@,
        "priority"@ != "type"@ && "priority"@ != "owner"@ && "priority"@ != "feature"@ && "priority"@ != "tags"@
            && "priority"@ != "prefix_override"@ && "priority"@ != "spec_id"@,
        "type"@ != "owner"@ && "type"@ != "feature"@ && "type"@ != "tags"@ && "type"@ != "prefix_override"@ && "type"@
            != "spec_id"@,
        "owner"@ != "feature"@ && "owner"@ != "tags"@ && "owner"@ != "prefix_override"@ && "owner"@ != "spec_id"@,
        "feature"@ != "tags"@ && "feature"@ != "prefix_override"@ && "feature"@ != "spec_id"@,
        "tags"@ != "prefix_override"@ && "tags"@ != "spec_id"@,
        "prefix_override"@ != "spec_id"@,
{
    reveal_strlit("title");
    reveal_strlit("description");
    reveal_strlit("status");
    reveal_strlit("priority");
    reveal_strlit("type");
    reveal_strlit("owner");
    reveal_strlit("feature");
    reveal_strlit("tags");
    reveal_strlit("prefix_override");
    reveal_strlit("spec_id");
    assert("title"@.len() == 5 && "description"@.len() == 11 && "status"@.len() == 6 && "priority"@.len() == 8);
    assert("type"@.len() == 4 && "owner"@.len() == 5 && "feature"@.len() == 7 && "tags"@.len() == 4);
    assert("prefix_override"@.len() == 15 && "spec_id"@.len() == 7);
    assert("title"@[0] != "owner"@[0] && "type"@[1] != "tags"@[1] && "feature"@[0] != "spec_id"@[0]);
}

/// An edit that changes a standard field records that change: when the
/// edited requirement's value of field `n` differs from the value it had,
/// the edit added a history entry whose changes include `n` going from the
/// old value to the new one.
pub proof fn lemma_edit_records_change(
    r: Requirement,
    e: Requirement,
    f: RequirementForm,
    new_id: Option<Seq<char>>,
    author: Seq<char>,
    n: Seq<char>,
)
    requires
        edited(r, e, f, new_id, author),
        is_standard_field(n),
        recorded_text(r, n) != recorded_text(e, n),
    ensures
        e.history@.len() == r.history@.len() + 1,
        change_views(e.history@.last().changes@).contains((n, recorded_text(r, n), recorded_text(e, n))),
{
    lemma_standard_names_distinct();
    let x = (n, recorded_text(r, n), recorded_text(e, n));
    let np = edit_prefix(f);
    let old_id = text_or_empty(opt_view(r.spec_id));
    lemma_edit_change_members(r, f, new_id, x);
    if n == "title"@ {
        lemma_change_if_contains(f.title@ != r.title@, "title"@, r.title@, f.title@, x);
    } else if n == "description"@ {
        lemma_change_if_contains(f.description@ != r.description@, "description"@, r.description@, f.description@, x);
    } else if n == "status"@ {
        lemma_change_if_contains(
            f.status_string@ != effective_status_text(r),
            "status"@,
            effective_status_text(r),
            f.status_string@,
            x,
        );
    } else if n == "priority"@ {
        lemma_change_if_contains(f.priority != r.priority, "priority"@, priority_text(r.priority), priority_text(f.priority), x);
    } else if n == "type"@ {
        lemma_change_if_contains(f.req_type != r.req_type, "type"@, req_type_key(r.req_type), req_type_key(f.req_type), x);
    } else if n == "owner"@ {
        lemma_change_if_contains(f.owner@ != r.owner@, "owner"@, r.owner@, f.owner@, x);
    } else if n == "feature"@ {
        lemma_change_if_contains(f.feature@ != r.feature@, "feature"@, r.feature@, f.feature@, x);
    } else if n == "tags"@ {
        lemma_change_if_contains(tags_differ(r, f), "tags"@, joined(views(r.tags@), ", "@), joined(edit_tags(f), ", "@), x);
    } else if n == "prefix_override"@ {
        lemma_change_if_contains(
            np != opt_view(r.prefix_override),
            "prefix_override"@,
            text_or_empty(opt_view(r.prefix_override)),
            text_or_empty(np),
            x,
        );
    } else {
        match new_id {
            Some(id) => {
                lemma_change_if_contains(old_id != id, "spec_id"@, old_id, id, x);
            },
            None => {},
        }
    }
    assert(edit_changes(r, f, new_id).len() > 0);
}

/// An edit records a standard field only as it changed: every change the
/// new history entry holds for field `n` (a standard field that no custom
/// field of the form is named after) goes from the requirement's old value
/// of `n` to its new value.
pub proof fn lemma_edit_records_only_real_changes(
    r: Requirement,
    e: Requirement,
    f: RequirementForm,
    new_id: Option<Seq<char>>,
    author: Seq<char>,
    n: Seq<char>,
    c: ChangeView,
)
    requires
        edited(r, e, f, new_id, author),
        e.history@.len() == r.history@.len() + 1,
        is_standard_field(n),
        forall|i: int| 0 <= i < f.custom_fields@.len() ==> (#[trigger] f.custom_fields@[i]).0@ != n,
        change_views(e.history@.last().changes@).contains(c),
        c.0 == n,
    ensures
        c == (n, recorded_text(r, n), recorded_text(e, n)),
{
    lemma_standard_names_distinct();
    let np = edit_prefix(f);
    let old_id = text_or_empty(opt_view(r.spec_id));
    if edit_changes(r, f, new_id).len() == 0 {
        assert(e.history == r.history);
    }
    lemma_edit_change_members(r, f, new_id, c);
    if field_value_changes(r.custom_fields@, f.custom_fields@).contains(c) {
        lemma_value_change_names(r.custom_fields@, f.custom_fields@, c);
    }
    lemma_change_if_contains(f.title@ != r.title@, "title"@, r.title@, f.title@, c);
    lemma_change_if_contains(f.description@ != r.description@, "description"@, r.description@, f.description@, c);
    lemma_change_if_contains(
        f.status_string@ != effective_status_text(r),
        "status"@,
        effective_status_text(r),
        f.status_string@,
        c,
    );
    lemma_change_if_contains(f.priority != r.priority, "priority"@, priority_text(r.priority), priority_text(f.priority), c);
    lemma_change_if_contains(f.req_type != r.req_type, "type"@, req_type_key(r.req_type), req_type_key(f.req_type), c);
    lemma_change_if_contains(f.owner@ != r.owner@, "owner"@, r.owner@, f.owner@, c);
    lemma_change_if_contains(f.feature@ != r.feature@, "feature"@, r.feature@, f.feature@, c);
    lemma_change_if_contains(tags_differ(r, f), "tags"@, joined(views(r.tags@), ", "@), joined(edit_tags(f), ", "@), c);
    lemma_change_if_contains(
        np != opt_view(r.prefix_override),
        "prefix_override"@,
        text_or_empty(opt_view(r.prefix_override)),
        text_or_empty(np),
        c,
    );
    match new_id {
        Some(id) => {
            lemma_change_if_contains(old_id != id, "spec_id"@, old_id, id, c);
        },
        None => {},
    }
}

proof fn lemma_value_change_entry(before: Seq<(String, String)>, after: Seq<(String, String)>, x: ChangeView)
    requires
        field_value_changes(before, after).contains(x),
    ensures
        exists|i: int|
            0 <= i < after.len() && (#[trigger] after[i]).0@ == x.0 && x.1 == field_value(before, x.0) && x.2
                == after[i].1@,
    decreases after.len(),
{
    let k = after.last().0@;
    let c = change_if(after.last().1@ != field_value(before, k), k, field_value(before, k), after.last().1@);
    lemma_concat_contains(field_value_changes(before, after.drop_last()), c, x);
    lemma_change_if_contains(after.last().1@ != field_value(before, k), k, field_value(before, k), after.last().1@, x);
    if field_value_changes(before, after.drop_last()).contains(x) {
        lemma_value_change_entry(before, after.drop_last(), x);
        let i = choose|i: int|
            0 <= i < after.drop_last().len() && (#[trigger] after.drop_last()[i]).0@ == x.0 && x.1 == field_value(
                before,
                x.0,
            ) && x.2 == after.drop_last()[i].1@;
        assert(after[i] == after.drop_last()[i]);
    } else {
        assert(after[after.len() - 1].0@ == x.0);
    }
}

/// An edit records a custom field value as it changed: when the form names
/// each custom field once, every change the new history entry holds for a
/// field that is not a standard one goes from the field's old value to its
/// new value (an absent field counting as empty).
pub proof fn lemma_edit_records_custom_change(
    r: Requirement,
    e: Requirement,
    f: RequirementForm,
    new_id: Option<Seq<char>>,
    author: Seq<char>,
    c: ChangeView,
)
    requires
        edited(r, e, f, new_id, author),
        e.history@.len() == r.history@.len() + 1,
        !is_standard_field(c.0),
        field_names_distinct(f.custom_fields@),
        change_views(e.history@.last().changes@).contains(c),
    ensures
        c.1 == field_value(r.custom_fields@, c.0),
        c.2 == field_value(e.custom_fields@, c.0),
{
    let np = edit_prefix(f);
    let old_id = text_or_empty(opt_view(r.spec_id));
    if edit_changes(r, f, new_id).len() == 0 {
        assert(e.history == r.history);
    }
    lemma_edit_change_members(r, f, new_id, c);
    lemma_change_if_contains(f.title@ != r.title@, "title"@, r.title@, f.title@, c);
    lemma_change_if_contains(f.description@ != r.description@, "description"@, r.description@, f.description@, c);
    lemma_change_if_contains(
        f.status_string@ != effective_status_text(r),
        "status"@,
        effective_status_text(r),
        f.status_string@,
        c,
    );
    lemma_change_if_contains(f.priority != r.priority, "priority"@, priority_text(r.priority), priority_text(f.priority), c);
    lemma_change_if_contains(f.req_type != r.req_type, "type"@, req_type_key(r.req_type), req_type_key(f.req_type), c);
    lemma_change_if_contains(f.owner@ != r.owner@, "owner"@, r.owner@, f.owner@, c);
    lemma_change_if_contains(f.feature@ != r.feature@, "feature"@, r.feature@, f.feature@, c);
    lemma_change_if_contains(tags_differ(r, f), "tags"@, joined(views(r.tags@), ", "@), joined(edit_tags(f), ", "@), c);
    lemma_change_if_contains(
        np != opt_view(r.prefix_override),
        "prefix_override"@,
        text_or_empty(opt_view(r.prefix_override)),
        text_or_empty(np),
        c,
    );
    match new_id {
        Some(id) => {
            lemma_change_if_contains(old_id != id, "spec_id"@, old_id, id, c);
        },
        None => {},
    }
    assert(field_value_changes(r.custom_fields@, f.custom_fields@).contains(c));
    lemma_value_change_entry(r.custom_fields@, f.custom_fields@, c);
    let i = choose|i: int|
        0 <= i < f.custom_fields@.len() && (#[trigger] f.custom_fields@[i]).0@ == c.0 && c.1 == field_value(
            r.custom_fields@,
            c.0,
        ) && c.2 == f.custom_fields@[i].1@;
    let ec = e.custom_fields@;
    assert(ec[i].0@ == c.0 && ec[i].1@ == c.2);
    assert forall|j: int| 0 <= j < i implies (#[trigger] ec[j]).0@ != c.0 by {
        assert(ec[j].0@ == f.custom_fields@[j].0@);
    }
    assert(first_field(ec, c.0, i));
    assert(has_field(ec, c.0));
    let w = choose|w: int| first_field(ec, c.0, w);
    if w < i {
        assert(ec[w].0@ != c.0);
    } else if i < w {
        assert(ec[i].0@ != c.0);
    }
}

/// Whether two optional strings hold the same text (or both none).
fn same_opt_text(a: &Option<String>, b: &Option<String>) -> (r: bool)
    ensures
        r == (opt_view(*a) == opt_view(*b)),
{
    match a {
        Some(x) => match b {
            Some(y) => crate::text::str_eq(x.as_str(), y.as_str()),
            None => false,
        },
        None => b.is_none(),
    }
}

/// The text of an optional string, empty when there is none.
fn text_of(o: &Option<String>) -> (r: String)
    ensures
        r@ == text_or_empty(opt_view(*o)),
{
    match o {
        Some(s) => s.clone(),
        None => String::new(),
    }
}

/// An optional string as an optional slice.
fn opt_slice(o: &Option<String>) -> (r: Option<&str>)
    ensures
        crate::numbering::opt_str(r) == opt_view(*o),
{
    match o {
        Some(s) => Some(s.as_str()),
        None => None,
    }
}

/// A form has no changes against itself: right after the form is filled and
/// its values kept as the original ones, it reports no changes.
pub proof fn lemma_form_unchanged_after_load(f: RequirementForm)
    ensures
        same_form(f, f),
{
    assert forall|k: Seq<char>, i: int, j: int|
        #![trigger first_field(f.custom_fields@, k, i), first_field(f.custom_fields@, k, j)]
        first_field(f.custom_fields@, k, i) && first_field(f.custom_fields@, k, j) implies f.custom_fields@[i].1@
        == f.custom_fields@[j].1@ by {
        if i < j {
            assert(f.custom_fields@[i].0@ != k);
        } else if j < i {
            assert(f.custom_fields@[j].0@ != k);
        }
    }
}

impl RequirementForm {
    /// The empty form: a draft, medium-priority functional requirement in
    /// the feature `Uncategorized`, with no text, tags, prefix or custom
    /// fields.
    pub fn cleared() -> (r: Self)
        ensures
            r.title@.len() == 0,
            r.description@.len() == 0,
            r.status == RequirementStatus::Draft,
            r.status_string@ == "Draft"@,
            r.custom_fields@.len() == 0,
            r.priority == RequirementPriority::Medium,
            r.req_type == RequirementType::Functional,
            r.owner@.len() == 0,
            r.feature@ == "Uncategorized"@,
            r.tags@.len() == 0,
            r.prefix@.len() == 0,
    {
        RequirementForm {
            title: String::new(),
            description: String::new(),
            status: RequirementStatus::Draft,
            status_string: owned("Draft"),
            priority: RequirementPriority::Medium,
            req_type: RequirementType::Functional,
            owner: String::new(),
            feature: owned("Uncategorized"),
            tags: String::new(),
            prefix: String::new(),
            custom_fields: Vec::new(),
        }
    }

    /// The form filled from a requirement: its values, its status text, its
    /// tags joined with `, ` and its prefix override (empty when none).
    pub fn from_requirement(req: &Requirement) -> (r: Self)
        ensures
            r.title@ == req.title@,
            r.description@ == req.description@,
            r.status == req.status,
            r.status_string@ == effective_status_text(*req),
            r.custom_fields@.len() == req.custom_fields@.len(),
            forall|i: int|
                0 <= i < req.custom_fields@.len() ==> (#[trigger] r.custom_fields@[i]).0@ == req.custom_fields@[i].0@
                    && r.custom_fields@[i].1@ == req.custom_fields@[i].1@,
            r.priority == req.priority,
            r.req_type == req.req_type,
            r.owner@ == req.owner@,
            r.feature@ == req.feature@,
            r.tags@ == joined(views(req.tags@), ", "@),
            r.prefix@ == text_or_empty(opt_view(req.prefix_override)),
    {
        let prefix = match &req.prefix_override {
            Some(p) => p.clone(),
            None => String::new(),
        };
        RequirementForm {
            title: req.title.clone(),
            description: req.description.clone(),
            status: req.status,
            status_string: req.effective_status(),
            priority: req.priority,
            req_type: req.req_type,
            owner: req.owner.clone(),
            feature: req.feature.clone(),
            tags: join_texts(&req.tags, ", "),
            prefix,
            custom_fields: copy_fields(&req.custom_fields),
        }
    }

    /// Switches the form to the requirement type `new_type`. When the type
    /// really changes, a status text that the new type does not offer gives
    /// way to the first one it offers (`Draft` when it offers none), and the
    /// custom field values, which belong to the old type, are cleared.
    pub fn change_type(&mut self, store: &RequirementsStore, new_type: RequirementType)
        ensures
            new_type == old(self).req_type ==> *final(self) == *old(self),
            new_type != old(self).req_type ==> {
                let st = type_statuses(store.type_definitions@, req_type_key(new_type));
                let keeps = st.contains(old(self).status_string@);
                &&& final(self).req_type == new_type
                &&& final(self).custom_fields@.len() == 0
                &&& keeps ==> final(self).status_string == old(self).status_string
                &&& !keeps && st.len() > 0 ==> final(self).status_string@ == st[0]
                &&& !keeps && st.len() == 0 ==> final(self).status_string@ == "Draft"@
                &&& final(self).title == old(self).title
                &&& final(self).description == old(self).description
                &&& final(self).status == old(self).status
                &&& final(self).priority == old(self).priority
                &&& final(self).owner == old(self).owner
                &&& final(self).feature == old(self).feature
                &&& final(self).tags == old(self).tags
                &&& final(self).prefix == old(self).prefix
            },
    {
        if new_type == self.req_type {
            return;
        }
        self.req_type = new_type;
        let statuses = store.get_statuses_for_type(&new_type);
        let ghost st = views(statuses@);
        let keeps = vec_contains_str(&statuses, self.status_string.as_str());
        proof {
            if keeps {
                let i = choose|i: int| 0 <= i < statuses@.len() && #[trigger] statuses@[i]@ == self.status_string@;
                assert(st[i] == self.status_string@);
            } else {
                assert forall|i: int| 0 <= i < st.len() implies st[i] != self.status_string@ by {
                    assert(st[i] == statuses@[i]@);
                }
            }
        }
        if !keeps {
            if statuses.len() > 0 {
                self.status_string = statuses[0].clone();
            } else {
                self.status_string = owned("Draft");
            }
        }
        self.custom_fields = Vec::new();
    }

    /// Whether the form holds values other than `original`.
    pub fn has_changes(&self, original: &RequirementForm) -> (r: bool)
        ensures
            r == !same_form(*self, *original),
    {
        !(self.title == original.title && self.description == original.description && self.status_string
            == original.status_string && self.priority == original.priority && self.req_type == original.req_type
            && self.owner == original.owner && self.feature == original.feature && self.tags == original.tags
            && self.prefix == original.prefix && same_custom_fields(&self.custom_fields, &original.custom_fields))
    }
}

} // verus!

verus! {

/// The changes of title, description and status.
pub open spec fn text_changes(r: Requirement, f: RequirementForm) -> Seq<ChangeView> {
    change_if(f.title@ != r.title@, "title"@, r.title@, f.title@) + change_if(
        f.description@ != r.description@,
        "description"@,
        r.description@,
        f.description@,
    ) + change_if(
        f.status_string@ != effective_status_text(r),
        "status"@,
        effective_status_text(r),
        f.status_string@,
    )
}

/// The changes of custom field values, priority, type, owner and feature.
pub open spec fn value_changes(r: Requirement, f: RequirementForm) -> Seq<ChangeView> {
    field_value_changes(r.custom_fields@, f.custom_fields@) + change_if(
        f.priority != r.priority,
        "priority"@,
        priority_text(r.priority),
        priority_text(f.priority),
    ) + change_if(f.req_type != r.req_type, "type"@, req_type_key(r.req_type), req_type_key(f.req_type))
        + change_if(f.owner@ != r.owner@, "owner"@, r.owner@, f.owner@) + change_if(
        f.feature@ != r.feature@,
        "feature"@,
        r.feature@,
        f.feature@,
    )
}

/// Sets title, description and status of `req` from the form, noting each
/// change.
fn apply_texts(req: &mut Requirement, form: &RequirementForm, changes: &mut Vec<FieldChange>)
    ensures
        change_views(final(changes)@) == change_views(old(changes)@) + text_changes(*old(req), *form),
        final(req).title@ == form.title@,
        final(req).description@ == form.description@,
        if form.status_string@ != effective_status_text(*old(req)) {
            status_set_to(*old(req), *final(req), form.status_string@)
        } else {
            final(req).status == old(req).status && final(req).custom_status == old(req).custom_status
        },
        *final(req) == (Requirement {
            title: final(req).title,
            description: final(req).description,
            status: final(req).status,
            custom_status: final(req).custom_status,
            ..*old(req)
        }),
{
    let ghost c0 = change_views(changes@);
    let changed = form.title != req.title;
    note_change(changes, changed, "title", req.title.clone(), form.title.clone());
    if changed {
        req.title = form.title.clone();
    }
    let changed = form.description != req.description;
    note_change(changes, changed, "description", req.description.clone(), form.description.clone());
    if changed {
        req.description = form.description.clone();
    }
    let old_status = req.effective_status();
    let changed = form.status_string != old_status;
    note_change(changes, changed, "status", old_status, form.status_string.clone());
    if changed {
        req.set_status_from_str(form.status_string.as_str());
    }
    proof {
        assert(change_views(changes@) =~= c0 + text_changes(*old(req), *form));
    }
}

/// Sets custom field values, priority, type, owner and feature of `req`
/// from the form, noting each change.
fn apply_values(req: &mut Requirement, form: &RequirementForm, changes: &mut Vec<FieldChange>)
    ensures
        change_views(final(changes)@) == change_views(old(changes)@) + value_changes(*old(req), *form),
        final(req).custom_fields@.len() == form.custom_fields@.len(),
        forall|i: int|
            0 <= i < form.custom_fields@.len() ==> (#[trigger] final(req).custom_fields@[i]).0@
                == form.custom_fields@[i].0@ && final(req).custom_fields@[i].1@ == form.custom_fields@[i].1@,
        final(req).priority == form.priority,
        final(req).req_type == form.req_type,
        final(req).owner@ == form.owner@,
        final(req).feature@ == form.feature@,
        *final(req) == (Requirement {
            custom_fields: final(req).custom_fields,
            priority: final(req).priority,
            req_type: final(req).req_type,
            owner: final(req).owner,
            feature: final(req).feature,
            ..*old(req)
        }),
{
    let ghost c0 = change_views(changes@);
    note_field_changes(changes, &req.custom_fields, &form.custom_fields);
    req.custom_fields = copy_fields(&form.custom_fields);
    let changed = form.priority != req.priority;
    note_change(changes, changed, "priority", req.priority.display_text(), form.priority.display_text());
    if changed {
        req.priority = form.priority;
    }
    let changed = form.req_type != req.req_type;
    note_change(changes, changed, "type", req.req_type.key_text(), form.req_type.key_text());
    if changed {
        req.req_type = form.req_type;
    }
    let changed = form.owner != req.owner;
    note_change(changes, changed, "owner", req.owner.clone(), form.owner.clone());
    if changed {
        req.owner = form.owner.clone();
    }
    let changed = form.feature != req.feature;
    note_change(changes, changed, "feature", req.feature.clone(), form.feature.clone());
    if changed {
        req.feature = form.feature.clone();
    }
    proof {
        assert(change_views(changes@) =~= c0 + value_changes(*old(req), *form));
    }
}

/// Sets in place the fields of `req` that the form gives: title,
/// description, status, custom field values, priority, type, owner and
/// feature, noting each change.
fn apply_head(req: &mut Requirement, form: &RequirementForm, changes: &mut Vec<FieldChange>)
    ensures
        change_views(final(changes)@) == change_views(old(changes)@) + head_changes(*old(req), *form),
        head_applied(*old(req), *final(req), *form),
        *final(req) == (Requirement {
            title: final(req).title,
            description: final(req).description,
            status: final(req).status,
            custom_status: final(req).custom_status,
            custom_fields: final(req).custom_fields,
            priority: final(req).priority,
            req_type: final(req).req_type,
            owner: final(req).owner,
            feature: final(req).feature,
            ..*old(req)
        }),
{
    let ghost c0 = change_views(changes@);
    let ghost r0 = *req;
    apply_texts(req, form, changes);
    let ghost r1 = *req;
    apply_values(req, form, changes);
    proof {
        assert(r1.custom_fields == r0.custom_fields && r1.priority == r0.priority && r1.req_type == r0.req_type
            && r1.owner == r0.owner && r1.feature == r0.feature);
        assert(value_changes(r1, *form) == value_changes(r0, *form));
        assert(change_views(changes@) =~= c0 + head_changes(r0, *form));
    }
}

/// Applies an edit to `req` by `author`: the fields the form sets in place,
/// then the tags, the prefix override `new_prefix` (when it differs) and the
/// readable identifier `new_id` (when given and different), and records the
/// changes.
fn apply_edit(
    req: &mut Requirement,
    form: &RequirementForm,
    new_prefix: Option<String>,
    new_id: Option<String>,
    author: String,
)
    requires
        opt_view(new_prefix) == edit_prefix(*form),
    ensures
        edited(*old(req), *final(req), *form, opt_view(new_id), author@),
{
    let ghost r0 = *req;
    let new_tags = distinct_strings(split_list(form.tags.as_str()));
    let tags_changed = !same_texts(&new_tags, &req.tags);
    let old_tags_text = join_texts(&req.tags, ", ");
    let new_tags_text = join_texts(&new_tags, ", ");
    let prefix_changed = !same_opt_text(&new_prefix, &req.prefix_override);
    let mut changes: Vec<FieldChange> = Vec::new();
    apply_head(req, form, &mut changes);
    let ghost c1 = change_views(changes@);
    note_change(&mut changes, tags_changed, "tags", old_tags_text, new_tags_text);
    if tags_changed {
        req.tags = new_tags;
    }
    note_change(&mut changes, prefix_changed, "prefix_override", text_of(&req.prefix_override), text_of(&new_prefix));
    if prefix_changed {
        req.prefix_override = new_prefix;
    }
    match new_id {
        Some(id) => {
            let old_id = text_of(&req.spec_id);
            let changed = old_id != id;
            note_change(&mut changes, changed, "spec_id", old_id, id.clone());
            if changed {
                req.spec_id = Some(id);
            }
        },
        None => {},
    }
    proof {
        assert(change_views(changes@) =~= c1 + tail_changes(r0, *form, opt_view(new_id)));
        assert(change_views(changes@) =~= edit_changes(r0, *form, opt_view(new_id)));
    }
    req.record_change(author, changes);
}

impl RequirementsStore {
    /// Applies the edit in `form` to the requirement at position `idx`, by
    /// `author`. The prefix text, when not blank and prefixes are not
    /// restricted, is added to the allowed prefixes. When the prefix override
    /// changes, or there is none and the feature or type changes, a new
    /// readable identifier is generated; when another requirement has it, the
    /// edit is refused with a message (the counters have advanced) and the
    /// requirement stays as it was. Otherwise every field takes the form's
    /// value and the changes are recorded in the requirement's history. None
    /// when there is no requirement at `idx`.
    pub fn update_requirement(&mut self, idx: usize, form: &RequirementForm, author: String) -> (r: Option<
        Result<(), String>,
    >)
        requires
            idx < old(self).requirements@.len() && edit_needs_new_id(old(self).requirements@[idx as int], *form)
                ==> old(self).next_spec_number < u32::MAX && counters_at_most(
                old(self).prefix_counters@,
                (u32::MAX - 1) as nat,
            ),
        ensures
            match r {
                None => idx >= old(self).requirements@.len() && *final(self) == *old(self),
                Some(res) => idx < old(self).requirements@.len() && ({
                    let r0 = old(self).requirements@[idx as int];
                    let needs = edit_needs_new_id(r0, *form);
                    let (id, st) = edit_new_id(*old(self), *form);
                    let taken = needs && taken_by_other(old(self).requirements@, r0.id, id);
                    &&& prefix_listed(*old(self), final(self).allowed_prefixes@, *form)
                    &&& needs ==> numbering_of(*final(self)) == st
                    &&& !needs ==> final(self).next_spec_number == old(self).next_spec_number
                        && final(self).prefix_counters == old(self).prefix_counters
                    &&& *final(self) == (RequirementsStore {
                        requirements: final(self).requirements,
                        allowed_prefixes: final(self).allowed_prefixes,
                        next_spec_number: final(self).next_spec_number,
                        prefix_counters: final(self).prefix_counters,
                        ..*old(self)
                    })
                    &&& match res {
                        Ok(_) => !taken && final(self).requirements@ == old(self).requirements@.update(
                            idx as int,
                            final(self).requirements@[idx as int],
                        ) && edited(
                            r0,
                            final(self).requirements@[idx as int],
                            *form,
                            if needs {
                                Some(id)
                            } else {
                                None
                            },
                            author@,
                        ),
                        Err(m) => taken && m@ == "ID '"@ + id + "' is already in use by another requirement"@
                            && final(self).requirements == old(self).requirements,
                    }
                }),
            },
    {
        if idx >= self.requirements.len() {
            return None;
        }
        let ghost s0 = *self;
        let ghost r0 = self.requirements@[idx as int];
        let req_uuid = self.requirements[idx].id;
        let trimmed_prefix = trim_str(form.prefix.as_str());
        let new_prefix: Option<String> = if trimmed_prefix.unicode_len() == 0 {
            None
        } else {
            if !self.restrict_prefixes {
                self.add_allowed_prefix(trimmed_prefix.as_str());
            }
            Requirement::validate_prefix(form.prefix.as_str())
        };
        proof {
            assert(opt_view(new_prefix) == edit_prefix(*form));
            assert(self.requirements == s0.requirements);
        }
        let prefix_changed = !same_opt_text(&new_prefix, &self.requirements[idx].prefix_override);
        let feature_changed = form.feature != self.requirements[idx].feature;
        let type_changed = form.req_type != self.requirements[idx].req_type;
        let needs = prefix_changed || (new_prefix.is_none() && (feature_changed || type_changed));
        proof {
            assert(needs == edit_needs_new_id(r0, *form));
        }
        let mut new_id: Option<String> = None;
        if needs {
            let fp: Option<String> = match self.get_feature_by_name(form.feature.as_str()) {
                Some(fd) => Some(fd.prefix.clone()),
                None => None,
            };
            proof {
                let v = self.features@;
                let l = lowercase(form.feature@);
                if exists|i: int| first_feature_with_name(v, l, i) {
                    let c = choose|i: int| first_feature_with_name(v, l, i);
                    assert(fp is Some);
                    let i = choose|i: int| first_feature_with_name(v, l, i) && fp->0@ == v[i].prefix@;
                    assert(i == c) by {
                        if i < c {
                            assert(lowercase(v[i].name@) != l);
                        } else if c < i {
                            assert(lowercase(v[c].name@) != l);
                        }
                    }
                } else {
                    if fp is Some {
                        let i = choose|i: int| first_feature_with_name(v, l, i) && fp->0@ == v[i].prefix@;
                        assert(first_feature_with_name(v, l, i));
                    }
                }
                assert(opt_view(fp) == named_feature_prefix(v, form.feature@));
            }
            let tp = self.get_type_prefix(&form.req_type);
            proof {
                let v = self.id_config.requirement_types@;
                let l = lowercase(req_type_text(form.req_type));
                if exists|i: int| first_type_with_name(v, l, i) {
                    let c = choose|i: int| first_type_with_name(v, l, i);
                    if tp is None {
                        assert(lowercase(v[c].name@) == l);
                    }
                    let i = choose|i: int| first_type_with_name(v, l, i) && tp->0 == v[i].prefix;
                    assert(i == c) by {
                        if i < c {
                            assert(lowercase(v[i].name@) != l);
                        } else if c < i {
                            assert(lowercase(v[c].name@) != l);
                        }
                    }
                } else {
                    if tp is Some {
                        let i = choose|i: int| first_type_with_name(v, l, i) && tp->0 == v[i].prefix;
                        assert(first_type_with_name(v, l, i));
                    }
                }
                assert(opt_view(tp) == configured_type_prefix(v, form.req_type));
            }
            let res = self.regenerate_spec_id_for_prefix_change(
                &req_uuid,
                opt_slice(&new_prefix),
                opt_slice(&fp),
                opt_slice(&tp),
            );
            match res {
                Err(m) => {
                    return Some(Err(m));
                },
                Ok(id) => {
                    new_id = Some(id);
                },
            }
        }
        proof {
            assert(opt_view(new_id) == if needs {
                Some(edit_new_id(s0, *form).0)
            } else {
                None
            });
        }
        apply_edit(&mut self.requirements[idx], form, new_prefix, new_id, author);
        Some(Ok(()))
    }
}


/// The prefix override a new requirement gets from form `f`: none when the
/// prefix text is blank, else the valid prefix its trimmed text gives.
pub open spec fn new_prefix_of(f: RequirementForm) -> Option<Seq<char>> {
    let t = trimmed(f.prefix@);
    if t.len() == 0 || trimmed(t).len() == 0 {
        None
    } else {
        valid_prefix(trimmed(t))
    }
}

/// Whether form `f` asks for a prefix override that is not valid.
pub open spec fn bad_new_prefix(f: RequirementForm) -> bool {
    let t = trimmed(f.prefix@);
    t.len() > 0 && trimmed(t).len() > 0 && valid_prefix(trimmed(t)) is None
}

/// Requirement `r` is a new requirement made from form `f`: the form's
/// texts, status, priority, type, owner, feature, tags (each once) and
/// custom field values, its prefix override, no readable identifier yet,
/// and otherwise as `Requirement::new` makes it.
pub open spec fn made_from_form(r: Requirement, f: RequirementForm) -> bool {
    let base = Requirement { status: RequirementStatus::Draft, custom_status: None, ..r };
    &&& r.title@ == f.title@
    &&& r.description@ == f.description@
    &&& status_set_to(base, r, f.status_string@)
    &&& r.priority == f.priority
    &&& r.req_type == f.req_type
    &&& r.owner@ == f.owner@
    &&& r.feature@ == f.feature@
    &&& views(r.tags@) == edit_tags(f)
    &&& r.custom_fields@.len() == f.custom_fields@.len()
    &&& forall|i: int|
        0 <= i < f.custom_fields@.len() ==> (#[trigger] r.custom_fields@[i]).0@ == f.custom_fields@[i].0@
            && r.custom_fields@[i].1@ == f.custom_fields@[i].1@
    &&& opt_view(r.prefix_override) == new_prefix_of(f)
    &&& r.spec_id is None
    &&& r.created_at == r.modified_at
    &&& r.relationships@.len() == 0
    &&& r.comments@.len() == 0
    &&& r.history@.len() == 0
    &&& !r.archived
}

/// A new requirement made from the form, before it is numbered.
fn requirement_from_form(form: &RequirementForm) -> (r: Result<Requirement, String>)
    ensures
        bad_new_prefix(*form) <==> r is Err,
        r matches Err(m) ==> m@ == "Prefix must contain only uppercase letters (A-Z)"@,
        r matches Ok(q) ==> made_from_form(q, *form),
{
    let tags = distinct_strings(split_list(form.tags.as_str()));
    let mut req = Requirement::new(form.title.clone(), form.description.clone());
    let ghost r0 = req;
    req.set_status_from_str(form.status_string.as_str());
    proof {
        assert(status_set_to(Requirement { status: RequirementStatus::Draft, custom_status: None, ..req }, req, form.status_string@));
    }
    req.priority = form.priority;
    req.req_type = form.req_type;
    req.owner = form.owner.clone();
    req.feature = form.feature.clone();
    req.tags = tags;
    req.custom_fields = copy_fields(&form.custom_fields);
    let prefix_trimmed = trim_str(form.prefix.as_str());
    if prefix_trimmed.unicode_len() > 0 {
        match req.set_prefix_override(prefix_trimmed.as_str()) {
            Ok(()) => {},
            Err(e) => {
                return Err(e);
            },
        }
    }
    Ok(req)
}

impl RequirementsStore {
    /// Adds a requirement made from the form: its prefix override must be
    /// valid (else the message is given and nothing changes); the prefix, when
    /// not blank and prefixes are not restricted, joins the allowed prefixes;
    /// the requirement gets the next readable identifier (from its prefix
    /// override, else from the prefixes of its feature and type); when
    /// `parent_id` is given, a parent relationship to it is added in both
    /// directions if it can be. Gives the new requirement's identifier.
    pub fn add_requirement_from_form(&mut self, form: &RequirementForm, parent_id: Option<u128>) -> (r: Result<
        u128,
        String,
    >)
        requires
            old(self).next_spec_number < u32::MAX,
            counters_at_most(old(self).prefix_counters@, (u32::MAX - 1) as nat),
        ensures
            bad_new_prefix(*form) <==> r is Err,
            r matches Err(m) ==> m@ == "Prefix must contain only uppercase letters (A-Z)"@ && *final(self) == *old(self),
            r matches Ok(id) ==> {
                let s0 = old(self).requirements@;
                let (sid, st) = match new_prefix_of(*form) {
                    Some(o) => generate_with_override(
                        numbering_of(*old(self)),
                        old(self).id_config.numbering,
                        old(self).id_config.digits,
                        o,
                    ),
                    None => generate(
                        numbering_of(*old(self)),
                        old(self).id_config.format,
                        old(self).id_config.numbering,
                        old(self).id_config.digits,
                        named_feature_prefix(old(self).features@, form.feature@),
                        configured_type_prefix(old(self).id_config.requirement_types@, form.req_type),
                    ),
                };
                &&& prefix_listed(*old(self), final(self).allowed_prefixes@, *form)
                &&& numbering_of(*final(self)) == st
                &&& *final(self) == (RequirementsStore {
                    requirements: final(self).requirements,
                    allowed_prefixes: final(self).allowed_prefixes,
                    next_spec_number: final(self).next_spec_number,
                    prefix_counters: final(self).prefix_counters,
                    ..*old(self)
                })
                &&& exists|q: Requirement|
                    made_from_form(q, *form) && q.id == id && {
                        let added = final(self).requirements@;
                        let mid = s0.push(Requirement { spec_id: added.last().spec_id, ..q });
                        &&& opt_view(mid.last().spec_id) == Some(sid)
                        &&& match parent_id {
                            None => added == mid,
                            Some(p) => if can_add_rel(mid, id, crate::model::RelKind::Parent, p) {
                                added_rel(
                                    mid,
                                    added,
                                    id,
                                    crate::model::RelKind::Parent,
                                    p,
                                    touched_inverse(crate::model::RelKind::Parent, true),
                                )
                            } else {
                                added == mid
                            },
                        }
                    }
            },
    {
        let req = match requirement_from_form(form) {
            Ok(q) => q,
            Err(e) => {
                return Err(e);
            },
        };
        let ghost q = req;
        let prefix_trimmed = trim_str(form.prefix.as_str());
        if prefix_trimmed.unicode_len() > 0 && !self.restrict_prefixes {
            self.add_allowed_prefix(prefix_trimmed.as_str());
        }
        let fp: Option<String> = match self.get_feature_by_name(form.feature.as_str()) {
            Some(fd) => Some(fd.prefix.clone()),
            None => None,
        };
        let tp = self.get_type_prefix(&form.req_type);
        proof {
            let v = self.features@;
            let l = lowercase(form.feature@);
            if exists|i: int| first_feature_with_name(v, l, i) {
                let c = choose|i: int| first_feature_with_name(v, l, i);
                let i = choose|i: int| first_feature_with_name(v, l, i) && fp->0@ == v[i].prefix@;
                assert(i == c) by {
                    if i < c {
                        assert(lowercase(v[i].name@) != l);
                    } else if c < i {
                        assert(lowercase(v[c].name@) != l);
                    }
                }
            } else {
                if fp is Some {
                    let i = choose|i: int| first_feature_with_name(v, l, i) && fp->0@ == v[i].prefix@;
                    assert(first_feature_with_name(v, l, i));
                }
            }
            let tv = self.id_config.requirement_types@;
            let tl = lowercase(req_type_text(form.req_type));
            if exists|i: int| first_type_with_name(tv, tl, i) {
                let c = choose|i: int| first_type_with_name(tv, tl, i);
                if tp is None {
                    assert(lowercase(tv[c].name@) == tl);
                }
                let i = choose|i: int| first_type_with_name(tv, tl, i) && tp->0 == tv[i].prefix;
                assert(i == c) by {
                    if i < c {
                        assert(lowercase(tv[i].name@) != tl);
                    } else if c < i {
                        assert(lowercase(tv[c].name@) != tl);
                    }
                }
            } else {
                if tp is Some {
                    let i = choose|i: int| first_type_with_name(tv, tl, i) && tp->0 == tv[i].prefix;
                    assert(first_type_with_name(tv, tl, i));
                }
            }
        }
        let new_req_id = req.id;
        self.add_requirement_with_id(req, opt_slice(&fp), opt_slice(&tp));
        let ghost mid = self.requirements@;
        proof {
            assert(mid == old(self).requirements@.push(Requirement { spec_id: mid.last().spec_id, ..q }));
        }
        match parent_id {
            Some(p) => {
                let _ = self.add_relationship(&new_req_id, RelationshipType::Parent, &p, true);
            },
            None => {},
        }
        Ok(new_req_id)
    }
}

} // verus!
