//! Requirements, the users who work on them, their history and their links.
use vstd::prelude::*;
use crate::clock::{current_time, fresh_uuid, Timestamp};
use crate::comment::Comment;
use crate::model::{
    status_text, FieldChange, RelationshipType, RequirementPriority, RequirementStatus, RequirementType,
};
use vstd::string::*;
use crate::text::{
    all_upper_ascii, is_all_upper_ascii, opt_is, opt_view, owned, str_eq, to_upper, trim_str, trimmed, uppercase,
};

verus! {

/// A relationship from a requirement to another one.
#[derive(Debug, Clone)]
pub struct Relationship {
    /// The kind of relationship
    pub rel_type: RelationshipType,
    /// The identifier of the target requirement
    pub target_id: u128,
}

/// One recorded update of a requirement.
#[derive(Debug, Clone)]
pub struct HistoryEntry {
    /// Identifier of the entry
    pub id: u128,
    /// Who made the change
    pub author: String,
    /// When
    pub timestamp: Timestamp,
    /// The fields that changed
    pub changes: Vec<FieldChange>,
}

impl HistoryEntry {
    /// A new entry with a fresh identifier, stamped now.
    pub fn new(author: String, changes: Vec<FieldChange>) -> (r: Self)
        ensures
            r.author == author,
            r.changes == changes,
    {
        HistoryEntry { id: fresh_uuid(), author, timestamp: current_time(), changes }
    }
}

/// An external web link attached to a requirement.
#[derive(Debug, Clone)]
pub struct UrlLink {
    /// Identifier of the link
    pub id: u128,
    /// The address
    pub url: String,
    /// Title shown for it
    pub title: String,
    /// Description
    pub description: Option<String>,
    /// When it was added
    pub added_at: Timestamp,
    /// Who added it
    pub added_by: String,
    /// When it was last checked
    pub last_verified: Option<Timestamp>,
    /// Whether the last check succeeded
    pub last_verified_ok: Option<bool>,
}

impl UrlLink {
    /// A new, never checked link with a fresh identifier, added now.
    pub fn new(url: &str, title: &str, added_by: &str) -> (r: Self)
        ensures
            r.url@ == url@,
            r.title@ == title@,
            r.added_by@ == added_by@,
            r.description is None,
            r.last_verified is None,
            r.last_verified_ok is None,
    {
        UrlLink {
            id: fresh_uuid(),
            url: owned(url),
            title: owned(title),
            description: None,
            added_at: current_time(),
            added_by: owned(added_by),
            last_verified: None,
            last_verified_ok: None,
        }
    }

    /// The same link with a description.
    pub fn with_description(self, description: &str) -> (r: Self)
        ensures
            opt_is(r.description, description@),
            r == (UrlLink { description: r.description, ..self }),
    {
        UrlLink { description: Some(owned(description)), ..self }
    }
}

/// Someone who works on requirements.
#[derive(Debug, Clone)]
pub struct User {
    /// Identifier
    pub id: u128,
    /// Readable identifier such as `$USER-001`
    pub spec_id: Option<String>,
    /// Full name
    pub name: String,
    /// E-mail address
    pub email: String,
    /// Handle for mentions (without the `@`)
    pub handle: String,
    /// When the user was created
    pub created_at: Timestamp,
    /// Whether the user is archived
    pub archived: bool,
}

impl User {
    /// A new, active user without readable identifier.
    pub fn new(name: String, email: String, handle: String) -> (r: Self)
        ensures
            r.spec_id is None,
            r.name == name,
            r.email == email,
            r.handle == handle,
            !r.archived,
    {
        User { id: fresh_uuid(), spec_id: None, name, email, handle, created_at: current_time(), archived: false }
    }

    /// A new, active user with the readable identifier `spec_id`.
    pub fn new_with_spec_id(name: String, email: String, handle: String, spec_id: String) -> (r: Self)
        ensures
            r.spec_id == Some(spec_id),
            r.name == name,
            r.email == email,
            r.handle == handle,
            !r.archived,
    {
        User {
            id: fresh_uuid(),
            spec_id: Some(spec_id),
            name,
            email,
            handle,
            created_at: current_time(),
            archived: false,
        }
    }

    /// The readable identifier if there is one, else the name.
    pub fn display_id(&self) -> (r: &str)
        ensures
            r@ == match self.spec_id {
                Some(s) => s@,
                None => self.name@,
            },
    {
        match &self.spec_id {
            Some(s) => s.as_str(),
            None => self.name.as_str(),
        }
    }
}

/// A requirement.
#[derive(Debug)]
pub struct Requirement {
    /// Identifier
    pub id: u128,
    /// Readable identifier such as `FR-001`, given when it is stored
    pub spec_id: Option<String>,
    /// Prefix that replaces the feature or type prefix in its identifier
    /// (ASCII capitals only)
    pub prefix_override: Option<String>,
    /// Short title
    pub title: String,
    /// Full description
    pub description: String,
    /// Status
    pub status: RequirementStatus,
    /// Priority
    pub priority: RequirementPriority,
    /// Who is responsible
    pub owner: String,
    /// The feature it belongs to
    pub feature: String,
    /// When it was created
    pub created_at: Timestamp,
    /// When it was last changed
    pub modified_at: Timestamp,
    /// Its type
    pub req_type: RequirementType,
    /// Identifiers of requirements it depends on
    pub dependencies: Vec<u128>,
    /// Tags (each at most once)
    pub tags: Vec<String>,
    /// Relationships to other requirements
    pub relationships: Vec<Relationship>,
    /// Comment threads
    pub comments: Vec<Comment>,
    /// Change history
    pub history: Vec<HistoryEntry>,
    /// Whether it is archived
    pub archived: bool,
    /// Status text of a type with its own statuses; wins over `status`
    pub custom_status: Option<String>,
    /// Values of custom fields, as (name, value), each name at most once
    pub custom_fields: Vec<(String, String)>,
    /// Attached web links
    pub urls: Vec<UrlLink>,
}

/// The prefix `Requirement::validate_prefix` accepts: the trimmed text in
/// uppercase, when it is not empty and holds only ASCII capitals.
pub open spec fn valid_prefix(p: Seq<char>) -> Option<Seq<char>> {
    let t = trimmed(p);
    if t.len() == 0 {
        None
    } else if all_upper_ascii(uppercase(t)) {
        Some(uppercase(t))
    } else {
        None
    }
}

/// The effective status text: the custom status if set, else the status.
pub open spec fn effective_status_text(r: Requirement) -> Seq<char> {
    match r.custom_status {
        Some(s) => s@,
        None => status_text(r.status),
    }
}

/// Whether `i` is the first position in `v` with field name `k`.
pub open spec fn first_field(v: Seq<(String, String)>, k: Seq<char>, i: int) -> bool {
    0 <= i < v.len() && v[i].0@ == k && forall|j: int| 0 <= j < i ==> (#[trigger] v[j]).0@ != k
}

/// Whether `v` has a field named `k`.
pub open spec fn has_field(v: Seq<(String, String)>, k: Seq<char>) -> bool {
    exists|i: int| 0 <= i < v.len() && (#[trigger] v[i]).0@ == k
}

/// Whether no two custom field values share a name.
pub open spec fn field_names_distinct(v: Seq<(String, String)>) -> bool {
    forall|i: int, j: int| 0 <= i < j < v.len() ==> (#[trigger] v[i]).0@ != (#[trigger] v[j]).0@
}

pub(crate) fn find_field(v: &Vec<(String, String)>, name: &str) -> (r: Option<usize>)
    ensures
        match r {
            Some(i) => first_field(v@, name@, i as int),
            None => !has_field(v@, name@),
        },
{
    let mut i: usize = 0;
    while i < v.len()
        invariant
            i <= v@.len(),
            forall|j: int| 0 <= j < i ==> (#[trigger] v@[j]).0@ != name@,
        decreases v.len() - i,
    {
        if str_eq(v[i].0.as_str(), name) {
            return Some(i);
        }
        i = i + 1;
    }
    None
}

impl Requirement {
    /// A new draft, medium-priority functional requirement in the feature
    /// `feature`, with a fresh identifier, created now, with no readable
    /// identifier yet.
    pub fn new_in_feature(title: String, description: String, feature: String) -> (r: Self)
        ensures
            r.title == title,
            r.description == description,
            r.feature == feature,
            r.spec_id is None,
            r.prefix_override is None,
            r.status == RequirementStatus::Draft,
            r.priority == RequirementPriority::Medium,
            r.req_type == RequirementType::Functional,
            r.owner@.len() == 0,
            r.created_at == r.modified_at,
            r.dependencies@.len() == 0,
            r.tags@.len() == 0,
            r.relationships@.len() == 0,
            r.comments@.len() == 0,
            r.history@.len() == 0,
            !r.archived,
            r.custom_status is None,
            r.custom_fields@.len() == 0,
            r.urls@.len() == 0,
    {
        let now = current_time();
        Requirement {
            id: fresh_uuid(),
            spec_id: None,
            prefix_override: None,
            title,
            description,
            status: RequirementStatus::Draft,
            priority: RequirementPriority::Medium,
            owner: String::new(),
            feature,
            created_at: now,
            modified_at: now,
            req_type: RequirementType::Functional,
            dependencies: Vec::new(),
            tags: Vec::new(),
            relationships: Vec::new(),
            comments: Vec::new(),
            history: Vec::new(),
            archived: false,
            custom_status: None,
            custom_fields: Vec::new(),
            urls: Vec::new(),
        }
    }

    /// A new requirement as `new_in_feature` makes it, in the feature
    /// `Uncategorized`.
    pub fn new(title: String, description: String) -> (r: Self)
        ensures
            r.title == title,
            r.description == description,
            r.feature@ == "Uncategorized"@,
            r.spec_id is None,
            r.prefix_override is None,
            r.status == RequirementStatus::Draft,
            r.priority == RequirementPriority::Medium,
            r.req_type == RequirementType::Functional,
            r.created_at == r.modified_at,
            r.relationships@.len() == 0,
            r.comments@.len() == 0,
            r.history@.len() == 0,
            !r.archived,
            r.custom_status is None,
            r.custom_fields@.len() == 0,
    {
        Self::new_in_feature(title, description, owned("Uncategorized"))
    }

    /// The status text: the custom status if set, else the status.
    pub fn effective_status(&self) -> (r: String)
        ensures
            r@ == effective_status_text(*self),
    {
        match &self.custom_status {
            Some(s) => s.clone(),
            None => self.status.display_text(),
        }
    }

    /// Sets the status from a text: one of the four standard statuses sets
    /// the status and clears the custom status; any other text becomes the
    /// custom status and leaves the status as it was.
    pub fn set_status_from_str(&mut self, status_str: &str)
        ensures
            status_str@ == "Draft"@ ==> *final(self) == (Requirement {
                status: RequirementStatus::Draft,
                custom_status: None,
                ..*old(self)
            }),
            status_str@ == "Approved"@ ==> *final(self) == (Requirement {
                status: RequirementStatus::Approved,
                custom_status: None,
                ..*old(self)
            }),
            status_str@ == "Completed"@ ==> *final(self) == (Requirement {
                status: RequirementStatus::Completed,
                custom_status: None,
                ..*old(self)
            }),
            status_str@ == "Rejected"@ ==> *final(self) == (Requirement {
                status: RequirementStatus::Rejected,
                custom_status: None,
                ..*old(self)
            }),
            status_str@ != "Draft"@ && status_str@ != "Approved"@ && status_str@ != "Completed"@
                && status_str@ != "Rejected"@ ==> opt_is(final(self).custom_status, status_str@)
                && *final(self) == (Requirement { custom_status: final(self).custom_status, ..*old(self) }),
    {
        proof {
            reveal_strlit("Draft");
            reveal_strlit("Approved");
            reveal_strlit("Completed");
            reveal_strlit("Rejected");
            assert("Draft"@.len() == 5 && "Approved"@.len() == 8 && "Completed"@.len() == 9 && "Rejected"@.len() == 8);
            assert("Approved"@[0] != "Rejected"@[0]);
        }
        if str_eq(status_str, "Draft") {
            self.status = RequirementStatus::Draft;
            self.custom_status = None;
        } else if str_eq(status_str, "Approved") {
            self.status = RequirementStatus::Approved;
            self.custom_status = None;
        } else if str_eq(status_str, "Completed") {
            self.status = RequirementStatus::Completed;
            self.custom_status = None;
        } else if str_eq(status_str, "Rejected") {
            self.status = RequirementStatus::Rejected;
            self.custom_status = None;
        } else {
            self.custom_status = Some(owned(status_str));
        }
    }

    /// The value of the custom field `name`, if set.
    pub fn get_custom_field(&self, name: &str) -> (r: Option<&String>)
        ensures
            match r {
                Some(v) => exists|i: int| first_field(self.custom_fields@, name@, i) && *v == self.custom_fields@[i].1,
                None => !has_field(self.custom_fields@, name@),
            },
    {
        match find_field(&self.custom_fields, name) {
            Some(i) => Some(&self.custom_fields[i].1),
            None => None,
        }
    }

    /// Sets the custom field `name` to `value`, replacing a previous value.
    pub fn set_custom_field(&mut self, name: &str, value: &str)
        ensures
            *final(self) == (Requirement { custom_fields: final(self).custom_fields, ..*old(self) }),
            has_field(old(self).custom_fields@, name@) ==> exists|i: int|
                first_field(old(self).custom_fields@, name@, i) && final(self).custom_fields@.len()
                    == old(self).custom_fields@.len() && final(self).custom_fields@[i].0@ == name@
                    && final(self).custom_fields@[i].1@ == value@ && forall|j: int|
                    0 <= j < old(self).custom_fields@.len() && j != i ==> (#[trigger] final(self).custom_fields@[j])
                        == old(self).custom_fields@[j],
            !has_field(old(self).custom_fields@, name@) ==> final(self).custom_fields@.drop_last()
                == old(self).custom_fields@ && final(self).custom_fields@.len() == old(self).custom_fields@.len() + 1
                && final(self).custom_fields@.last().0@ == name@ && final(self).custom_fields@.last().1@ == value@,
            field_names_distinct(old(self).custom_fields@) ==> field_names_distinct(final(self).custom_fields@),
    {
        match find_field(&self.custom_fields, name) {
            Some(i) => {
                self.custom_fields.set(i, (owned(name), owned(value)));
                proof {
                    let (o, f) = (old(self).custom_fields@, self.custom_fields@);
                    assert forall|a: int, b: int| field_names_distinct(o) && 0 <= a < b < f.len() implies (#[trigger] f[a]).0@
                        != (#[trigger] f[b]).0@ by {
                        assert(f[a].0@ == o[a].0@ && f[b].0@ == o[b].0@);
                    }
                }
            },
            None => {
                self.custom_fields.push((owned(name), owned(value)));
                proof {
                    assert(self.custom_fields@.drop_last() =~= old(self).custom_fields@);
                    let (o, f) = (old(self).custom_fields@, self.custom_fields@);
                    assert forall|a: int, b: int| field_names_distinct(o) && 0 <= a < b < f.len() implies (#[trigger] f[a]).0@
                        != (#[trigger] f[b]).0@ by {
                        if b == o.len() {
                            assert(f[a] == o[a]);
                        } else {
                            assert(f[a] == o[a] && f[b] == o[b]);
                        }
                    }
                }
            },
        }
    }

    /// Removes the custom field `name` and returns its value, if it was set.
    pub fn remove_custom_field(&mut self, name: &str) -> (r: Option<String>)
        ensures
            *final(self) == (Requirement { custom_fields: final(self).custom_fields, ..*old(self) }),
            match r {
                Some(v) => exists|i: int|
                    first_field(old(self).custom_fields@, name@, i) && v == old(self).custom_fields@[i].1
                        && final(self).custom_fields@ == old(self).custom_fields@.remove(i),
                None => !has_field(old(self).custom_fields@, name@) && final(self).custom_fields
                    == old(self).custom_fields,
            },
    {
        match find_field(&self.custom_fields, name) {
            Some(i) => {
                let (_, v) = self.custom_fields.remove(i);
                Some(v)
            },
            None => None,
        }
    }

    /// Checks and normalizes a prefix: the trimmed text in uppercase, when it
    /// is not empty and holds only ASCII capitals.
    pub fn validate_prefix(prefix: &str) -> (r: Option<String>)
        ensures
            opt_view(r) == valid_prefix(prefix@),
    {
        let t = trim_str(prefix);
        if t.as_str().unicode_len() == 0 {
            return None;
        }
        let upper = to_upper(t.as_str());
        if is_all_upper_ascii(upper.as_str()) {
            Some(upper)
        } else {
            None
        }
    }

    /// Sets the prefix override: a blank text clears it; a valid prefix is
    /// stored normalized; anything else is refused and nothing changes.
    pub fn set_prefix_override(&mut self, prefix: &str) -> (r: Result<(), String>)
        ensures
            trimmed(prefix@).len() == 0 ==> r is Ok && *final(self) == (Requirement {
                prefix_override: None,
                ..*old(self)
            }),
            trimmed(prefix@).len() > 0 ==> match valid_prefix(trimmed(prefix@)) {
                Some(p) => r is Ok && opt_is(final(self).prefix_override, p) && *final(self) == (Requirement {
                    prefix_override: final(self).prefix_override,
                    ..*old(self)
                }),
                None => (r matches Err(m) && m@ == "Prefix must contain only uppercase letters (A-Z)"@) && *final(self)
                    == *old(self),
            },
    {
        let t = trim_str(prefix);
        if t.as_str().unicode_len() == 0 {
            self.prefix_override = None;
            return Ok(());
        }
        match Self::validate_prefix(t.as_str()) {
            Some(valid) => {
                self.prefix_override = Some(valid);
                Ok(())
            },
            None => Err(owned("Prefix must contain only uppercase letters (A-Z)")),
        }
    }

    /// Records an update made by `author`: when `changes` is not empty, a
    /// history entry holding them is appended and the requirement is marked
    /// modified now; otherwise nothing changes.
    pub fn record_change(&mut self, author: String, changes: Vec<FieldChange>)
        ensures
            changes@.len() == 0 ==> *final(self) == *old(self),
            changes@.len() > 0 ==> {
                &&& *final(self) == (Requirement {
                    history: final(self).history,
                    modified_at: final(self).modified_at,
                    ..*old(self)
                })
                &&& final(self).history@.drop_last() == old(self).history@
                &&& final(self).history@.len() == old(self).history@.len() + 1
                &&& final(self).history@.last().author == author
                &&& final(self).history@.last().changes == changes
            },
    {
        if changes.len() > 0 {
            let entry = HistoryEntry::new(author, changes);
            self.history.push(entry);
            self.modified_at = current_time();
            proof {
                assert(self.history@.drop_last() =~= old(self).history@);
            }
        }
    }

    /// A field change record.
    pub fn field_change(field_name: &str, old_value: String, new_value: String) -> (r: FieldChange)
        ensures
            r.field_name@ == field_name@,
            r.old_value == old_value,
            r.new_value == new_value,
    {
        FieldChange { field_name: owned(field_name), old_value, new_value }
    }

    /// Appends a top-level comment and marks the requirement modified now.
    pub fn add_comment(&mut self, comment: Comment)
        ensures
            *final(self) == (Requirement {
                comments: final(self).comments,
                modified_at: final(self).modified_at,
                ..*old(self)
            }),
            final(self).comments@ == old(self).comments@.push(comment),
    {
        self.comments.push(comment);
        self.modified_at = current_time();
    }
}

} // verus!
