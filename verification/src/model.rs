//! The vocabulary of requirements: statuses, priorities, types, relationship
//! kinds, and the definitions that configure custom types, relationships,
//! identifiers, features and comment reactions.
use vstd::prelude::*;
use vstd::std_specs::cmp::PartialEqSpecImpl;
use vstd::string::*;
use crate::text::{
    ascii_lowercase_of, decimal, folded_code, is_ascii_text, is_upper_ascii, lemma_ascii_lowercase_is, no_ascii_capitals, same_up_to_ascii_case, eq_ignore_ascii_case, eq_ignore_case, format_padded, lowercase, opt_is, opt_view, owned, str_eq,
    to_lower, to_upper, uppercase, views, zero_pad,
};

verus! {

/// The status of a requirement.
#[derive(Debug, Clone, Copy, PartialEq, Eq, Structural, Hash)]
pub enum RequirementStatus {
    Draft,
    Approved,
    Completed,
    Rejected,
}

/// The display text of a status.
pub open spec fn status_text(s: RequirementStatus) -> Seq<char> {
    match s {
        RequirementStatus::Draft => "Draft"@,
        RequirementStatus::Approved => "Approved"@,
        RequirementStatus::Completed => "Completed"@,
        RequirementStatus::Rejected => "Rejected"@,
    }
}

impl RequirementStatus {
    /// The display text of the status.
    pub fn display_text(&self) -> (r: String)
        ensures
            r@ == status_text(*self),
    {
        match self {
            RequirementStatus::Draft => owned("Draft"),
            RequirementStatus::Approved => owned("Approved"),
            RequirementStatus::Completed => owned("Completed"),
            RequirementStatus::Rejected => owned("Rejected"),
        }
    }
}

/// The priority of a requirement.
#[derive(Debug, Clone, Copy, PartialEq, Eq, Structural, Hash)]
pub enum RequirementPriority {
    High,
    Medium,
    Low,
}

/// The display text of a priority.
pub open spec fn priority_text(p: RequirementPriority) -> Seq<char> {
    match p {
        RequirementPriority::High => "High"@,
        RequirementPriority::Medium => "Medium"@,
        RequirementPriority::Low => "Low"@,
    }
}

impl RequirementPriority {
    /// The display text of the priority.
    pub fn display_text(&self) -> (r: String)
        ensures
            r@ == priority_text(*self),
    {
        match self {
            RequirementPriority::High => owned("High"),
            RequirementPriority::Medium => owned("Medium"),
            RequirementPriority::Low => owned("Low"),
        }
    }
}

/// The type of a requirement.
#[derive(Debug, Clone, Copy, PartialEq, Eq, Structural, Hash)]
pub enum RequirementType {
    Functional,
    NonFunctional,
    System,
    User,
    ChangeRequest,
}

/// The display text of a requirement type.
pub open spec fn req_type_text(t: RequirementType) -> Seq<char> {
    match t {
        RequirementType::Functional => "Functional"@,
        RequirementType::NonFunctional => "Non-Functional"@,
        RequirementType::System => "System"@,
        RequirementType::User => "User"@,
        RequirementType::ChangeRequest => "Change Request"@,
    }
}

/// The name under which a requirement type is kept among the custom type
/// definitions (its variant name).
pub open spec fn req_type_key(t: RequirementType) -> Seq<char> {
    match t {
        RequirementType::Functional => "Functional"@,
        RequirementType::NonFunctional => "NonFunctional"@,
        RequirementType::System => "System"@,
        RequirementType::User => "User"@,
        RequirementType::ChangeRequest => "ChangeRequest"@,
    }
}

impl RequirementType {
    /// The display text of the type.
    pub fn display_text(&self) -> (r: String)
        ensures
            r@ == req_type_text(*self),
    {
        match self {
            RequirementType::Functional => owned("Functional"),
            RequirementType::NonFunctional => owned("Non-Functional"),
            RequirementType::System => owned("System"),
            RequirementType::User => owned("User"),
            RequirementType::ChangeRequest => owned("Change Request"),
        }
    }

    /// The variant name of the type, the key of its custom type definition.
    pub fn key_text(&self) -> (r: String)
        ensures
            r@ == req_type_key(*self),
    {
        match self {
            RequirementType::Functional => owned("Functional"),
            RequirementType::NonFunctional => owned("NonFunctional"),
            RequirementType::System => owned("System"),
            RequirementType::User => owned("User"),
            RequirementType::ChangeRequest => owned("ChangeRequest"),
        }
    }
}

// ===========================================================================
// Relationship kinds
// ===========================================================================

/// A kind of relationship between two requirements.
#[derive(Debug, Clone)]
pub enum RelationshipType {
    /// This is the parent of the target
    Parent,
    /// This is a child of the target
    Child,
    /// Duplicate of the target
    Duplicate,
    /// This verifies the target
    Verifies,
    /// This is verified by the target
    VerifiedBy,
    /// General reference
    References,
    /// A relationship kind with a user-defined name
    Custom(String),
}

/// The abstract value of a relationship kind: a custom kind is its name.
pub enum RelKind {
    Parent,
    Child,
    Duplicate,
    Verifies,
    VerifiedBy,
    References,
    Custom(Seq<char>),
}

impl View for RelationshipType {
    type V = RelKind;

    open spec fn view(&self) -> RelKind {
        match self {
            RelationshipType::Parent => RelKind::Parent,
            RelationshipType::Child => RelKind::Child,
            RelationshipType::Duplicate => RelKind::Duplicate,
            RelationshipType::Verifies => RelKind::Verifies,
            RelationshipType::VerifiedBy => RelKind::VerifiedBy,
            RelationshipType::References => RelKind::References,
            RelationshipType::Custom(s) => RelKind::Custom(s@),
        }
    }
}

impl PartialEq for RelationshipType {
    fn eq(&self, other: &Self) -> (r: bool) {
        match (self, other) {
            (RelationshipType::Parent, RelationshipType::Parent) => true,
            (RelationshipType::Child, RelationshipType::Child) => true,
            (RelationshipType::Duplicate, RelationshipType::Duplicate) => true,
            (RelationshipType::Verifies, RelationshipType::Verifies) => true,
            (RelationshipType::VerifiedBy, RelationshipType::VerifiedBy) => true,
            (RelationshipType::References, RelationshipType::References) => true,
            (RelationshipType::Custom(a), RelationshipType::Custom(b)) => str_eq(a.as_str(), b.as_str()),
            _ => false,
        }
    }
}

impl PartialEqSpecImpl for RelationshipType {
    open spec fn obeys_eq_spec() -> bool {
        true
    }

    open spec fn eq_spec(&self, other: &RelationshipType) -> bool {
        self@ == other@
    }
}

/// The kind that `RelationshipType::from_str` reads from a text: the
/// built-in kinds by their lowercase names, anything else as a custom kind
/// holding the text as given.
pub open spec fn rel_kind_from_text(s: Seq<char>) -> RelKind {
    rel_kind_from_lower(lowercase(s), s)
}

/// The relationship kind a text `s` names, given its lowercase form `l`:
/// a built-in kind by its name in `l`, else a custom kind named `s` as it
/// stands.
pub open spec fn rel_kind_from_lower(l: Seq<char>, s: Seq<char>) -> RelKind {
    if l == "parent"@ {
        RelKind::Parent
    } else if l == "child"@ {
        RelKind::Child
    } else if l == "duplicate"@ {
        RelKind::Duplicate
    } else if l == "verifies"@ {
        RelKind::Verifies
    } else if l == "verified-by"@ || l == "verified_by"@ || l == "verifiedby"@ {
        RelKind::VerifiedBy
    } else if l == "references"@ {
        RelKind::References
    } else {
        RelKind::Custom(s)
    }
}

/// The names and display texts of the built-in relationship kinds are
/// ASCII texts without capitals.
pub proof fn lemma_rel_kind_names_ascii(k: RelKind)
    requires
        !(k is Custom),
    ensures
        is_ascii_text(rel_kind_name(k)),
        no_ascii_capitals(rel_kind_name(k)),
        is_ascii_text(rel_kind_text(k)),
        no_ascii_capitals(rel_kind_text(k)),
{
    reveal_strlit("parent");
    reveal_strlit("child");
    reveal_strlit("duplicate");
    reveal_strlit("verifies");
    reveal_strlit("verified_by");
    reveal_strlit("verified-by");
    reveal_strlit("references");
}

/// A built-in relationship kind is read back from its name and from its
/// display text, in any ASCII case: a text equal to either up to ASCII case,
/// read through its lowercase form, names that kind.
pub proof fn lemma_rel_kind_read_back(k: RelKind, s: Seq<char>, l: Seq<char>)
    requires
        !(k is Custom),
        ascii_lowercase_of(l, s),
        same_up_to_ascii_case(s, rel_kind_name(k)) || same_up_to_ascii_case(s, rel_kind_text(k)),
    ensures
        rel_kind_from_lower(l, s) == k,
{
    lemma_rel_kind_names_ascii(k);
    if same_up_to_ascii_case(s, rel_kind_name(k)) {
        lemma_ascii_lowercase_is(l, s, rel_kind_name(k));
    } else {
        lemma_ascii_lowercase_is(l, s, rel_kind_text(k));
    }
    reveal_strlit("parent");
    reveal_strlit("child");
    reveal_strlit("duplicate");
    reveal_strlit("verifies");
    reveal_strlit("verified_by");
    reveal_strlit("verified-by");
    reveal_strlit("verifiedby");
    reveal_strlit("references");
    assert("parent"@[0] == 'p' && "child"@[0] == 'c' && "duplicate"@[0] == 'd' && "verifies"@[0] == 'v');
    assert("references"@[0] == 'r' && "verified_by"@[0] == 'v' && "verified-by"@[0] == 'v');
    assert("verifiedby"@[0] == 'v' && "verifies"@.len() == 8 && "verified_by"@.len() == 11);
    assert("verified-by"@.len() == 11 && "verifiedby"@.len() == 10);
    assert("verified_by"@[8] == '_' && "verified-by"@[8] == '-');
}

/// The built-in inverse of a relationship kind.
pub open spec fn rel_kind_inverse(k: RelKind) -> Option<RelKind> {
    match k {
        RelKind::Parent => Some(RelKind::Child),
        RelKind::Child => Some(RelKind::Parent),
        RelKind::Verifies => Some(RelKind::VerifiedBy),
        RelKind::VerifiedBy => Some(RelKind::Verifies),
        RelKind::Duplicate => Some(RelKind::Duplicate),
        RelKind::References => None,
        RelKind::Custom(_) => None,
    }
}

/// The canonical name of a relationship kind.
pub open spec fn rel_kind_name(k: RelKind) -> Seq<char> {
    match k {
        RelKind::Parent => "parent"@,
        RelKind::Child => "child"@,
        RelKind::Duplicate => "duplicate"@,
        RelKind::Verifies => "verifies"@,
        RelKind::VerifiedBy => "verified_by"@,
        RelKind::References => "references"@,
        RelKind::Custom(n) => n,
    }
}

/// The display text of a relationship kind.
pub open spec fn rel_kind_text(k: RelKind) -> Seq<char> {
    match k {
        RelKind::VerifiedBy => "verified-by"@,
        _ => rel_kind_name(k),
    }
}

/// The view of an optional relationship kind.
pub open spec fn opt_kind(o: Option<RelationshipType>) -> Option<RelKind> {
    match o {
        Some(t) => Some(t@),
        None => None,
    }
}

impl RelationshipType {
    /// A copy of this kind.
    pub fn duplicate(&self) -> (r: RelationshipType)
        ensures
            r@ == self@,
    {
        match self {
            RelationshipType::Parent => RelationshipType::Parent,
            RelationshipType::Child => RelationshipType::Child,
            RelationshipType::Duplicate => RelationshipType::Duplicate,
            RelationshipType::Verifies => RelationshipType::Verifies,
            RelationshipType::VerifiedBy => RelationshipType::VerifiedBy,
            RelationshipType::References => RelationshipType::References,
            RelationshipType::Custom(n) => RelationshipType::Custom(n.clone()),
        }
    }

    /// Whether two kinds are the same.
    pub fn same_as(&self, other: &RelationshipType) -> (r: bool)
        ensures
            r == (self@ == other@),
    {
        match (self, other) {
            (RelationshipType::Parent, RelationshipType::Parent) => true,
            (RelationshipType::Child, RelationshipType::Child) => true,
            (RelationshipType::Duplicate, RelationshipType::Duplicate) => true,
            (RelationshipType::Verifies, RelationshipType::Verifies) => true,
            (RelationshipType::VerifiedBy, RelationshipType::VerifiedBy) => true,
            (RelationshipType::References, RelationshipType::References) => true,
            (RelationshipType::Custom(a), RelationshipType::Custom(b)) => str_eq(a.as_str(), b.as_str()),
            _ => false,
        }
    }

    /// Reads a relationship kind from a text, ignoring case for the built-in
    /// names (`verified-by`, `verified_by` and `verifiedby` all name
    /// `VerifiedBy`); any other text becomes a custom kind.
    pub fn from_str(s: &str) -> (r: RelationshipType)
        ensures
            r@ == rel_kind_from_text(s@),
            is_ascii_text(s@) ==> exists|l: Seq<char>| #[trigger]
                ascii_lowercase_of(l, s@) && r@ == rel_kind_from_lower(l, s@),
    {
        let l = to_lower(s);
        let r = Self::from_lowercased(l.as_str(), s);
        proof {
            if is_ascii_text(s@) {
                assert(ascii_lowercase_of(l@, s@));
            }
        }
        r
    }

    /// The kind a text `s` names, given its lowercase form `l`: a built-in
    /// kind by its name in `l`, else a custom kind named `s`.
    pub fn from_lowercased(l: &str, s: &str) -> (r: RelationshipType)
        ensures
            r@ == rel_kind_from_lower(l@, s@),
    {
        if str_eq(l, "parent") {
            RelationshipType::Parent
        } else if str_eq(l, "child") {
            RelationshipType::Child
        } else if str_eq(l, "duplicate") {
            RelationshipType::Duplicate
        } else if str_eq(l, "verifies") {
            RelationshipType::Verifies
        } else if str_eq(l, "verified-by") || str_eq(l, "verified_by") || str_eq(l, "verifiedby") {
            RelationshipType::VerifiedBy
        } else if str_eq(l, "references") {
            RelationshipType::References
        } else {
            RelationshipType::Custom(owned(s))
        }
    }

    /// The built-in inverse kind, where there is one.
    pub fn inverse(&self) -> (r: Option<RelationshipType>)
        ensures
            opt_kind(r) == rel_kind_inverse(self@),
    {
        match self {
            RelationshipType::Parent => Some(RelationshipType::Child),
            RelationshipType::Child => Some(RelationshipType::Parent),
            RelationshipType::Verifies => Some(RelationshipType::VerifiedBy),
            RelationshipType::VerifiedBy => Some(RelationshipType::Verifies),
            RelationshipType::Duplicate => Some(RelationshipType::Duplicate),
            RelationshipType::References => None,
            RelationshipType::Custom(_) => None,
        }
    }

    /// The canonical name of the kind.
    pub fn name(&self) -> (r: String)
        ensures
            r@ == rel_kind_name(self@),
    {
        match self {
            RelationshipType::Parent => owned("parent"),
            RelationshipType::Child => owned("child"),
            RelationshipType::Duplicate => owned("duplicate"),
            RelationshipType::Verifies => owned("verifies"),
            RelationshipType::VerifiedBy => owned("verified_by"),
            RelationshipType::References => owned("references"),
            RelationshipType::Custom(n) => n.clone(),
        }
    }

    /// The display text of the kind.
    pub fn display_text(&self) -> (r: String)
        ensures
            r@ == rel_kind_text(self@),
    {
        match self {
            RelationshipType::VerifiedBy => owned("verified-by"),
            _ => self.name(),
        }
    }
}

/// Applying the built-in inverse twice gives back the kind itself.
pub proof fn lemma_inverse_involutive(k: RelKind)
    requires
        rel_kind_inverse(k) is Some,
    ensures
        rel_kind_inverse(rel_kind_inverse(k)->0) == Some(k),
{
}


// ===========================================================================
// Custom type definitions
// ===========================================================================

/// The kind of value a custom field holds.
#[derive(Debug, Clone, Copy, PartialEq, Eq, Structural)]
pub enum CustomFieldType {
    /// Single-line text input
    Text,
    /// Multi-line text input
    TextArea,
    /// Selection from predefined options
    Select,
    /// Boolean checkbox
    Boolean,
    /// Date value
    Date,
    /// Reference to a user
    User,
    /// Reference to another requirement
    Requirement,
    /// Numeric value
    Number,
}

/// The display text of a custom field type.
pub open spec fn field_type_text(t: CustomFieldType) -> Seq<char> {
    match t {
        CustomFieldType::Text => "Text"@,
        CustomFieldType::TextArea => "Text Area"@,
        CustomFieldType::Select => "Select"@,
        CustomFieldType::Boolean => "Boolean"@,
        CustomFieldType::Date => "Date"@,
        CustomFieldType::User => "User Reference"@,
        CustomFieldType::Requirement => "Requirement Reference"@,
        CustomFieldType::Number => "Number"@,
    }
}

impl CustomFieldType {
    /// The field type of a field that does not say: `Text`.
    pub fn default_type() -> (r: CustomFieldType)
        ensures
            r == CustomFieldType::Text,
    {
        CustomFieldType::Text
    }

    /// The display text of the field type.
    pub fn display_text(&self) -> (r: String)
        ensures
            r@ == field_type_text(*self),
    {
        match self {
            CustomFieldType::Text => owned("Text"),
            CustomFieldType::TextArea => owned("Text Area"),
            CustomFieldType::Select => owned("Select"),
            CustomFieldType::Boolean => owned("Boolean"),
            CustomFieldType::Date => owned("Date"),
            CustomFieldType::User => owned("User Reference"),
            CustomFieldType::Requirement => owned("Requirement Reference"),
            CustomFieldType::Number => owned("Number"),
        }
    }
}

impl Default for CustomFieldType {
    fn default() -> (r: CustomFieldType)
        ensures
            r == CustomFieldType::Text,
    {
        CustomFieldType::Text
    }
}

/// A custom field that requirements of a type carry.
#[derive(Debug, Clone)]
pub struct CustomFieldDefinition {
    /// Field name (the key among a requirement's custom field values)
    pub name: String,
    /// Display label
    pub label: String,
    /// Field type
    pub field_type: CustomFieldType,
    /// Whether the field must be filled in
    pub required: bool,
    /// Options of a `Select` field
    pub options: Vec<String>,
    /// Default value, as text
    pub default_value: Option<String>,
    /// Help text
    pub description: Option<String>,
    /// Display order (lower first)
    pub order: i32,
}

impl CustomFieldDefinition {
    fn plain(name: &str, label: &str, field_type: CustomFieldType, options: Vec<String>) -> (r: Self)
        ensures
            r.name@ == name@,
            r.label@ == label@,
            r.field_type == field_type,
            !r.required,
            r.options == options,
            r.default_value is None,
            r.description is None,
            r.order == 0,
    {
        CustomFieldDefinition {
            name: owned(name),
            label: owned(label),
            field_type,
            required: false,
            options,
            default_value: None,
            description: None,
            order: 0,
        }
    }

    /// A new optional single-line text field.
    pub fn text(name: &str, label: &str) -> (r: Self)
        ensures
            r.name@ == name@,
            r.label@ == label@,
            r.field_type == CustomFieldType::Text,
            !r.required,
            r.options@.len() == 0,
            r.default_value is None,
            r.description is None,
            r.order == 0,
    {
        Self::plain(name, label, CustomFieldType::Text, Vec::new())
    }

    /// A new optional selection field with the given options.
    pub fn select(name: &str, label: &str, options: Vec<String>) -> (r: Self)
        ensures
            r.name@ == name@,
            r.label@ == label@,
            r.field_type == CustomFieldType::Select,
            !r.required,
            r.options == options,
            r.default_value is None,
            r.description is None,
            r.order == 0,
    {
        Self::plain(name, label, CustomFieldType::Select, options)
    }

    /// A new optional user reference field.
    pub fn user_ref(name: &str, label: &str) -> (r: Self)
        ensures
            r.name@ == name@,
            r.label@ == label@,
            r.field_type == CustomFieldType::User,
            !r.required,
            r.options@.len() == 0,
            r.default_value is None,
            r.description is None,
            r.order == 0,
    {
        Self::plain(name, label, CustomFieldType::User, Vec::new())
    }

    /// The same field, made required.
    pub fn required(self) -> (r: Self)
        ensures
            r == (CustomFieldDefinition { required: true, ..self }),
    {
        CustomFieldDefinition { required: true, ..self }
    }

    /// The same field with a help text.
    pub fn with_description(self, desc: &str) -> (r: Self)
        ensures
            opt_is(r.description, desc@),
            r == (CustomFieldDefinition { description: r.description, ..self }),
    {
        CustomFieldDefinition { description: Some(owned(desc)), ..self }
    }

    /// The same field with a display order.
    pub fn with_order(self, order: i32) -> (r: Self)
        ensures
            r == (CustomFieldDefinition { order, ..self }),
    {
        CustomFieldDefinition { order, ..self }
    }

    /// The same field with a default value.
    pub fn with_default(self, value: &str) -> (r: Self)
        ensures
            opt_is(r.default_value, value@),
            r == (CustomFieldDefinition { default_value: r.default_value, ..self }),
    {
        CustomFieldDefinition { default_value: Some(owned(value)), ..self }
    }
}

/// The statuses that a type without statuses of its own offers.
pub open spec fn default_statuses() -> Seq<Seq<char>> {
    seq!["Draft"@, "Approved"@, "Completed"@, "Rejected"@]
}

/// A fresh vector of the default statuses.
pub fn default_status_list() -> (r: Vec<String>)
    ensures
        views(r@) == default_statuses(),
{
    let mut v: Vec<String> = Vec::new();
    v.push(owned("Draft"));
    v.push(owned("Approved"));
    v.push(owned("Completed"));
    v.push(owned("Rejected"));
    proof {
        assert(views(v@) =~= default_statuses());
    }
    v
}

/// A requirement type with its own statuses and custom fields.
#[derive(Debug, Clone)]
pub struct CustomTypeDefinition {
    /// Key of the type (such as "ChangeRequest")
    pub name: String,
    /// Display label (such as "Change Request")
    pub display_name: String,
    /// Description
    pub description: Option<String>,
    /// Preferred identifier prefix
    pub prefix: Option<String>,
    /// Statuses of the type; empty means the default statuses
    pub statuses: Vec<String>,
    /// Custom fields of the type
    pub custom_fields: Vec<CustomFieldDefinition>,
    /// Whether the type is built in (cannot be deleted)
    pub built_in: bool,
    /// Colour (hex code)
    pub color: Option<String>,
}

impl CustomTypeDefinition {
    fn make(name: &str, display_name: &str, built_in: bool) -> (r: Self)
        ensures
            r.name@ == name@,
            r.display_name@ == display_name@,
            r.description is None,
            r.prefix is None,
            r.statuses@.len() == 0,
            r.custom_fields@.len() == 0,
            r.built_in == built_in,
            r.color is None,
    {
        CustomTypeDefinition {
            name: owned(name),
            display_name: owned(display_name),
            description: None,
            prefix: None,
            statuses: Vec::new(),
            custom_fields: Vec::new(),
            built_in,
            color: None,
        }
    }

    /// A new user-defined type with no statuses or fields of its own.
    pub fn new(name: &str, display_name: &str) -> (r: Self)
        ensures
            r.name@ == name@,
            r.display_name@ == display_name@,
            r.description is None,
            r.prefix is None,
            r.statuses@.len() == 0,
            r.custom_fields@.len() == 0,
            !r.built_in,
            r.color is None,
    {
        Self::make(name, display_name, false)
    }

    /// A new built-in type with no statuses or fields of its own.
    pub fn built_in(name: &str, display_name: &str) -> (r: Self)
        ensures
            r.name@ == name@,
            r.display_name@ == display_name@,
            r.description is None,
            r.prefix is None,
            r.statuses@.len() == 0,
            r.custom_fields@.len() == 0,
            r.built_in,
            r.color is None,
    {
        Self::make(name, display_name, true)
    }

    /// The same type with an identifier prefix.
    pub fn with_prefix(self, prefix: &str) -> (r: Self)
        ensures
            opt_is(r.prefix, prefix@),
            r == (CustomTypeDefinition { prefix: r.prefix, ..self }),
    {
        CustomTypeDefinition { prefix: Some(owned(prefix)), ..self }
    }

    /// The same type with the given statuses.
    pub fn with_statuses(self, statuses: Vec<&str>) -> (r: Self)
        ensures
            views(r.statuses@) == statuses@.map_values(|s: &str| s@),
            r == (CustomTypeDefinition { statuses: r.statuses, ..self }),
    {
        let mut v: Vec<String> = Vec::new();
        let mut i: usize = 0;
        while i < statuses.len()
            invariant
                i <= statuses.len(),
                views(v@) == statuses@.take(i as int).map_values(|s: &str| s@),
            decreases statuses.len() - i,
        {
            let ghost prev = v@;
            v.push(owned(statuses[i]));
            proof {
                assert(statuses@.take(i as int + 1) == statuses@.take(i as int).push(statuses@[i as int]));
                assert(views(v@) =~= views(prev).push(statuses@[i as int]@));
                assert(views(v@) =~= statuses@.take(i as int + 1).map_values(|s: &str| s@));
            }
            i = i + 1;
        }
        proof {
            assert(statuses@.take(statuses.len() as int) == statuses@);
        }
        CustomTypeDefinition { statuses: v, ..self }
    }

    /// The same type with one more custom field at the end.
    pub fn with_field(self, field: CustomFieldDefinition) -> (r: Self)
        ensures
            r.custom_fields@ == self.custom_fields@.push(field),
            r == (CustomTypeDefinition { custom_fields: r.custom_fields, ..self }),
    {
        let mut s = self;
        s.custom_fields.push(field);
        s
    }

    /// The same type with a description.
    pub fn with_description(self, desc: &str) -> (r: Self)
        ensures
            opt_is(r.description, desc@),
            r == (CustomTypeDefinition { description: r.description, ..self }),
    {
        CustomTypeDefinition { description: Some(owned(desc)), ..self }
    }

    /// The same type with a colour.
    pub fn with_color(self, color: &str) -> (r: Self)
        ensures
            opt_is(r.color, color@),
            r == (CustomTypeDefinition { color: r.color, ..self }),
    {
        CustomTypeDefinition { color: Some(owned(color)), ..self }
    }

    /// The statuses of the type: its own, or the default ones when it has
    /// none.
    pub fn get_statuses(&self) -> (r: Vec<String>)
        ensures
            self.statuses@.len() == 0 ==> views(r@) == default_statuses(),
            self.statuses@.len() > 0 ==> r@ == self.statuses@,
    {
        if self.statuses.len() == 0 {
            default_status_list()
        } else {
            crate::text::clone_strings(&self.statuses)
        }
    }
}

/// The keys of the built-in requirement types, in order.
pub open spec fn default_type_keys() -> Seq<Seq<char>> {
    seq!["Functional"@, "NonFunctional"@, "System"@, "User"@, "ChangeRequest"@]
}

/// The identifier prefixes of the built-in requirement types, in order.
pub open spec fn default_type_prefixes() -> Seq<Seq<char>> {
    seq!["FR"@, "NFR"@, "SYS"@, "US"@, "CR"@]
}

/// The statuses of a change request.
pub open spec fn change_request_statuses() -> Seq<Seq<char>> {
    seq![
        "Draft"@,
        "Submitted"@,
        "Under Review"@,
        "Approved"@,
        "Rejected"@,
        "In Progress"@,
        "Implemented"@,
        "Verified"@,
        "Closed"@,
    ]
}

/// The display names of the built-in requirement types, in order.
pub open spec fn default_type_display_names() -> Seq<Seq<char>> {
    seq!["Functional"@, "Non-Functional"@, "System"@, "User Story"@, "Change Request"@]
}

/// The descriptions of the built-in requirement types, in order.
pub open spec fn default_type_descriptions() -> Seq<Seq<char>> {
    seq![
        "Functional requirements describing system behavior"@,
        "Non-functional requirements (performance, security, etc.)"@,
        "System-level requirements"@,
        "User stories and user requirements"@,
        "Change requests for existing functionality"@,
    ]
}

/// Whether `f` is the `k`-th custom field of a change request: `impact`
/// (a choice of Low, Medium, High, Critical), `requested_by` (a user),
/// `target_release` and the required `justification` (texts), with their
/// labels, help texts and orders 1 to 4, no default values.
pub open spec fn is_change_request_field(f: CustomFieldDefinition, k: int) -> bool {
    &&& f.name@ == seq!["impact"@, "requested_by"@, "target_release"@, "justification"@][k]
    &&& f.label@ == seq!["Impact Level"@, "Requested By"@, "Target Release"@, "Justification"@][k]
    &&& opt_is(
        f.description,
        seq![
            "Impact of this change on the system"@,
            "User who requested this change"@,
            "Target release version for this change"@,
            "Business justification for the change"@,
        ][k],
    )
    &&& f.field_type == seq![
        CustomFieldType::Select,
        CustomFieldType::User,
        CustomFieldType::Text,
        CustomFieldType::Text,
    ][k]
    &&& f.order == k + 1
    &&& (f.required <==> k == 3)
    &&& f.default_value is None
    &&& views(f.options@) == if k == 0 {
        seq!["Low"@, "Medium"@, "High"@, "Critical"@]
    } else {
        Seq::empty()
    }
}

/// Whether `v` holds exactly the built-in requirement types, in order:
/// Functional, NonFunctional, System, User and ChangeRequest with their
/// display names, descriptions and prefixes, all built in; the first four
/// with the default statuses, no fields and no colour, the change request
/// with its own statuses, colour and four custom fields.
pub open spec fn is_default_type_defs(v: Seq<CustomTypeDefinition>) -> bool {
    &&& v.len() == 5
    &&& forall|i: int| 0 <= i < 5 ==> #[trigger] v[i].name@ == default_type_keys()[i]
    &&& forall|i: int| 0 <= i < 5 ==> (#[trigger] v[i]).display_name@ == default_type_display_names()[i]
    &&& forall|i: int| 0 <= i < 5 ==> opt_is((#[trigger] v[i]).description, default_type_descriptions()[i])
    &&& forall|i: int| 0 <= i < 5 ==> opt_is(#[trigger] v[i].prefix, default_type_prefixes()[i])
    &&& forall|i: int| 0 <= i < 5 ==> (#[trigger] v[i]).built_in
    &&& forall|i: int| 0 <= i < 4 ==> (#[trigger] v[i]).statuses@.len() == 0
    &&& forall|i: int| 0 <= i < 4 ==> (#[trigger] v[i]).custom_fields@.len() == 0
    &&& forall|i: int| 0 <= i < 4 ==> (#[trigger] v[i]).color is None
    &&& views(v[4].statuses@) == change_request_statuses()
    &&& opt_is(v[4].color, "#9333ea"@)
    &&& v[4].custom_fields@.len() == 4
    &&& forall|k: int| 0 <= k < 4 ==> is_change_request_field(#[trigger] v[4].custom_fields@[k], k)
}

/// The built-in requirement type definitions: Functional, NonFunctional,
/// System, User and ChangeRequest, the last with its own statuses and four
/// custom fields.
pub fn default_type_definitions() -> (r: Vec<CustomTypeDefinition>)
    ensures
        is_default_type_defs(r@),
{
    let mut v: Vec<CustomTypeDefinition> = Vec::new();
    v.push(
        CustomTypeDefinition::built_in("Functional", "Functional")
            .with_prefix("FR")
            .with_description("Functional requirements describing system behavior"),
    );
    v.push(
        CustomTypeDefinition::built_in("NonFunctional", "Non-Functional")
            .with_prefix("NFR")
            .with_description("Non-functional requirements (performance, security, etc.)"),
    );
    v.push(
        CustomTypeDefinition::built_in("System", "System")
            .with_prefix("SYS")
            .with_description("System-level requirements"),
    );
    v.push(
        CustomTypeDefinition::built_in("User", "User Story")
            .with_prefix("US")
            .with_description("User stories and user requirements"),
    );
    let mut impact_options: Vec<String> = Vec::new();
    impact_options.push(owned("Low"));
    impact_options.push(owned("Medium"));
    impact_options.push(owned("High"));
    impact_options.push(owned("Critical"));
    let ghost impact_views = views(impact_options@);
    proof {
        assert(impact_views =~= seq!["Low"@, "Medium"@, "High"@, "Critical"@]);
    }
    let statuses: Vec<&str> = vec![
        "Draft",
        "Submitted",
        "Under Review",
        "Approved",
        "Rejected",
        "In Progress",
        "Implemented",
        "Verified",
        "Closed",
    ];
    let cr = CustomTypeDefinition::built_in("ChangeRequest", "Change Request")
        .with_prefix("CR")
        .with_description("Change requests for existing functionality")
        .with_statuses(statuses)
        .with_color("#9333ea")
        .with_field(
            CustomFieldDefinition::select("impact", "Impact Level", impact_options)
                .with_description("Impact of this change on the system")
                .with_order(1),
        )
        .with_field(
            CustomFieldDefinition::user_ref("requested_by", "Requested By")
                .with_description("User who requested this change")
                .with_order(2),
        )
        .with_field(
            CustomFieldDefinition::text("target_release", "Target Release")
                .with_description("Target release version for this change")
                .with_order(3),
        )
        .with_field(
            CustomFieldDefinition::text("justification", "Justification")
                .required()
                .with_description("Business justification for the change")
                .with_order(4),
        );
    v.push(cr);
    proof {
        assert(views(v@[4].statuses@) =~= change_request_statuses());
        let fs = v@[4].custom_fields@;
        assert(is_change_request_field(fs[0], 0));
        assert(is_change_request_field(fs[1], 1)) by {
            assert(views(fs[1].options@) =~= Seq::<Seq<char>>::empty());
        }
        assert(is_change_request_field(fs[2], 2)) by {
            assert(views(fs[2].options@) =~= Seq::<Seq<char>>::empty());
        }
        assert(is_change_request_field(fs[3], 3)) by {
            assert(views(fs[3].options@) =~= Seq::<Seq<char>>::empty());
        }
        assert forall|k: int| 0 <= k < 4 implies is_change_request_field(#[trigger] fs[k], k) by {
            if k == 0 {
            } else if k == 1 {
            } else if k == 2 {
            } else {
            }
        }
    }
    v
}


// ===========================================================================
// Relationship definitions
// ===========================================================================

/// How many relationships of a kind a requirement may take part in.
#[derive(Debug, Clone, Copy, PartialEq, Eq, Structural)]
pub enum Cardinality {
    /// One source to one target (1:1)
    OneToOne,
    /// One source to many targets (1:N)
    OneToMany,
    /// Many sources to one target (N:1)
    ManyToOne,
    /// Many sources to many targets (N:N), the default
    ManyToMany,
}

impl Default for Cardinality {
    fn default() -> (r: Cardinality)
        ensures
            r == Cardinality::ManyToMany,
    {
        Cardinality::ManyToMany
    }
}

/// The display text of a cardinality.
pub open spec fn cardinality_text(c: Cardinality) -> Seq<char> {
    match c {
        Cardinality::OneToOne => "1:1"@,
        Cardinality::OneToMany => "1:N"@,
        Cardinality::ManyToOne => "N:1"@,
        Cardinality::ManyToMany => "N:N"@,
    }
}

/// The key that the display text of a cardinality is read by: the text
/// without capitals.
pub open spec fn cardinality_key(c: Cardinality) -> Seq<char> {
    match c {
        Cardinality::OneToOne => "1:1"@,
        Cardinality::OneToMany => "1:n"@,
        Cardinality::ManyToOne => "n:1"@,
        Cardinality::ManyToMany => "n:n"@,
    }
}

/// A cardinality is read back from its display text, in any ASCII case.
pub proof fn lemma_cardinality_read_back(c: Cardinality, s: Seq<char>, l: Seq<char>)
    requires
        ascii_lowercase_of(l, s),
        same_up_to_ascii_case(s, cardinality_text(c)),
    ensures
        cardinality_from_lower(l) == c,
{
    reveal_strlit("1:1");
    reveal_strlit("1:N");
    reveal_strlit("N:1");
    reveal_strlit("N:N");
    reveal_strlit("1:n");
    reveal_strlit("n:1");
    reveal_strlit("n:n");
    reveal_strlit("one_to_one");
    reveal_strlit("onetoone");
    reveal_strlit("one_to_many");
    reveal_strlit("onetomany");
    reveal_strlit("many_to_one");
    reveal_strlit("manytoone");
    let k = cardinality_key(c);
    assert(same_up_to_ascii_case(s, k)) by {
        assert forall|i: int| 0 <= i < s.len() implies folded_code(#[trigger] s[i]) == folded_code(k[i]) by {
            assert(folded_code(s[i]) == folded_code(cardinality_text(c)[i]));
        }
    }
    lemma_ascii_lowercase_is(l, s, k);
    reveal_with_fuel(without_spaces, 4);
    assert(without_spaces(k) =~= k);
}

/// Reading a cardinality ignores case and spaces: for an ASCII text `s`
/// with lowercase form `l`, the lowercase form `l2` of `l` without spaces
/// reads as `l` does.
pub proof fn lemma_cardinality_normal_form(s: Seq<char>, l: Seq<char>, l2: Seq<char>)
    requires
        ascii_lowercase_of(l, s),
        ascii_lowercase_of(l2, without_spaces(l)),
    ensures
        cardinality_from_lower(l2) == cardinality_from_lower(l),
{
    lemma_without_spaces_keeps(l);
    lemma_ascii_lowercase_is(l2, without_spaces(l), without_spaces(l));
    lemma_without_spaces_fixed(without_spaces(l));
}

/// Removing spaces leaves no space, keeps a text without capitals so, and
/// keeps an ASCII text ASCII.
pub proof fn lemma_without_spaces_keeps(s: Seq<char>)
    ensures
        forall|i: int| 0 <= i < without_spaces(s).len() ==> (#[trigger] without_spaces(s)[i]) != ' ',
        no_ascii_capitals(s) ==> no_ascii_capitals(without_spaces(s)),
        is_ascii_text(s) ==> is_ascii_text(without_spaces(s)),
    decreases s.len(),
{
    if s.len() > 0 {
        lemma_without_spaces_keeps(s.drop_last());
        if no_ascii_capitals(s) {
            assert forall|i: int| 0 <= i < s.drop_last().len() implies !is_upper_ascii(#[trigger] s.drop_last()[i]) by {
                assert(s.drop_last()[i] == s[i]);
            }
        }
        if is_ascii_text(s) {
            assert forall|i: int| 0 <= i < s.drop_last().len() implies (#[trigger] s.drop_last()[i]) as int <= 0x7f by {
                assert(s.drop_last()[i] == s[i]);
            }
        }
    }
}

/// A text without spaces stays as it is when spaces are removed.
pub proof fn lemma_without_spaces_fixed(s: Seq<char>)
    requires
        forall|i: int| 0 <= i < s.len() ==> (#[trigger] s[i]) != ' ',
    ensures
        without_spaces(s) == s,
    decreases s.len(),
{
    if s.len() > 0 {
        assert forall|i: int| 0 <= i < s.drop_last().len() implies (#[trigger] s.drop_last()[i]) != ' ' by {
            assert(s.drop_last()[i] == s[i]);
        }
        lemma_without_spaces_fixed(s.drop_last());
        assert(s.drop_last().push(s.last()) =~= s);
    }
}

/// `s` with every space removed.
pub open spec fn without_spaces(s: Seq<char>) -> Seq<char>
    decreases s.len(),
{
    if s.len() == 0 {
        s
    } else if s.last() == ' ' {
        without_spaces(s.drop_last())
    } else {
        without_spaces(s.drop_last()).push(s.last())
    }
}

fn remove_spaces(s: &str) -> (r: String)
    ensures
        r@ == without_spaces(s@),
{
    let n = s.unicode_len();
    let mut r = String::new();
    let mut i: usize = 0;
    while i < n
        invariant
            n == s@.len(),
            i <= n,
            r@ == without_spaces(s@.take(i as int)),
        decreases n - i,
    {
        let c = s.get_char(i);
        proof {
            assert(s@.take(i as int + 1).drop_last() =~= s@.take(i as int));
        }
        if c != ' ' {
            crate::text::push_char(&mut r, c);
        }
        i = i + 1;
    }
    proof {
        assert(s@.take(n as int) =~= s@);
    }
    r
}

/// The cardinality that `Cardinality::from_str` reads from a text, compared
/// in lowercase with spaces removed; anything unknown is many-to-many.
pub open spec fn cardinality_from_text(s: Seq<char>) -> Cardinality {
    cardinality_from_lower(lowercase(s))
}

/// The cardinality a text names, given its lowercase form `l`: spaces are
/// ignored, then `1:1`, `1:n`, `n:1` or their spelled-out names; anything
/// else is many-to-many.
pub open spec fn cardinality_from_lower(l: Seq<char>) -> Cardinality {
    let k = without_spaces(l);
    if k == "1:1"@ || k == "one_to_one"@ || k == "onetoone"@ {
        Cardinality::OneToOne
    } else if k == "1:n"@ || k == "one_to_many"@ || k == "onetomany"@ {
        Cardinality::OneToMany
    } else if k == "n:1"@ || k == "many_to_one"@ || k == "manytoone"@ {
        Cardinality::ManyToOne
    } else {
        Cardinality::ManyToMany
    }
}

impl Cardinality {
    /// Reads a cardinality from a text such as `1:N` or `one_to_many`.
    pub fn from_str(s: &str) -> (r: Cardinality)
        ensures
            r == cardinality_from_text(s@),
            is_ascii_text(s@) ==> exists|l: Seq<char>| #[trigger]
                ascii_lowercase_of(l, s@) && r == cardinality_from_lower(l),
    {
        let l = to_lower(s);
        let r = Self::from_lowercased(l.as_str());
        proof {
            if is_ascii_text(s@) {
                assert(ascii_lowercase_of(l@, s@));
            }
        }
        r
    }

    /// The cardinality a text names, given its lowercase form `l`.
    pub fn from_lowercased(l: &str) -> (r: Cardinality)
        ensures
            r == cardinality_from_lower(l@),
    {
        let k = remove_spaces(l);
        let k = k.as_str();
        if str_eq(k, "1:1") || str_eq(k, "one_to_one") || str_eq(k, "onetoone") {
            Cardinality::OneToOne
        } else if str_eq(k, "1:n") || str_eq(k, "one_to_many") || str_eq(k, "onetomany") {
            Cardinality::OneToMany
        } else if str_eq(k, "n:1") || str_eq(k, "many_to_one") || str_eq(k, "manytoone") {
            Cardinality::ManyToOne
        } else {
            Cardinality::ManyToMany
        }
    }

    /// The display text of the cardinality (`1:1`, `1:N`, `N:1`, `N:N`).
    pub fn display_text(&self) -> (r: String)
        ensures
            r@ == cardinality_text(*self),
    {
        match self {
            Cardinality::OneToOne => owned("1:1"),
            Cardinality::OneToMany => owned("1:N"),
            Cardinality::ManyToOne => owned("N:1"),
            Cardinality::ManyToMany => owned("N:N"),
        }
    }
}

/// A relationship kind together with its constraints.
#[derive(Debug, Clone)]
pub struct RelationshipDefinition {
    /// Name of the kind (lowercase)
    pub name: String,
    /// Display name
    pub display_name: String,
    /// What the relationship means
    pub description: String,
    /// Name of the inverse kind, if any
    pub inverse: Option<String>,
    /// Whether A->B implies B->A with the same kind
    pub symmetric: bool,
    /// Cardinality constraint
    pub cardinality: Cardinality,
    /// Requirement types allowed as source (empty means all)
    pub source_types: Vec<String>,
    /// Requirement types allowed as target (empty means all)
    pub target_types: Vec<String>,
    /// Whether the definition is built in (cannot be removed)
    pub built_in: bool,
    /// Colour for display
    pub color: Option<String>,
    /// Icon for display
    pub icon: Option<String>,
}

/// Whether a list of allowed type names admits a requirement type: an empty
/// list admits every type, otherwise one entry must equal the type's display
/// text up to ASCII case.
pub open spec fn type_list_allows(types: Seq<String>, t: RequirementType) -> bool {
    types.len() == 0 || exists|i: int|
        0 <= i < types.len() && eq_ignore_ascii_case(#[trigger] types[i]@, req_type_text(t))
}

fn list_allows(types: &Vec<String>, t: &RequirementType) -> (r: bool)
    ensures
        r == type_list_allows(types@, *t),
{
    if types.len() == 0 {
        return true;
    }
    let text = t.display_text();
    let mut i: usize = 0;
    while i < types.len()
        invariant
            i <= types.len(),
            text@ == req_type_text(*t),
            forall|j: int| 0 <= j < i ==> !eq_ignore_ascii_case(#[trigger] types@[j]@, req_type_text(*t)),
        decreases types.len() - i,
    {
        if eq_ignore_case(types[i].as_str(), text.as_str()) {
            return true;
        }
        i = i + 1;
    }
    false
}

impl RelationshipDefinition {
    fn make(name: &str, display_name: &str, description: &str, built_in: bool) -> (r: Self)
        ensures
            r.name@ == lowercase(name@),
            is_ascii_text(name@) ==> ascii_lowercase_of(r.name@, name@),
            r.display_name@ == display_name@,
            r.description@ == description@,
            r.inverse is None,
            !r.symmetric,
            r.cardinality == Cardinality::ManyToMany,
            r.source_types@.len() == 0,
            r.target_types@.len() == 0,
            r.built_in == built_in,
            r.color is None,
            r.icon is None,
    {
        RelationshipDefinition {
            name: to_lower(name),
            display_name: owned(display_name),
            description: owned(description),
            inverse: None,
            symmetric: false,
            cardinality: Cardinality::ManyToMany,
            source_types: Vec::new(),
            target_types: Vec::new(),
            built_in,
            color: None,
            icon: None,
        }
    }

    /// A new user-defined, unconstrained many-to-many relationship kind; the
    /// name is kept in lowercase.
    pub fn new(name: &str, display_name: &str) -> (r: Self)
        ensures
            r.name@ == lowercase(name@),
            r.display_name@ == display_name@,
            r.description@.len() == 0,
            r.inverse is None,
            !r.symmetric,
            r.cardinality == Cardinality::ManyToMany,
            r.source_types@.len() == 0,
            r.target_types@.len() == 0,
            !r.built_in,
            r.color is None,
            r.icon is None,
    {
        let r = Self::make(name, display_name, "", false);
        proof {
            reveal_strlit("");
        }
        r
    }

    /// A new built-in, unconstrained many-to-many relationship kind.
    pub fn built_in(name: &str, display_name: &str, description: &str) -> (r: Self)
        ensures
            r.name@ == lowercase(name@),
            is_ascii_text(name@) ==> ascii_lowercase_of(r.name@, name@),
            r.display_name@ == display_name@,
            r.description@ == description@,
            r.inverse is None,
            !r.symmetric,
            r.cardinality == Cardinality::ManyToMany,
            r.source_types@.len() == 0,
            r.target_types@.len() == 0,
            r.built_in,
            r.color is None,
            r.icon is None,
    {
        Self::make(name, display_name, description, true)
    }

    /// The same definition with an inverse kind (kept in lowercase).
    pub fn with_inverse(self, inverse: &str) -> (r: Self)
        ensures
            opt_is(r.inverse, lowercase(inverse@)),
            is_ascii_text(inverse@) ==> r.inverse is Some && ascii_lowercase_of(r.inverse->0@, inverse@),
            r == (RelationshipDefinition { inverse: r.inverse, ..self }),
    {
        RelationshipDefinition { inverse: Some(to_lower(inverse)), ..self }
    }

    /// The same definition, symmetric or not.
    pub fn with_symmetric(self, symmetric: bool) -> (r: Self)
        ensures
            r == (RelationshipDefinition { symmetric, ..self }),
    {
        RelationshipDefinition { symmetric, ..self }
    }

    /// The same definition with a cardinality.
    pub fn with_cardinality(self, cardinality: Cardinality) -> (r: Self)
        ensures
            r == (RelationshipDefinition { cardinality, ..self }),
    {
        RelationshipDefinition { cardinality, ..self }
    }

    /// The same definition with allowed source types.
    pub fn with_source_types(self, types: Vec<String>) -> (r: Self)
        ensures
            r == (RelationshipDefinition { source_types: types, ..self }),
    {
        RelationshipDefinition { source_types: types, ..self }
    }

    /// The same definition with allowed target types.
    pub fn with_target_types(self, types: Vec<String>) -> (r: Self)
        ensures
            r == (RelationshipDefinition { target_types: types, ..self }),
    {
        RelationshipDefinition { target_types: types, ..self }
    }

    /// The same definition with a colour.
    pub fn with_color(self, color: &str) -> (r: Self)
        ensures
            opt_is(r.color, color@),
            r == (RelationshipDefinition { color: r.color, ..self }),
    {
        RelationshipDefinition { color: Some(owned(color)), ..self }
    }

    /// The built-in relationship definitions.
    pub fn defaults() -> (r: Vec<RelationshipDefinition>)
        ensures
            is_default_rel_defs(r@),
    {
        let mut v: Vec<RelationshipDefinition> = Vec::new();
        v.push(
            RelationshipDefinition::built_in("parent", "Parent", "Hierarchical parent requirement")
                .with_inverse("child")
                .with_cardinality(Cardinality::ManyToOne),
        );
        v.push(
            RelationshipDefinition::built_in("child", "Child", "Hierarchical child requirement")
                .with_inverse("parent")
                .with_cardinality(Cardinality::OneToMany),
        );
        v.push(
            RelationshipDefinition::built_in("verifies", "Verifies", "Test or verification relationship")
                .with_inverse("verified_by"),
        );
        v.push(
            RelationshipDefinition::built_in("verified_by", "Verified By", "Verified by a test requirement")
                .with_inverse("verifies"),
        );
        v.push(
            RelationshipDefinition::built_in("duplicate", "Duplicate", "Marks requirements as duplicates")
                .with_symmetric(true),
        );
        v.push(RelationshipDefinition::built_in("references", "References", "General reference link"));
        v.push(
            RelationshipDefinition::built_in("depends_on", "Depends On", "Dependency relationship")
                .with_inverse("dependency_of"),
        );
        v.push(
            RelationshipDefinition::built_in("dependency_of", "Dependency Of", "Inverse dependency relationship")
                .with_inverse("depends_on"),
        );
        v.push(
            RelationshipDefinition::built_in("implements", "Implements", "Implementation relationship")
                .with_inverse("implemented_by"),
        );
        v.push(
            RelationshipDefinition::built_in("implemented_by", "Implemented By", "Inverse implementation relationship")
                .with_inverse("implements"),
        );
        v.push(
            RelationshipDefinition::built_in("created_by", "Created By", "User who created the requirement")
                .with_cardinality(Cardinality::ManyToOne)
                .with_color("#4a9eff"),
        );
        v.push(
            RelationshipDefinition::built_in("assigned_to", "Assigned To", "User assigned to work on this requirement")
                .with_cardinality(Cardinality::ManyToOne)
                .with_color("#22c55e"),
        );
        v.push(
            RelationshipDefinition::built_in("tested_by", "Tested By", "User who tested/verified the requirement")
                .with_cardinality(Cardinality::ManyToMany)
                .with_color("#f59e0b"),
        );
        v.push(
            RelationshipDefinition::built_in("closed_by", "Closed By", "User who closed/completed the requirement")
                .with_cardinality(Cardinality::ManyToOne)
                .with_color("#ef4444"),
        );
        proof {
            reveal_strlit("parent");
            reveal_strlit("child");
            reveal_strlit("verifies");
            reveal_strlit("verified_by");
            reveal_strlit("duplicate");
            reveal_strlit("references");
            reveal_strlit("depends_on");
            reveal_strlit("dependency_of");
            reveal_strlit("implements");
            reveal_strlit("implemented_by");
            reveal_strlit("created_by");
            reveal_strlit("assigned_to");
            reveal_strlit("tested_by");
            reveal_strlit("closed_by");
            lemma_default_rel_names_plain(v@);
            lemma_default_rel_inverses_plain(v@);
        }
        v
    }

    /// Whether a requirement type may be the source of this relationship.
    pub fn allows_source_type(&self, req_type: &RequirementType) -> (r: bool)
        ensures
            r == type_list_allows(self.source_types@, *req_type),
    {
        list_allows(&self.source_types, req_type)
    }

    /// Whether a requirement type may be the target of this relationship.
    pub fn allows_target_type(&self, req_type: &RequirementType) -> (r: bool)
        ensures
            r == type_list_allows(self.target_types@, *req_type),
    {
        list_allows(&self.target_types, req_type)
    }
}

/// The names of the built-in relationship kinds, in order.
pub open spec fn default_rel_names() -> Seq<Seq<char>> {
    seq![
        "parent"@,
        "child"@,
        "verifies"@,
        "verified_by"@,
        "duplicate"@,
        "references"@,
        "depends_on"@,
        "dependency_of"@,
        "implements"@,
        "implemented_by"@,
        "created_by"@,
        "assigned_to"@,
        "tested_by"@,
        "closed_by"@,
    ]
}

/// The display names of the built-in relationship kinds, in order.
pub open spec fn default_rel_display_names() -> Seq<Seq<char>> {
    seq![
        "Parent"@,
        "Child"@,
        "Verifies"@,
        "Verified By"@,
        "Duplicate"@,
        "References"@,
        "Depends On"@,
        "Dependency Of"@,
        "Implements"@,
        "Implemented By"@,
        "Created By"@,
        "Assigned To"@,
        "Tested By"@,
        "Closed By"@,
    ]
}

/// The descriptions of the built-in relationship kinds, in order.
pub open spec fn default_rel_descriptions() -> Seq<Seq<char>> {
    seq![
        "Hierarchical parent requirement"@,
        "Hierarchical child requirement"@,
        "Test or verification relationship"@,
        "Verified by a test requirement"@,
        "Marks requirements as duplicates"@,
        "General reference link"@,
        "Dependency relationship"@,
        "Inverse dependency relationship"@,
        "Implementation relationship"@,
        "Inverse implementation relationship"@,
        "User who created the requirement"@,
        "User assigned to work on this requirement"@,
        "User who tested/verified the requirement"@,
        "User who closed/completed the requirement"@,
    ]
}

/// Whether `v` holds exactly the built-in relationship definitions, in
/// order: their names (in lowercase), display names, descriptions, inverses,
/// cardinalities and colours; only `duplicate` symmetric; no type
/// constraints, no icons; all built in.
pub open spec fn is_default_rel_defs(v: Seq<RelationshipDefinition>) -> bool {
    &&& v.len() == 14
    &&& forall|i: int| 0 <= i < 14 ==> (#[trigger] v[i]).built_in
    &&& forall|i: int| 0 <= i < 14 ==> (#[trigger] v[i]).name@ == lowercase(default_rel_names()[i])
    &&& forall|i: int| 0 <= i < 14 ==> (#[trigger] v[i]).name@ == default_rel_names()[i]
    &&& forall|i: int| 0 <= i < 14 ==> (#[trigger] v[i]).display_name@ == default_rel_display_names()[i]
    &&& forall|i: int| 0 <= i < 14 ==> (#[trigger] v[i]).description@ == default_rel_descriptions()[i]
    &&& forall|i: int| 0 <= i < 14 ==> opt_view((#[trigger] v[i]).inverse) == default_rel_inverse(i)
    &&& forall|i: int| 0 <= i < 14 ==> (#[trigger] v[i]).cardinality == default_rel_cardinality(i)
    &&& forall|i: int| 0 <= i < 14 ==> ((#[trigger] v[i]).symmetric <==> i == 4)
    &&& forall|i: int| 0 <= i < 14 ==> (#[trigger] v[i]).source_types@.len() == 0
    &&& forall|i: int| 0 <= i < 14 ==> (#[trigger] v[i]).target_types@.len() == 0
    &&& forall|i: int| 0 <= i < 14 ==> opt_view((#[trigger] v[i]).color) == default_rel_color(i)
    &&& forall|i: int| 0 <= i < 14 ==> (#[trigger] v[i]).icon is None
}

/// The built-in names and inverses, which are ASCII texts without capitals,
/// are their own lowercase forms.
proof fn lemma_default_rel_names_plain(v: Seq<RelationshipDefinition>)
    requires
        v.len() == 14,
        forall|i: int| 0 <= i < 14 ==> is_ascii_text(default_rel_names()[i]) ==> ascii_lowercase_of(
            (#[trigger] v[i]).name@,
            default_rel_names()[i],
        ),
        forall|i: int| 0 <= i < 14 ==> is_ascii_text(default_rel_names()[i]) && no_ascii_capitals(
            #[trigger] default_rel_names()[i],
        ),
    ensures
        forall|i: int| 0 <= i < 14 ==> (#[trigger] v[i]).name@ == default_rel_names()[i],
{
    assert forall|i: int| 0 <= i < 14 implies (#[trigger] v[i]).name@ == default_rel_names()[i] by {
        let n = default_rel_names()[i];
        assert(is_ascii_text(n) && no_ascii_capitals(n));
        lemma_ascii_lowercase_is(v[i].name@, n, n);
    }
}

proof fn lemma_default_rel_inverses_plain(v: Seq<RelationshipDefinition>)
    requires
        v.len() == 14,
        forall|i: int|
            0 <= i < 14 && #[trigger] default_rel_inverse(i) is Some ==> (is_ascii_text(default_rel_inverse(i)->0)
                ==> v[i].inverse is Some && ascii_lowercase_of(v[i].inverse->0@, default_rel_inverse(i)->0)),
        forall|i: int|
            0 <= i < 14 && #[trigger] default_rel_inverse(i) is Some ==> is_ascii_text(default_rel_inverse(i)->0)
                && no_ascii_capitals(default_rel_inverse(i)->0),
        forall|i: int| 0 <= i < 14 && #[trigger] default_rel_inverse(i) is None ==> v[i].inverse is None,
    ensures
        forall|i: int| 0 <= i < 14 ==> opt_view((#[trigger] v[i]).inverse) == default_rel_inverse(i),
{
    assert forall|i: int| 0 <= i < 14 implies opt_view((#[trigger] v[i]).inverse) == default_rel_inverse(i) by {
        if default_rel_inverse(i) is Some {
            let n = default_rel_inverse(i)->0;
            lemma_ascii_lowercase_is(v[i].inverse->0@, n, n);
        }
    }
}

/// The inverse of the `i`-th built-in relationship kind.
pub open spec fn default_rel_inverse(i: int) -> Option<Seq<char>> {
    if i == 0 {
        Some("child"@)
    } else if i == 1 {
        Some("parent"@)
    } else if i == 2 {
        Some("verified_by"@)
    } else if i == 3 {
        Some("verifies"@)
    } else if i == 6 {
        Some("dependency_of"@)
    } else if i == 7 {
        Some("depends_on"@)
    } else if i == 8 {
        Some("implemented_by"@)
    } else if i == 9 {
        Some("implements"@)
    } else {
        None
    }
}

/// The cardinality of the `i`-th built-in relationship kind.
pub open spec fn default_rel_cardinality(i: int) -> Cardinality {
    if i == 0 || i == 10 || i == 11 || i == 13 {
        Cardinality::ManyToOne
    } else if i == 1 {
        Cardinality::OneToMany
    } else {
        Cardinality::ManyToMany
    }
}

/// The colour of the `i`-th built-in relationship kind.
pub open spec fn default_rel_color(i: int) -> Option<Seq<char>> {
    if i == 10 {
        Some("#4a9eff"@)
    } else if i == 11 {
        Some("#22c55e"@)
    } else if i == 12 {
        Some("#f59e0b"@)
    } else if i == 13 {
        Some("#ef4444"@)
    } else {
        None
    }
}

/// The outcome of checking a proposed relationship.
#[derive(Debug, Clone)]
pub struct RelationshipValidation {
    /// Whether the relationship may be created
    pub valid: bool,
    /// Reasons it may not
    pub errors: Vec<String>,
    /// Concerns that do not forbid it
    pub warnings: Vec<String>,
}

impl RelationshipValidation {
    /// A valid outcome with no messages.
    pub fn ok() -> (r: Self)
        ensures
            r.valid,
            r.errors@.len() == 0,
            r.warnings@.len() == 0,
    {
        RelationshipValidation { valid: true, errors: Vec::new(), warnings: Vec::new() }
    }

    /// An invalid outcome with one error message.
    pub fn error(msg: &str) -> (r: Self)
        ensures
            !r.valid,
            views(r.errors@) == seq![msg@],
            r.warnings@.len() == 0,
    {
        let mut errors: Vec<String> = Vec::new();
        errors.push(owned(msg));
        proof {
            assert(views(errors@) =~= seq![msg@]);
        }
        RelationshipValidation { valid: false, errors, warnings: Vec::new() }
    }

    /// The same outcome with one more warning.
    pub fn with_warning(self, msg: &str) -> (r: Self)
        ensures
            r.valid == self.valid,
            r.errors == self.errors,
            views(r.warnings@) == views(self.warnings@).push(msg@),
    {
        let mut s = self;
        s.add_warning(msg);
        s
    }

    /// Records an error: the outcome becomes invalid.
    pub fn add_error(&mut self, msg: &str)
        ensures
            !final(self).valid,
            views(final(self).errors@) == views(old(self).errors@).push(msg@),
            final(self).warnings == old(self).warnings,
    {
        self.valid = false;
        self.errors.push(owned(msg));
        proof {
            assert(views(self.errors@) =~= views(old(self).errors@).push(msg@));
        }
    }

    /// Records a warning; validity is unchanged.
    pub fn add_warning(&mut self, msg: &str)
        ensures
            final(self).valid == old(self).valid,
            final(self).errors == old(self).errors,
            views(final(self).warnings@) == views(old(self).warnings@).push(msg@),
    {
        self.warnings.push(owned(msg));
        proof {
            assert(views(self.warnings@) =~= views(old(self).warnings@).push(msg@));
        }
    }
}


// ===========================================================================
// Identifier configuration
// ===========================================================================

/// The shape of requirement identifiers.
#[derive(Debug, Clone, Copy, PartialEq, Eq, Structural)]
pub enum IdFormat {
    /// PREFIX-NNN (features and types share one namespace); the default
    SingleLevel,
    /// FEATURE-TYPE-NNN
    TwoLevel,
}

impl Default for IdFormat {
    fn default() -> (r: IdFormat)
        ensures
            r == IdFormat::SingleLevel,
    {
        IdFormat::SingleLevel
    }
}

/// How the numbers in requirement identifiers are counted.
#[derive(Debug, Clone, Copy, PartialEq, Eq, Structural)]
pub enum NumberingStrategy {
    /// One counter for all identifiers; the default
    Global,
    /// One counter per prefix
    PerPrefix,
    /// One counter per feature and type (two-level identifiers)
    PerFeatureType,
}

impl Default for NumberingStrategy {
    fn default() -> (r: NumberingStrategy)
        ensures
            r == NumberingStrategy::Global,
    {
        NumberingStrategy::Global
    }
}

/// A requirement type as the identifier system knows it: a name and a prefix.
#[derive(Debug, Clone)]
pub struct RequirementTypeDefinition {
    /// Display name (such as "Functional")
    pub name: String,
    /// Identifier prefix (such as "FR"), in uppercase
    pub prefix: String,
    /// Description
    pub description: String,
}

impl RequirementTypeDefinition {
    /// A new type definition; the prefix is kept in uppercase.
    pub fn new(name: &str, prefix: &str, description: &str) -> (r: Self)
        ensures
            r.name@ == name@,
            r.prefix@ == uppercase(prefix@),
            r.description@ == description@,
    {
        RequirementTypeDefinition { name: owned(name), prefix: to_upper(prefix), description: owned(description) }
    }
}

/// The names of the requirement types the identifier system starts with.
pub open spec fn default_id_type_names() -> Seq<Seq<char>> {
    seq!["Functional"@, "Non-Functional"@, "System"@, "User"@, "Change Request"@]
}

/// Their prefixes, before they are put in uppercase.
pub open spec fn default_id_type_prefixes() -> Seq<Seq<char>> {
    seq!["FR"@, "NFR"@, "SR"@, "UR"@, "CR"@]
}

/// Their descriptions.
pub open spec fn default_id_type_descriptions() -> Seq<Seq<char>> {
    seq![
        "Functional requirements"@,
        "Non-functional requirements (performance, security, etc.)"@,
        "System-level requirements"@,
        "User story requirements"@,
        "Change requests for modifications to existing functionality"@,
    ]
}

/// Whether `v` holds exactly the requirement types the identifier system
/// starts with, in order: names, prefixes (in uppercase) and descriptions.
pub open spec fn is_default_id_types(v: Seq<RequirementTypeDefinition>) -> bool {
    &&& v.len() == 5
    &&& forall|i: int| 0 <= i < 5 ==> (#[trigger] v[i]).name@ == default_id_type_names()[i]
    &&& forall|i: int| 0 <= i < 5 ==> (#[trigger] v[i]).prefix@ == uppercase(default_id_type_prefixes()[i])
    &&& forall|i: int| 0 <= i < 5 ==> (#[trigger] v[i]).description@ == default_id_type_descriptions()[i]
}

/// The requirement types the identifier system starts with.
pub fn default_requirement_types() -> (r: Vec<RequirementTypeDefinition>)
    ensures
        is_default_id_types(r@),
{
    let mut v: Vec<RequirementTypeDefinition> = Vec::new();
    v.push(RequirementTypeDefinition::new("Functional", "FR", "Functional requirements"));
    v.push(
        RequirementTypeDefinition::new(
            "Non-Functional",
            "NFR",
            "Non-functional requirements (performance, security, etc.)",
        ),
    );
    v.push(RequirementTypeDefinition::new("System", "SR", "System-level requirements"));
    v.push(RequirementTypeDefinition::new("User", "UR", "User story requirements"));
    v.push(
        RequirementTypeDefinition::new(
            "Change Request",
            "CR",
            "Change requests for modifications to existing functionality",
        ),
    );
    v
}

/// A feature: a numbered group of requirements with its own prefix.
#[derive(Debug, Clone)]
pub struct FeatureDefinition {
    /// Sequence number
    pub number: u32,
    /// Display name
    pub name: String,
    /// Identifier prefix, in uppercase
    pub prefix: String,
    /// Description
    pub description: String,
}

impl FeatureDefinition {
    /// A new feature with an empty description; the prefix is kept in
    /// uppercase.
    pub fn new(number: u32, name: &str, prefix: &str) -> (r: Self)
        ensures
            r.number == number,
            r.name@ == name@,
            r.prefix@ == uppercase(prefix@),
            r.description@.len() == 0,
    {
        FeatureDefinition { number, name: owned(name), prefix: to_upper(prefix), description: String::new() }
    }

    /// A copy of this feature.
    pub fn duplicate(&self) -> (r: Self)
        ensures
            r == *self,
    {
        FeatureDefinition {
            number: self.number,
            name: self.name.clone(),
            prefix: self.prefix.clone(),
            description: self.description.clone(),
        }
    }

    /// The same feature with a description.
    pub fn with_description(self, description: &str) -> (r: Self)
        ensures
            r.description@ == description@,
            r.number == self.number,
            r.name == self.name,
            r.prefix == self.prefix,
    {
        FeatureDefinition { description: owned(description), ..self }
    }
}

/// The number of digits identifiers start with.
pub fn default_id_digits() -> (r: u8)
    ensures
        r == 3,
{
    3
}

/// The configuration of requirement identifiers.
#[derive(Debug, Clone)]
pub struct IdConfiguration {
    /// Shape of identifiers
    pub format: IdFormat,
    /// How numbers are counted
    pub numbering: NumberingStrategy,
    /// Minimum number of digits of the number (zero-padded)
    pub digits: u8,
    /// The configured requirement types
    pub requirement_types: Vec<RequirementTypeDefinition>,
}

/// Whether `i` is the first position in `v` whose type has the prefix `p`.
pub open spec fn first_type_with_prefix(v: Seq<RequirementTypeDefinition>, p: Seq<char>, i: int) -> bool {
    0 <= i < v.len() && v[i].prefix@ == p && forall|j: int| 0 <= j < i ==> (#[trigger] v[j]).prefix@ != p
}

/// Whether `i` is the first position in `v` whose type's lowercase name is `l`.
/// The position of the first of `texts` equal to `t` (for lookups by a
/// lowercase name, the lowercase forms of the names and of the name
/// sought).
pub fn first_text_index(texts: &Vec<String>, t: &str) -> (r: Option<usize>)
    ensures
        match r {
            Some(i) => i < texts@.len() && texts@[i as int]@ == t@ && forall|j: int|
                0 <= j < i ==> (#[trigger] texts@[j])@ != t@,
            None => forall|j: int| 0 <= j < texts@.len() ==> (#[trigger] texts@[j])@ != t@,
        },
{
    let mut i: usize = 0;
    while i < texts.len()
        invariant
            i <= texts@.len(),
            forall|j: int| 0 <= j < i ==> (#[trigger] texts@[j])@ != t@,
        decreases texts.len() - i,
    {
        if str_eq(texts[i].as_str(), t) {
            return Some(i);
        }
        i = i + 1;
    }
    None
}

pub open spec fn first_type_with_name(v: Seq<RequirementTypeDefinition>, l: Seq<char>, i: int) -> bool {
    0 <= i < v.len() && lowercase(v[i].name@) == l && forall|j: int|
        0 <= j < i ==> lowercase((#[trigger] v[j]).name@) != l
}

impl IdConfiguration {
    /// The starting configuration: single-level identifiers, global
    /// numbering, three digits and the default requirement types.
    pub fn default_config() -> (r: Self)
        ensures
            r.format == IdFormat::SingleLevel,
            r.numbering == NumberingStrategy::Global,
            r.digits == 3,
            is_default_id_types(r.requirement_types@),
    {
        IdConfiguration {
            format: IdFormat::SingleLevel,
            numbering: NumberingStrategy::Global,
            digits: default_id_digits(),
            requirement_types: default_requirement_types(),
        }
    }

    /// The prefixes of all configured types, in order; features may not use
    /// them.
    pub fn reserved_prefixes(&self) -> (r: Vec<String>)
        ensures
            r@.len() == self.requirement_types@.len(),
            forall|i: int| 0 <= i < r@.len() ==> #[trigger] r@[i] == self.requirement_types@[i].prefix,
    {
        let mut v: Vec<String> = Vec::new();
        let mut i: usize = 0;
        while i < self.requirement_types.len()
            invariant
                i <= self.requirement_types@.len(),
                v@.len() == i,
                forall|k: int| 0 <= k < i ==> #[trigger] v@[k] == self.requirement_types@[k].prefix,
            decreases self.requirement_types.len() - i,
        {
            v.push(self.requirement_types[i].prefix.clone());
            i = i + 1;
        }
        v
    }

    /// Whether some configured type has the prefix `prefix` in uppercase.
    pub fn is_prefix_reserved(&self, prefix: &str) -> (r: bool)
        ensures
            r == exists|i: int|
                0 <= i < self.requirement_types@.len() && (#[trigger] self.requirement_types@[i]).prefix@
                    == uppercase(prefix@),
    {
        let upper = to_upper(prefix);
        self.is_upper_prefix_reserved(upper.as_str())
    }

    /// Whether a configured type has exactly the prefix `upper` (a prefix
    /// already in uppercase).
    pub fn is_upper_prefix_reserved(&self, upper: &str) -> (r: bool)
        ensures
            r == exists|i: int|
                0 <= i < self.requirement_types@.len() && (#[trigger] self.requirement_types@[i]).prefix@ == upper@,
    {
        let mut i: usize = 0;
        while i < self.requirement_types.len()
            invariant
                i <= self.requirement_types@.len(),
                forall|k: int| 0 <= k < i ==> (#[trigger] self.requirement_types@[k]).prefix@ != upper@,
            decreases self.requirement_types.len() - i,
        {
            if str_eq(self.requirement_types[i].prefix.as_str(), upper) {
                return true;
            }
            i = i + 1;
        }
        false
    }

    /// The first configured type whose name equals `name` once both are in
    /// lowercase.
    pub fn get_type_by_name(&self, name: &str) -> (r: Option<&RequirementTypeDefinition>)
        ensures
            match r {
                Some(t) => exists|i: int|
                    first_type_with_name(self.requirement_types@, lowercase(name@), i) && *t
                        == self.requirement_types@[i],
                None => forall|i: int|
                    0 <= i < self.requirement_types@.len() ==> lowercase(
                        (#[trigger] self.requirement_types@[i]).name@,
                    ) != lowercase(name@),
            },
    {
        let lower = to_lower(name);
        let mut names: Vec<String> = Vec::new();
        let mut i: usize = 0;
        while i < self.requirement_types.len()
            invariant
                i <= self.requirement_types@.len(),
                names@.len() == i,
                forall|k: int| 0 <= k < i ==> (#[trigger] names@[k])@ == lowercase(self.requirement_types@[k].name@),
            decreases self.requirement_types.len() - i,
        {
            names.push(to_lower(self.requirement_types[i].name.as_str()));
            i = i + 1;
        }
        match first_text_index(&names, lower.as_str()) {
            Some(j) => {
                proof {
                    assert(names@[j as int]@ == lowercase(self.requirement_types@[j as int].name@));
                    assert forall|k: int| 0 <= k < j implies lowercase(
                        (#[trigger] self.requirement_types@[k]).name@,
                    ) != lowercase(name@) by {
                        assert(names@[k]@ != lower@);
                    }
                    assert(first_type_with_name(self.requirement_types@, lowercase(name@), j as int));
                }
                Some(&self.requirement_types[j])
            },
            None => {
                proof {
                    assert forall|k: int| 0 <= k < self.requirement_types@.len() implies lowercase(
                        (#[trigger] self.requirement_types@[k]).name@,
                    ) != lowercase(name@) by {
                        assert(names@[k]@ != lower@);
                    }
                }
                None
            },
        }
    }

    /// The first configured type whose prefix is `prefix` in uppercase.
    pub fn get_type_by_prefix(&self, prefix: &str) -> (r: Option<&RequirementTypeDefinition>)
        ensures
            match r {
                Some(t) => exists|i: int|
                    first_type_with_prefix(self.requirement_types@, uppercase(prefix@), i) && *t
                        == self.requirement_types@[i],
                None => forall|i: int|
                    0 <= i < self.requirement_types@.len() ==> (#[trigger] self.requirement_types@[i]).prefix@
                        != uppercase(prefix@),
            },
    {
        let upper = to_upper(prefix);
        let mut i: usize = 0;
        while i < self.requirement_types.len()
            invariant
                i <= self.requirement_types@.len(),
                upper@ == uppercase(prefix@),
                forall|k: int| 0 <= k < i ==> (#[trigger] self.requirement_types@[k]).prefix@ != upper@,
            decreases self.requirement_types.len() - i,
        {
            if self.requirement_types[i].prefix == upper {
                proof {
                    assert(first_type_with_prefix(self.requirement_types@, uppercase(prefix@), i as int));
                }
                return Some(&self.requirement_types[i]);
            }
            i = i + 1;
        }
        None
    }

    /// `num` in decimal, zero-padded to the configured number of digits.
    pub fn format_number(&self, num: u32) -> (r: String)
        ensures
            r@ == zero_pad(decimal(num as nat), self.digits as nat),
    {
        format_padded(num, self.digits as usize)
    }
}

impl Default for IdConfiguration {
    fn default() -> (r: IdConfiguration)
        ensures
            r.format == IdFormat::SingleLevel,
            r.numbering == NumberingStrategy::Global,
            r.digits == 3,
            is_default_id_types(r.requirement_types@),
    {
        IdConfiguration::default_config()
    }
}

/// The outcome of checking a proposed change of the identifier configuration.
#[derive(Debug, Clone)]
pub struct IdConfigValidation {
    /// Whether the change is allowed
    pub valid: bool,
    /// Why it is not
    pub error: Option<String>,
    /// Consequences of an allowed change
    pub warning: Option<String>,
    /// Whether the identifiers can be migrated
    pub can_migrate: bool,
    /// How many requirements a migration would touch
    pub affected_count: usize,
}

/// One field's change in a requirement's history.
#[derive(Debug, Clone, PartialEq, Eq)]
pub struct FieldChange {
    /// Name of the field
    pub field_name: String,
    /// Value before
    pub old_value: String,
    /// Value after
    pub new_value: String,
}

// ===========================================================================
// Comment reactions
// ===========================================================================

/// A reaction that can be put on a comment.
#[derive(Debug, Clone)]
pub struct ReactionDefinition {
    /// Key of the reaction (such as "resolved")
    pub name: String,
    /// Emoji shown for it
    pub emoji: String,
    /// Label
    pub label: String,
    /// When to use it
    pub description: Option<String>,
    /// Whether it is built in (cannot be deleted)
    pub built_in: bool,
}

impl ReactionDefinition {
    /// A new user-defined reaction without description.
    pub fn new(name: &str, emoji: &str, label: &str) -> (r: Self)
        ensures
            r.name@ == name@,
            r.emoji@ == emoji@,
            r.label@ == label@,
            r.description is None,
            !r.built_in,
    {
        ReactionDefinition { name: owned(name), emoji: owned(emoji), label: owned(label), description: None, built_in: false }
    }

    /// A new built-in reaction with a description.
    pub fn builtin(name: &str, emoji: &str, label: &str, description: &str) -> (r: Self)
        ensures
            r.name@ == name@,
            r.emoji@ == emoji@,
            r.label@ == label@,
            opt_is(r.description, description@),
            r.built_in,
    {
        ReactionDefinition {
            name: owned(name),
            emoji: owned(emoji),
            label: owned(label),
            description: Some(owned(description)),
            built_in: true,
        }
    }
}

/// The keys of the built-in reactions, in order.
pub open spec fn default_reaction_names() -> Seq<Seq<char>> {
    seq!["resolved"@, "rejected"@, "thumbs_up"@, "thumbs_down"@, "question"@, "important"@]
}

/// The emoji of the built-in reactions, in order.
pub open spec fn default_reaction_emoji() -> Seq<Seq<char>> {
    seq!["\u{2705}"@, "\u{274c}"@, "\u{1f44d}"@, "\u{1f44e}"@, "\u{2753}"@, "\u{26a0}\u{fe0f}"@]
}

/// The labels of the built-in reactions, in order.
pub open spec fn default_reaction_labels() -> Seq<Seq<char>> {
    seq!["Resolved"@, "Rejected"@, "Thumbs Up"@, "Thumbs Down"@, "Question"@, "Important"@]
}

/// The descriptions of the built-in reactions, in order.
pub open spec fn default_reaction_descriptions() -> Seq<Seq<char>> {
    seq![
        "Mark comment as resolved/addressed"@,
        "Mark comment as rejected/declined"@,
        "Agree or approve"@,
        "Disagree or disapprove"@,
        "Needs clarification"@,
        "Mark as important/attention needed"@,
    ]
}

/// Whether `v` holds exactly the built-in reactions, in order: their keys,
/// emoji, labels and descriptions, all built in.
pub open spec fn is_default_reactions(v: Seq<ReactionDefinition>) -> bool {
    &&& v.len() == 6
    &&& forall|i: int| 0 <= i < 6 ==> (#[trigger] v[i]).name@ == default_reaction_names()[i]
    &&& forall|i: int| 0 <= i < 6 ==> (#[trigger] v[i]).emoji@ == default_reaction_emoji()[i]
    &&& forall|i: int| 0 <= i < 6 ==> (#[trigger] v[i]).label@ == default_reaction_labels()[i]
    &&& forall|i: int| 0 <= i < 6 ==> opt_is((#[trigger] v[i]).description, default_reaction_descriptions()[i])
    &&& forall|i: int| 0 <= i < 6 ==> (#[trigger] v[i]).built_in
}

/// The built-in reactions.
pub fn default_reaction_definitions() -> (r: Vec<ReactionDefinition>)
    ensures
        is_default_reactions(r@),
{
    let mut v: Vec<ReactionDefinition> = Vec::new();
    v.push(ReactionDefinition::builtin("resolved", "\u{2705}", "Resolved", "Mark comment as resolved/addressed"));
    v.push(ReactionDefinition::builtin("rejected", "\u{274c}", "Rejected", "Mark comment as rejected/declined"));
    v.push(ReactionDefinition::builtin("thumbs_up", "\u{1f44d}", "Thumbs Up", "Agree or approve"));
    v.push(ReactionDefinition::builtin("thumbs_down", "\u{1f44e}", "Thumbs Down", "Disagree or disapprove"));
    v.push(ReactionDefinition::builtin("question", "\u{2753}", "Question", "Needs clarification"));
    v.push(
        ReactionDefinition::builtin("important", "\u{26a0}\u{fe0f}", "Important", "Mark as important/attention needed"),
    );
    v
}

} // verus!
