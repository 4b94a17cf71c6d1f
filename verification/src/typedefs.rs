//! What the store's type definitions give a requirement type: its
//! definition, its statuses and its custom fields in display order.
use vstd::prelude::*;
use vstd::set_lib::{lemma_int_range, lemma_subset_equality, set_int_range};
use vstd::string::*;
use crate::model::{
    default_statuses, default_status_list, req_type_key, CustomFieldDefinition, CustomTypeDefinition,
    RequirementType,
};
use crate::store::RequirementsStore;
use crate::text::{clone_opt, clone_strings, owned, str_eq, views};

verus! {

/// Whether `i` is the first position in `defs` of a type definition named `n`.
pub open spec fn first_typedef_named(defs: Seq<CustomTypeDefinition>, n: Seq<char>, i: int) -> bool {
    0 <= i < defs.len() && defs[i].name@ == n && forall|j: int| 0 <= j < i ==> (#[trigger] defs[j]).name@ != n
}

/// Whether some type definition in `defs` is named `n`.
pub open spec fn has_typedef_named(defs: Seq<CustomTypeDefinition>, n: Seq<char>) -> bool {
    exists|i: int| 0 <= i < defs.len() && (#[trigger] defs[i]).name@ == n
}

/// The statuses a requirement type offers: those of the first definition
/// named after it, or the default statuses when there is none or it lists
/// none.
pub open spec fn type_statuses(defs: Seq<CustomTypeDefinition>, n: Seq<char>) -> Seq<Seq<char>> {
    if has_typedef_named(defs, n) {
        let d = defs[choose|i: int| first_typedef_named(defs, n, i)];
        if d.statuses@.len() == 0 {
            default_statuses()
        } else {
            views(d.statuses@)
        }
    } else {
        default_statuses()
    }
}

/// Whether `a` is a copy of `b`: every field equal, texts by their
/// characters.
pub open spec fn same_field(a: CustomFieldDefinition, b: CustomFieldDefinition) -> bool {
    &&& a.name@ == b.name@
    &&& a.label@ == b.label@
    &&& a.field_type == b.field_type
    &&& a.required == b.required
    &&& a.options@ == b.options@
    &&& a.default_value == b.default_value
    &&& a.description == b.description
    &&& a.order == b.order
}

/// Whether field `j` of `s` goes before field `i` when the fields are sorted
/// by order, fields of equal order keeping their places relative to each
/// other.
pub open spec fn field_before(s: Seq<CustomFieldDefinition>, j: int, i: int) -> bool {
    s[j].order < s[i].order || (s[j].order == s[i].order && j < i)
}

/// How many of the first `n` fields of `s` go before field `i`.
pub open spec fn count_before(s: Seq<CustomFieldDefinition>, i: int, n: int) -> nat
    decreases n,
{
    if n <= 0 {
        0
    } else {
        count_before(s, i, n - 1) + if field_before(s, n - 1, i) {
            1nat
        } else {
            0nat
        }
    }
}

/// The place of field `i` of `s` once the fields are sorted by order, fields
/// of equal order keeping their relative places: the number of fields that
/// go before it.
pub open spec fn sorted_place(s: Seq<CustomFieldDefinition>, i: int) -> nat {
    count_before(s, i, s.len() as int)
}

proof fn lemma_count_before_bound(s: Seq<CustomFieldDefinition>, i: int, n: int)
    requires
        0 <= n,
    ensures
        count_before(s, i, n) <= n,
        0 <= i < n ==> count_before(s, i, n) < n,
    decreases n,
{
    if n > 0 {
        lemma_count_before_bound(s, i, n - 1);
    }
}

proof fn lemma_count_before_order(s: Seq<CustomFieldDefinition>, j: int, i: int, n: int)
    requires
        0 <= n,
        0 <= j < s.len(),
        0 <= i < s.len(),
        field_before(s, j, i),
    ensures
        count_before(s, j, n) + (if j < n {
            1int
        } else {
            0int
        }) <= count_before(s, i, n),
    decreases n,
{
    if n > 0 {
        lemma_count_before_order(s, j, i, n - 1);
    }
}

/// The places of distinct fields differ, and each is below the number of
/// fields.
proof fn lemma_places_distinct(s: Seq<CustomFieldDefinition>, i: int, j: int)
    requires
        0 <= i < s.len(),
        0 <= j < s.len(),
    ensures
        sorted_place(s, i) < s.len(),
        i != j ==> sorted_place(s, i) != sorted_place(s, j),
{
    lemma_count_before_bound(s, i, s.len() as int);
    if i != j {
        if field_before(s, j, i) {
            lemma_count_before_order(s, j, i, s.len() as int);
        } else {
            lemma_count_before_order(s, i, j, s.len() as int);
        }
    }
}

/// Every place below the number of fields is the place of some field.
proof fn lemma_places_cover(s: Seq<CustomFieldDefinition>, k: int)
    requires
        0 <= k < s.len(),
    ensures
        exists|i: int| 0 <= i < s.len() && sorted_place(s, i) == k,
{
    let n = s.len() as int;
    let places = Seq::new(s.len(), |i: int| sorted_place(s, i) as int);
    assert forall|a: int, b: int| 0 <= a < places.len() && 0 <= b < places.len() && a != b implies places[a]
        != places[b] by {
        lemma_places_distinct(s, a, b);
    }
    places.unique_seq_to_set();
    lemma_int_range(0, n);
    assert forall|x: int| places.to_set().contains(x) implies set_int_range(0, n).contains(x) by {
        let a = choose|a: int| 0 <= a < places.len() && places[a] == x;
        lemma_places_distinct(s, a, a);
    }
    lemma_subset_equality(places.to_set(), set_int_range(0, n));
    assert(places.to_set().contains(k));
    let a = choose|a: int| 0 <= a < places.len() && places[a] == k;
    assert(sorted_place(s, a) == k);
}

impl CustomFieldDefinition {
    /// A copy of the field.
    pub fn copy(&self) -> (r: Self)
        ensures
            same_field(r, *self),
    {
        CustomFieldDefinition {
            name: self.name.clone(),
            label: self.label.clone(),
            field_type: self.field_type,
            required: self.required,
            options: clone_strings(&self.options),
            default_value: clone_opt(&self.default_value),
            description: clone_opt(&self.description),
            order: self.order,
        }
    }
}

fn place_of(s: &Vec<CustomFieldDefinition>, i: usize) -> (r: usize)
    requires
        i < s@.len(),
    ensures
        r == sorted_place(s@, i as int),
{
    let mut c: usize = 0;
    let mut j: usize = 0;
    while j < s.len()
        invariant
            i < s@.len(),
            j <= s@.len(),
            c == count_before(s@, i as int, j as int),
        decreases s.len() - j,
    {
        proof {
            lemma_count_before_bound(s@, i as int, j as int);
        }
        if s[j].order < s[i].order || (s[j].order == s[i].order && j < i) {
            c = c + 1;
        }
        j = j + 1;
    }
    c
}

/// Copies of the fields of `s` sorted by order, fields of equal order keeping
/// their relative places (a stable sort).
pub fn sort_fields_by_order(s: &Vec<CustomFieldDefinition>) -> (r: Vec<CustomFieldDefinition>)
    ensures
        r@.len() == s@.len(),
        forall|i: int| 0 <= i < s@.len() ==> same_field(#[trigger] r@[sorted_place(s@, i) as int], s@[i]),
{
    let n = s.len();
    let mut places: Vec<usize> = Vec::new();
    let mut i: usize = 0;
    while i < n
        invariant
            n == s@.len(),
            i <= n,
            places@.len() == i,
            forall|a: int| 0 <= a < i ==> places@[a] == sorted_place(s@, a),
        decreases n - i,
    {
        let p = place_of(s, i);
        places.push(p);
        i = i + 1;
    }
    let mut r: Vec<CustomFieldDefinition> = Vec::new();
    let mut k: usize = 0;
    while k < n
        invariant
            n == s@.len(),
            k <= n,
            places@.len() == n,
            forall|a: int| 0 <= a < n ==> places@[a] == sorted_place(s@, a),
            r@.len() == k,
            forall|a: int| 0 <= a < n && sorted_place(s@, a) < k ==> same_field(#[trigger] r@[sorted_place(s@, a) as int], s@[a]),
        decreases n - k,
    {
        proof {
            lemma_places_cover(s@, k as int);
        }
        let mut a: usize = 0;
        while a < n && places[a] != k
            invariant
                n == s@.len(),
                a <= n,
                places@.len() == n,
                forall|b: int| 0 <= b < n ==> places@[b] == sorted_place(s@, b),
                forall|b: int| 0 <= b < a ==> places@[b] != k,
                exists|b: int| 0 <= b < n && sorted_place(s@, b) == k,
            decreases n - a,
        {
            a = a + 1;
        }
        proof {
            if a == n {
                let b = choose|b: int| 0 <= b < n && sorted_place(s@, b) == k;
                assert(places@[b] == k);
            }
        }
        let ghost before = r@;
        r.push(s[a].copy());
        proof {
            assert forall|b: int| 0 <= b < n && sorted_place(s@, b) < k + 1 implies same_field(
                #[trigger] r@[sorted_place(s@, b) as int],
                s@[b],
            ) by {
                if sorted_place(s@, b) == k {
                    lemma_places_distinct(s@, a as int, b);
                } else {
                    assert(r@[sorted_place(s@, b) as int] == before[sorted_place(s@, b) as int]);
                }
            }
        }
        k = k + 1;
    }
    proof {
        assert forall|i: int| 0 <= i < s@.len() implies same_field(#[trigger] r@[sorted_place(s@, i) as int], s@[i]) by {
            lemma_places_distinct(s@, i, i);
        }
    }
    r
}

fn typedef_index(defs: &Vec<CustomTypeDefinition>, n: &str) -> (r: Option<usize>)
    ensures
        match r {
            Some(i) => first_typedef_named(defs@, n@, i as int),
            None => !has_typedef_named(defs@, n@),
        },
{
    let mut i: usize = 0;
    while i < defs.len()
        invariant
            i <= defs@.len(),
            forall|k: int| 0 <= k < i ==> (#[trigger] defs@[k]).name@ != n@,
        decreases defs.len() - i,
    {
        if str_eq(defs[i].name.as_str(), n) {
            return Some(i);
        }
        i = i + 1;
    }
    None
}

fn type_key(t: &RequirementType) -> (r: String)
    ensures
        r@ == req_type_key(*t),
{
    match t {
        RequirementType::Functional => owned("Functional"),
        RequirementType::NonFunctional => owned("NonFunctional"),
        RequirementType::System => owned("System"),
        RequirementType::User => owned("User"),
        RequirementType::ChangeRequest => owned("ChangeRequest"),
    }
}

impl RequirementsStore {
    /// The first type definition named after the requirement type, if any.
    pub fn get_type_definition(&self, req_type: &RequirementType) -> (r: Option<&CustomTypeDefinition>)
        ensures
            match r {
                Some(d) => exists|i: int|
                    first_typedef_named(self.type_definitions@, req_type_key(*req_type), i)
                        && *d == self.type_definitions@[i],
                None => !has_typedef_named(self.type_definitions@, req_type_key(*req_type)),
            },
    {
        let key = type_key(req_type);
        match typedef_index(&self.type_definitions, key.as_str()) {
            Some(i) => Some(&self.type_definitions[i]),
            None => None,
        }
    }

    /// The statuses of the requirement type: those of its definition, or the
    /// default statuses when it has no definition.
    pub fn get_statuses_for_type(&self, req_type: &RequirementType) -> (r: Vec<String>)
        ensures
            views(r@) == type_statuses(self.type_definitions@, req_type_key(*req_type)),
            !has_typedef_named(self.type_definitions@, req_type_key(*req_type)) ==> views(r@)
                == default_statuses(),
            forall|i: int| #[trigger]
                first_typedef_named(self.type_definitions@, req_type_key(*req_type), i) ==> {
                    let d = self.type_definitions@[i];
                    &&& d.statuses@.len() == 0 ==> views(r@) == default_statuses()
                    &&& d.statuses@.len() > 0 ==> r@ == d.statuses@
                },
    {
        match self.get_type_definition(req_type) {
            Some(d) => {
                proof {
                    assert forall|i: int, j: int| #[trigger]
                        first_typedef_named(self.type_definitions@, req_type_key(*req_type), i) && #[trigger]
                        first_typedef_named(self.type_definitions@, req_type_key(*req_type), j) implies i == j by {
                        if i < j {
                            assert(self.type_definitions@[i].name@ != req_type_key(*req_type));
                        } else if j < i {
                            assert(self.type_definitions@[j].name@ != req_type_key(*req_type));
                        }
                    }
                }
                let r = d.get_statuses();
                proof {
                    let n = req_type_key(*req_type);
                    let i = choose|i: int| first_typedef_named(self.type_definitions@, n, i) && *d
                        == self.type_definitions@[i];
                    assert(self.type_definitions@[i].name@ == n);
                    assert(has_typedef_named(self.type_definitions@, n));
                    let j = choose|j: int| first_typedef_named(self.type_definitions@, n, j);
                    assert(first_typedef_named(self.type_definitions@, n, i) && first_typedef_named(
                        self.type_definitions@,
                        n,
                        j,
                    ));
                    assert(i == j);
                }
                r
            },
            None => default_status_list(),
        }
    }

    /// Copies of the custom fields of the requirement type's definition,
    /// sorted by order (fields of equal order keep their relative places);
    /// none when it has no definition.
    pub fn get_custom_fields_for_type(&self, req_type: &RequirementType) -> (r: Vec<CustomFieldDefinition>)
        ensures
            !has_typedef_named(self.type_definitions@, req_type_key(*req_type)) ==> r@.len() == 0,
            forall|i: int| #[trigger]
                first_typedef_named(self.type_definitions@, req_type_key(*req_type), i) ==> {
                    let s = self.type_definitions@[i].custom_fields@;
                    &&& r@.len() == s.len()
                    &&& forall|k: int| 0 <= k < s.len() ==> same_field(#[trigger] r@[sorted_place(s, k) as int], s[k])
                },
    {
        match self.get_type_definition(req_type) {
            Some(d) => {
                proof {
                    assert forall|i: int, j: int| #[trigger]
                        first_typedef_named(self.type_definitions@, req_type_key(*req_type), i) && #[trigger]
                        first_typedef_named(self.type_definitions@, req_type_key(*req_type), j) implies i == j by {
                        if i < j {
                            assert(self.type_definitions@[i].name@ != req_type_key(*req_type));
                        } else if j < i {
                            assert(self.type_definitions@[j].name@ != req_type_key(*req_type));
                        }
                    }
                }
                sort_fields_by_order(&d.custom_fields)
            },
            None => Vec::new(),
        }
    }
}

} // verus!
