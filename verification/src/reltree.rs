//! The relationship tree of the detail view: for a requirement, one row per
//! relationship it shows, with what the row displays and whether it can be
//! expanded further.
use vstd::prelude::*;
use vstd::string::*;
use crate::model::{opt_kind, rel_kind_name, rel_kind_text, RelKind, RelationshipType};
use crate::relations::find_def;
use crate::requirement::{Relationship, Requirement};
use crate::store::{first_with_id, has_id, RequirementsStore};
use crate::text::{lowercase, opt_view, owned};

verus! {

/// One row of the relationship tree.
#[derive(Debug)]
pub struct RelationshipRow {
    /// The kind of the relationship
    pub rel_type: RelationshipType,
    /// The identifier of its target
    pub target_id: u128,
    /// The position of the target in the store, if it is there
    pub target_idx: Option<usize>,
    /// The target's readable identifier, or `Unknown`
    pub target_label: String,
    /// The target's title, or `(not found)`
    pub target_title: String,
    /// The name shown for the kind
    pub display_name: String,
    /// The color of the kind's definition, if any
    pub color: Option<String>,
    /// How many relationships of the same kind lead on from the target to
    /// requirements not on the path
    pub expandable_children: usize,
    /// Whether more than one requirement has a relationship of this kind to
    /// the target
    pub is_shared: bool,
    /// The kind of the target's first relationship of another kind back to
    /// the root of the tree, if any
    pub cross_relationship: Option<RelationshipType>,
    /// Whether the target is already on the path from the root (such rows
    /// are not drawn)
    pub on_path: bool,
}

/// The position of the first requirement of `s` with identifier `id`.
pub open spec fn pos_of(s: Seq<Requirement>, id: u128) -> Option<int> {
    if has_id(s, id) {
        Some(choose|i: int| first_with_id(s, id, i))
    } else {
        None
    }
}

/// The relationships shown below the requirement with identifier `id`: all
/// of its relationships at the top (`follow` is none), else those of kind
/// `follow`; none when no requirement has that identifier.
pub open spec fn listed_rels(s: Seq<Requirement>, id: u128, follow: Option<RelKind>) -> Seq<Relationship> {
    match pos_of(s, id) {
        Some(i) => match follow {
            Some(k) => s[i].relationships@.filter(|r: Relationship| r.rel_type@ == k),
            None => s[i].relationships@,
        },
        None => Seq::empty(),
    }
}

/// The relationships of `rels` of kind `k` whose target is not in `path`.
pub open spec fn onward(rels: Seq<Relationship>, k: RelKind, path: Seq<u128>) -> Seq<Relationship> {
    rels.filter(|r: Relationship| r.rel_type@ == k && !path.contains(r.target_id))
}

/// Whether `r` has a relationship of kind `k` to `target`.
pub open spec fn points_to(r: Requirement, target: u128, k: RelKind) -> bool {
    exists|j: int|
        0 <= j < r.relationships@.len() && (#[trigger] r.relationships@[j]).target_id == target
            && r.relationships@[j].rel_type@ == k
}

/// The requirements of `s` with a relationship of kind `k` to `target`.
pub open spec fn pointing(s: Seq<Requirement>, target: u128, k: RelKind) -> Seq<Requirement> {
    s.filter(|r: Requirement| points_to(r, target, k))
}

/// The relationships of `rels` to `root` of a kind other than `k`.
pub open spec fn back_to_root(rels: Seq<Relationship>, root: u128, k: RelKind) -> Seq<Relationship> {
    rels.filter(|r: Relationship| r.target_id == root && r.rel_type@ != k)
}

/// Whether `row` is the row shown for relationship `rel` of the requirement
/// with identifier `id`, reached along `path` (the identifiers from the root
/// down to, not including, that requirement).
pub open spec fn row_for(
    row: RelationshipRow,
    s: Seq<Requirement>,
    defs: Seq<crate::model::RelationshipDefinition>,
    path: Seq<u128>,
    id: u128,
    rel: Relationship,
) -> bool {
    let k = rel.rel_type@;
    let t = pos_of(s, rel.target_id);
    let root = if path.len() > 0 {
        path[0]
    } else {
        id
    };
    let def = find_def(defs, lowercase(rel_kind_name(k)));
    &&& row.rel_type@ == k
    &&& row.target_id == rel.target_id
    &&& match t {
        Some(i) => {
            &&& row.target_idx == Some(i as usize)
            &&& row.target_label@ == match s[i].spec_id {
                Some(x) => x@,
                None => "Unknown"@,
            }
            &&& row.target_title@ == s[i].title@
            &&& row.expandable_children == onward(s[i].relationships@, k, path.push(id)).len()
            &&& opt_kind(row.cross_relationship) == if rel.target_id != root {
                let b = back_to_root(s[i].relationships@, root, k);
                if b.len() > 0 {
                    Some(b[0].rel_type@)
                } else {
                    None
                }
            } else {
                None
            }
        },
        None => {
            &&& row.target_idx is None
            &&& row.target_label@ == "Unknown"@
            &&& row.target_title@ == "(not found)"@
            &&& row.expandable_children == 0
            &&& row.cross_relationship is None
        },
    }
    &&& row.display_name@ == match def {
        Some(d) => d.display_name@,
        None => rel_kind_text(k),
    }
    &&& opt_view(row.color) == match def {
        Some(d) => opt_view(d.color),
        None => None,
    }
    &&& row.is_shared == (pointing(s, rel.target_id, k).len() > 1)
    &&& row.on_path == path.contains(rel.target_id)
}

proof fn lemma_pos_of(s: Seq<Requirement>, id: u128, i: int)
    requires
        first_with_id(s, id, i),
    ensures
        pos_of(s, id) == Some(i),
{
    assert(s[i].id == id);
    let j = choose|j: int| first_with_id(s, id, j);
    assert(first_with_id(s, id, j));
    if j < i {
        assert(s[j].id != id);
    } else if i < j {
        assert(s[i].id != id);
    }
}

/// The first position of `s` that `store.index_of_id` gives, as `pos_of`.
fn position(store: &RequirementsStore, id: u128) -> (r: Option<usize>)
    ensures
        match r {
            Some(i) => pos_of(store.requirements@, id) == Some(i as int) && (i as int) < store.requirements@.len(),
            None => pos_of(store.requirements@, id) is None,
        },
{
    let r = store.index_of_id(id);
    proof {
        if let Some(i) = r {
            lemma_pos_of(store.requirements@, id, i as int);
        }
    }
    r
}

/// Whether `v` holds `x`.
fn has_u128(v: &Vec<u128>, x: u128) -> (r: bool)
    ensures
        r == v@.contains(x),
{
    let mut i: usize = 0;
    while i < v.len()
        invariant
            i <= v@.len(),
            forall|j: int| 0 <= j < i ==> v@[j] != x,
        decreases v.len() - i,
    {
        if v[i] == x {
            return true;
        }
        i = i + 1;
    }
    false
}

/// How many relationships of `rels` have kind `k` and a target not in
/// `path`.
fn count_onward(rels: &Vec<Relationship>, k: &RelationshipType, path: &Vec<u128>) -> (r: usize)
    ensures
        r == onward(rels@, k@, path@).len(),
{
    let ghost p = |r: Relationship| r.rel_type@ == k@ && !path@.contains(r.target_id);
    let mut n: usize = 0;
    let mut i: usize = 0;
    proof {
        reveal(Seq::filter);
        assert(rels@.take(0) =~= Seq::<Relationship>::empty());
    }
    while i < rels.len()
        invariant
            i <= rels@.len(),
            n == rels@.take(i as int).filter(p).len(),
            n <= i,
            p == (|r: Relationship| r.rel_type@ == k@ && !path@.contains(r.target_id)),
        decreases rels.len() - i,
    {
        let rel = &rels[i];
        proof {
            assert(rels@.take(i as int + 1) =~= rels@.take(i as int).push(rels@[i as int]));
            rels@.take(i as int).lemma_filter_push(rels@[i as int], p);
        }
        if rel.rel_type.same_as(k) && !has_u128(path, rel.target_id) {
            n = n + 1;
        }
        i = i + 1;
    }
    proof {
        assert(rels@.take(rels@.len() as int) =~= rels@);
    }
    n
}

/// Whether `r` has a relationship of kind `k` to `target`.
fn has_pointer(r: &Requirement, target: u128, k: &RelationshipType) -> (b: bool)
    ensures
        b == points_to(*r, target, k@),
{
    let mut j: usize = 0;
    while j < r.relationships.len()
        invariant
            j <= r.relationships@.len(),
            forall|m: int|
                0 <= m < j ==> !((#[trigger] r.relationships@[m]).target_id == target && r.relationships@[m].rel_type@
                    == k@),
        decreases r.relationships.len() - j,
    {
        if r.relationships[j].target_id == target && r.relationships[j].rel_type.same_as(k) {
            return true;
        }
        j = j + 1;
    }
    false
}

/// How many requirements of `reqs` have a relationship of kind `k` to
/// `target`.
fn count_pointing(reqs: &Vec<Requirement>, target: u128, k: &RelationshipType) -> (r: usize)
    ensures
        r == pointing(reqs@, target, k@).len(),
{
    let ghost p = |r: Requirement| points_to(r, target, k@);
    let mut n: usize = 0;
    let mut i: usize = 0;
    proof {
        reveal(Seq::filter);
        assert(reqs@.take(0) =~= Seq::<Requirement>::empty());
    }
    while i < reqs.len()
        invariant
            i <= reqs@.len(),
            n == reqs@.take(i as int).filter(p).len(),
            n <= i,
            p == (|r: Requirement| points_to(r, target, k@)),
        decreases reqs.len() - i,
    {
        proof {
            assert(reqs@.take(i as int + 1) =~= reqs@.take(i as int).push(reqs@[i as int]));
            reqs@.take(i as int).lemma_filter_push(reqs@[i as int], p);
        }
        if has_pointer(&reqs[i], target, k) {
            n = n + 1;
        }
        i = i + 1;
    }
    proof {
        assert(reqs@.take(reqs@.len() as int) =~= reqs@);
    }
    n
}

/// The kind of the first relationship of `rels` to `root` of a kind other
/// than `k`.
fn first_back_to_root(rels: &Vec<Relationship>, root: u128, k: &RelationshipType) -> (r: Option<RelationshipType>)
    ensures
        opt_kind(r) == {
            let b = back_to_root(rels@, root, k@);
            if b.len() > 0 {
                Some(b[0].rel_type@)
            } else {
                None
            }
        },
{
    let ghost p = |r: Relationship| r.target_id == root && r.rel_type@ != k@;
    let mut i: usize = 0;
    proof {
        reveal(Seq::filter);
        assert(rels@.take(0) =~= Seq::<Relationship>::empty());
    }
    while i < rels.len()
        invariant
            i <= rels@.len(),
            rels@.take(i as int).filter(p).len() == 0,
            p == (|r: Relationship| r.target_id == root && r.rel_type@ != k@),
        decreases rels.len() - i,
    {
        proof {
            assert(rels@.take(i as int + 1) =~= rels@.take(i as int).push(rels@[i as int]));
            rels@.take(i as int).lemma_filter_push(rels@[i as int], p);
        }
        if rels[i].target_id == root && !rels[i].rel_type.same_as(k) {
            proof {
                lemma_filter_first(rels@, p, i as int);
            }
            return Some(rels[i].rel_type.duplicate());
        }
        i = i + 1;
    }
    proof {
        assert(rels@.take(rels@.len() as int) =~= rels@);
    }
    None
}

/// When no element before `i` passes `p` and element `i` does, it is the
/// first element of the filtered sequence.
proof fn lemma_filter_first<A>(s: Seq<A>, p: spec_fn(A) -> bool, i: int)
    requires
        0 <= i < s.len(),
        s.take(i).filter(p).len() == 0,
        p(s[i]),
    ensures
        s.filter(p).len() > 0,
        s.filter(p)[0] == s[i],
    decreases s.len() - i,
{
    reveal(Seq::filter);
    if i == s.len() - 1 {
        assert(s.take(i) =~= s.drop_last());
        assert(s.filter(p) == s.drop_last().filter(p).push(s.last()));
    } else {
        let t = s.drop_last();
        assert(t.take(i) =~= s.take(i));
        assert(t[i] == s[i]);
        lemma_filter_first(t, p, i);
        s.drop_last().lemma_filter_len(p);
    }
}

impl RequirementsStore {
    /// The row shown for relationship `rel` of the requirement with
    /// identifier `id`, reached along `path`.
    fn relationship_row(&self, path: &Vec<u128>, id: u128, rel: &Relationship) -> (row: RelationshipRow)
        ensures
            row_for(row, self.requirements@, self.relationship_definitions@, path@, id, *rel),
    {
        let reqs = &self.requirements;
        let k = &rel.rel_type;
        let root = if path.len() > 0 {
            path[0]
        } else {
            id
        };
        let t = position(self, rel.target_id);
        let (label, title, expandable, cross) = match t {
            Some(i) => {
                let target = &reqs[i];
                let label = match &target.spec_id {
                    Some(x) => x.clone(),
                    None => owned("Unknown"),
                };
                let mut with_current: Vec<u128> = path.clone();
                proof {
                    assert(with_current@ == path@);
                }
                with_current.push(id);
                let expandable = count_onward(&target.relationships, k, &with_current);
                let cross = if rel.target_id != root {
                    first_back_to_root(&target.relationships, root, k)
                } else {
                    None
                };
                (label, target.title.clone(), expandable, cross)
            },
            None => (owned("Unknown"), owned("(not found)"), 0, None),
        };
        let (display_name, color) = match self.get_definition_for_type(k) {
            Some(d) => (d.display_name.clone(), d.color.clone()),
            None => (k.display_text(), None),
        };
        let shared = count_pointing(reqs, rel.target_id, k) > 1;
        RelationshipRow {
            rel_type: k.duplicate(),
            target_id: rel.target_id,
            target_idx: t,
            target_label: label,
            target_title: title,
            display_name,
            color,
            expandable_children: expandable,
            is_shared: shared,
            cross_relationship: cross,
            on_path: has_u128(path, rel.target_id),
        }
    }

    /// The rows of the relationship tree below the requirement with
    /// identifier `id`, reached along `path`: one for each relationship it
    /// shows (all of them at the top, where `follow` is none; else those of
    /// kind `follow`), in order.
    pub fn relationship_rows(&self, id: u128, path: &Vec<u128>, follow: Option<&RelationshipType>) -> (r: Vec<
        RelationshipRow,
    >)
        ensures
            ({
                let rels = listed_rels(
                    self.requirements@,
                    id,
                    match follow {
                        Some(k) => Some(k@),
                        None => None,
                    },
                );
                &&& r@.len() == rels.len()
                &&& forall|j: int|
                    0 <= j < rels.len() ==> row_for(
                        #[trigger] r@[j],
                        self.requirements@,
                        self.relationship_definitions@,
                        path@,
                        id,
                        rels[j],
                    )
            }),
    {
        let mut rows: Vec<RelationshipRow> = Vec::new();
        let ghost fk = match follow {
            Some(k) => Some(k@),
            None => None,
        };
        let src = match position(self, id) {
            Some(i) => i,
            None => {
                return rows;
            },
        };
        let rels = &self.requirements[src].relationships;
        let ghost p = |r: Relationship| match fk {
            Some(k) => r.rel_type@ == k,
            None => true,
        };
        let ghost all = rels@;
        proof {
            reveal(Seq::filter);
            assert(rels@.take(0) =~= Seq::<Relationship>::empty());
            assert(pos_of(self.requirements@, id) == Some(src as int));
            match fk {
                None => {
                    lemma_filter_all(all, p);
                    assert(listed_rels(self.requirements@, id, fk) == all);
                },
                Some(k) => {
                    let q = |r: Relationship| r.rel_type@ == k;
                    assert(p =~= q);
                    assert(listed_rels(self.requirements@, id, fk) == all.filter(q));
                },
            }
            assert(listed_rels(self.requirements@, id, fk) == all.filter(p));
        }
        let mut i: usize = 0;
        while i < rels.len()
            invariant
                i <= rels@.len(),
                all == rels@,
                src < self.requirements@.len(),
                all == self.requirements@[src as int].relationships@,
                p == (|r: Relationship| match fk {
                    Some(k) => r.rel_type@ == k,
                    None => true,
                }),
                fk == match follow {
                    Some(k) => Some(k@),
                    None => None,
                },
                rows@.len() == all.take(i as int).filter(p).len(),
                forall|j: int|
                    0 <= j < rows@.len() ==> row_for(
                        #[trigger] rows@[j],
                        self.requirements@,
                        self.relationship_definitions@,
                        path@,
                        id,
                        all.take(i as int).filter(p)[j],
                    ),
            decreases rels.len() - i,
        {
            let rel = &rels[i];
            proof {
                assert(all.take(i as int + 1) =~= all.take(i as int).push(all[i as int]));
                all.take(i as int).lemma_filter_push(all[i as int], p);
            }
            let keep = match follow {
                Some(k) => rel.rel_type.same_as(k),
                None => true,
            };
            if keep {
                let row = self.relationship_row(path, id, rel);
                rows.push(row);
            }
            i = i + 1;
        }
        proof {
            assert(all.take(all.len() as int) =~= all);
        }
        rows
    }
}

/// Filtering by a predicate that every element passes keeps the sequence.
proof fn lemma_filter_all<A>(s: Seq<A>, p: spec_fn(A) -> bool)
    requires
        forall|a: A| #[trigger] p(a),
    ensures
        s.filter(p) == s,
    decreases s.len(),
{
    reveal(Seq::filter);
    if s.len() > 0 {
        lemma_filter_all(s.drop_last(), p);
        assert(s.drop_last().push(s.last()) =~= s);
    }
}

} // verus!
