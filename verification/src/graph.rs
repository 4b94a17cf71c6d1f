//! Hierarchies of requirements: following relationships of one kind from
//! requirement to requirement, and the cycles a new relationship would close.
use vstd::prelude::*;
use vstd::seq_lib::seq_to_set_is_finite;
use crate::model::{rel_kind_name, RelKind, RelationshipType};
use crate::requirement::{Relationship, Requirement};
use crate::store::{first_with_id, has_rel, rel_is, RequirementsStore};
use crate::text::str_eq;

verus! {

/// Whether `b` follows `a` along kind `k`: the first requirement with id `a`
/// has a relationship of kind `k` to `b`.
pub open spec fn follows(s: Seq<Requirement>, a: u128, b: u128, k: RelKind) -> bool {
    exists|i: int| #[trigger] first_with_id(s, a, i) && has_rel(s[i].relationships@, b, k)
}

/// Whether `p` is a path along kind `k`: each id follows the previous one.
pub open spec fn is_path(s: Seq<Requirement>, p: Seq<u128>, k: RelKind) -> bool {
    p.len() >= 1 && forall|j: int| 0 <= j < p.len() - 1 ==> #[trigger] follows(s, p[j], p[j + 1], k)
}

/// Whether `b` can be reached from `a` along kind `k` (in zero or more
/// steps).
pub open spec fn reaches(s: Seq<Requirement>, a: u128, b: u128, k: RelKind) -> bool {
    exists|p: Seq<u128>| #[trigger] is_path(s, p, k) && p[0] == a && p.last() == b
}

/// The kind of hierarchy a relationship kind belongs to: `parent` and `child`
/// (by name) are followed as Parent and Child; other kinds form none.
pub open spec fn hierarchy_kind(k: RelKind) -> Option<RelKind> {
    if rel_kind_name(k) == "parent"@ {
        Some(RelKind::Parent)
    } else if rel_kind_name(k) == "child"@ {
        Some(RelKind::Child)
    } else {
        None
    }
}

/// Whether a relationship of kind `k` from `source` to `target` would close
/// a cycle in its hierarchy: `source` is reachable from `target`.
pub open spec fn closes_cycle(s: Seq<Requirement>, source: u128, target: u128, k: RelKind) -> bool {
    match hierarchy_kind(k) {
        Some(h) => reaches(s, target, source, h),
        None => false,
    }
}

/// The targets of the relationships of all requirements in `s`.
pub open spec fn all_targets(s: Seq<Requirement>) -> Seq<u128>
    decreases s.len(),
{
    if s.len() == 0 {
        Seq::empty()
    } else {
        all_targets(s.drop_last()) + s.last().relationships@.map_values(|r: Relationship| r.target_id)
    }
}

pub(crate) proof fn lemma_all_targets_contains(s: Seq<Requirement>, i: int, j: int)
    requires
        0 <= i < s.len(),
        0 <= j < s[i].relationships@.len(),
    ensures
        all_targets(s).contains(s[i].relationships@[j].target_id),
    decreases s.len(),
{
    let m = s.last().relationships@.map_values(|r: Relationship| r.target_id);
    if i == s.len() - 1 {
        assert(m[j] == s[i].relationships@[j].target_id);
        assert((all_targets(s.drop_last()) + m)[all_targets(s.drop_last()).len() + j] == m[j]);
    } else {
        lemma_all_targets_contains(s.drop_last(), i, j);
        let w = choose|w: int| 0 <= w < all_targets(s.drop_last()).len() && all_targets(s.drop_last())[w] == s[i].relationships@[j].target_id;
        assert((all_targets(s.drop_last()) + m)[w] == all_targets(s.drop_last())[w]);
    }
}

pub(crate) proof fn lemma_follows_in_universe(s: Seq<Requirement>, a: u128, b: u128, k: RelKind)
    requires
        follows(s, a, b, k),
    ensures
        all_targets(s).contains(b),
{
    let i = choose|i: int| #[trigger] first_with_id(s, a, i) && has_rel(s[i].relationships@, b, k);
    let j = choose|j: int| 0 <= j < s[i].relationships@.len() && rel_is(#[trigger] s[i].relationships@[j], b, k);
    lemma_all_targets_contains(s, i, j);
}

pub(crate) proof fn lemma_path_extend(s: Seq<Requirement>, p: Seq<u128>, b: u128, k: RelKind)
    requires
        is_path(s, p, k),
        follows(s, p.last(), b, k),
    ensures
        is_path(s, p.push(b), k),
        p.push(b)[0] == p[0],
        p.push(b).last() == b,
{
    assert forall|j: int| 0 <= j < p.push(b).len() - 1 implies #[trigger] follows(s, p.push(b)[j], p.push(b)[j + 1], k) by {
        if j < p.len() - 1 {
            assert(p.push(b)[j] == p[j] && p.push(b)[j + 1] == p[j + 1]);
        } else {
            assert(p.push(b)[j] == p.last());
        }
    }
}

/// A set of ids holding `a` and closed under following kind `k` holds every
/// id reachable from `a`.
proof fn lemma_closed_holds_path(s: Seq<Requirement>, closed: Set<u128>, p: Seq<u128>, k: RelKind)
    requires
        is_path(s, p, k),
        closed.contains(p[0]),
        forall|x: u128, y: u128| closed.contains(x) && #[trigger] follows(s, x, y, k) ==> closed.contains(y),
    ensures
        closed.contains(p.last()),
    decreases p.len(),
{
    if p.len() > 1 {
        let q = p.drop_last();
        assert forall|j: int| 0 <= j < q.len() - 1 implies #[trigger] follows(s, q[j], q[j + 1], k) by {
            assert(follows(s, p[j], p[j + 1], k));
        }
        lemma_closed_holds_path(s, closed, q, k);
        let j = p.len() - 2;
        assert(follows(s, p[j], p[j + 1], k));
        assert(q.last() == p[j]);
    }
}

pub(crate) fn vec_has(v: &Vec<u128>, x: u128) -> (r: bool)
    ensures
        r == v@.contains(x),
{
    let mut i: usize = 0;
    while i < v.len()
        invariant
            i <= v@.len(),
            forall|j: int| 0 <= j < i ==> v@[j] != x,
        decreases v.len() - i,
    {
        if v[i] == x {
            return true;
        }
        i = i + 1;
    }
    false
}

impl RequirementsStore {
    /// Whether a relationship of kind `rel_type` from `source_id` to
    /// `target_id` would close a cycle: for `parent` (or `child`) relationships,
    /// whether `source_id` is reachable from `target_id` by following parent
    /// (or child) relationships.
    pub fn would_create_cycle(&self, source_id: &u128, target_id: &u128, rel_type: &RelationshipType) -> (r: bool)
        ensures
            r == closes_cycle(self.requirements@, *source_id, *target_id, rel_type@),
    {
        let name = rel_type.name();
        let check_type = if str_eq(name.as_str(), "parent") {
            RelationshipType::Parent
        } else if str_eq(name.as_str(), "child") {
            RelationshipType::Child
        } else {
            return false;
        };
        let ghost s = self.requirements@;
        let ghost k = check_type@;
        let ghost universe = all_targets(s).to_set().insert(*target_id);
        proof {
            seq_to_set_is_finite(all_targets(s));
        }
        let ghost mut vset: Set<u128> = Set::empty();
        let mut visited: Vec<u128> = Vec::new();
        let mut stack: Vec<u128> = Vec::new();
        stack.push(*target_id);
        proof {
            let p0 = seq![*target_id];
            assert(is_path(s, p0, k));
            assert(stack@[0] == *target_id);
            assert(hierarchy_kind(rel_type@) == Some(k));
        }
        while stack.len() > 0
            invariant
                s == self.requirements@,
                k == check_type@,
                universe == all_targets(s).to_set().insert(*target_id),
                universe.finite(),
                forall|x: u128| #[trigger] vset.contains(x) <==> visited@.contains(x),
                vset.subset_of(universe),
                forall|j: int| 0 <= j < stack@.len() ==> universe.contains(#[trigger] stack@[j]),
                forall|x: u128| #[trigger] vset.contains(x) ==> reaches(s, *target_id, x, k),
                forall|j: int| 0 <= j < stack@.len() ==> reaches(s, *target_id, #[trigger] stack@[j], k),
                forall|x: u128, y: u128|
                    vset.contains(x) && #[trigger] follows(s, x, y, k) ==> vset.contains(y) || stack@.contains(y),
                vset.contains(*target_id) || stack@.contains(*target_id),
                !vset.contains(*source_id),
                hierarchy_kind(rel_type@) == Some(k),
            decreases universe.difference(vset).len(), stack@.len(),
        {
            let ghost top = stack@;
            let ghost vset_before = vset;
            let current = stack.pop().unwrap();
            proof {
                assert(top[top.len() - 1] == current);
                assert(stack@ =~= top.drop_last());
                assert(reaches(s, *target_id, current, k));
            }
            if current == *source_id {
                return true;
            }
            if !vec_has(&visited, current) {
                let ghost stack_before = stack@;
                let ghost vis_before = visited@;
                visited.push(current);
                proof {
                    assert(universe.contains(current));
                    universe.lemma_set_insert_diff_decreases(vset, current);
                    vset = vset.insert(current);
                    assert(visited@ == vis_before.push(current));
                    assert forall|x: u128| #[trigger] vset.contains(x) <==> visited@.contains(x) by {
                        if visited@.contains(x) && x != current {
                            let w = choose|w: int| 0 <= w < visited@.len() && visited@[w] == x;
                            assert(w < vis_before.len());
                            assert(vis_before[w] == x);
                            assert(vis_before.contains(x));
                        }
                        if vis_before.contains(x) {
                            let w = choose|w: int| 0 <= w < vis_before.len() && vis_before[w] == x;
                            assert(visited@[w] == x);
                        }
                        if x == current {
                            assert(visited@[visited@.len() - 1] == current);
                        }
                    }
                }
                match self.index_of_id(current) {
                    Some(i) => {
                        let rels = &self.requirements[i].relationships;
                        let mut m: usize = 0;
                        while m < rels.len()
                            invariant
                                s == self.requirements@,
                                first_with_id(s, current, i as int),
                                *rels == s[i as int].relationships,
                                m <= rels@.len(),
                                k == check_type@,
                                forall|j: int| 0 <= j < stack_before.len() ==> stack@[j] == stack_before[j],
                                stack@.len() >= stack_before.len(),
                                forall|j: int|
                                    0 <= j < m && (#[trigger] rels@[j]).rel_type@ == k ==> stack@.contains(rels@[j].target_id),
                                forall|j: int| 0 <= j < stack@.len() ==> universe.contains(#[trigger] stack@[j]),
                                forall|j: int| 0 <= j < stack@.len() ==> reaches(s, *target_id, #[trigger] stack@[j], k),
                                reaches(s, *target_id, current, k),
                                universe == all_targets(s).to_set().insert(*target_id),
                            decreases rels.len() - m,
                        {
                            if rels[m].rel_type.same_as(&check_type) {
                                let t = rels[m].target_id;
                                let ghost prev = stack@;
                                stack.push(t);
                                proof {
                                    assert(rel_is(rels@[m as int], t, k));
                                    assert(follows(s, current, t, k));
                                    lemma_follows_in_universe(s, current, t, k);
                                    let p = choose|p: Seq<u128>|
                                        #[trigger] is_path(s, p, k) && p[0] == *target_id && p.last() == current;
                                    lemma_path_extend(s, p, t, k);
                                    assert(reaches(s, *target_id, t, k));
                                    assert(stack@[stack@.len() - 1] == t);
                                    assert forall|j: int|
                                        0 <= j < m + 1 && (#[trigger] rels@[j]).rel_type@ == k implies stack@.contains(
                                        rels@[j].target_id,
                                    ) by {
                                        if j < m {
                                            let w = choose|w: int| 0 <= w < prev.len() && prev[w] == rels@[j].target_id;
                                            assert(stack@[w] == prev[w]);
                                        }
                                    }
                                }
                            }
                            m = m + 1;
                        }
                        proof {
                            assert forall|y: u128| #[trigger] follows(s, current, y, k) implies stack@.contains(y) by {
                                let i2 = choose|i2: int|
                                    #[trigger] first_with_id(s, current, i2) && has_rel(s[i2].relationships@, y, k);
                                if i2 < i {
                                    assert(s[i2].id != current);
                                } else if i < i2 {
                                    assert(s[i as int].id != current);
                                }
                                let j = choose|j: int|
                                    0 <= j < s[i as int].relationships@.len() && rel_is(
                                        #[trigger] s[i as int].relationships@[j],
                                        y,
                                        k,
                                    );
                                assert(rels@[j].rel_type@ == k);
                            }
                        }
                    },
                    None => {
                        proof {
                            assert forall|y: u128| !#[trigger] follows(s, current, y, k) by {
                                if follows(s, current, y, k) {
                                    let i2 = choose|i2: int|
                                        #[trigger] first_with_id(s, current, i2) && has_rel(s[i2].relationships@, y, k);
                                    assert(s[i2].id == current);
                                }
                            }
                        }
                    },
                }
                proof {
                    assert forall|x: u128, y: u128|
                        vset.contains(x) && #[trigger] follows(s, x, y, k) implies vset.contains(y) || stack@.contains(y) by {
                        if x != current && !vset.contains(y) {
                            assert(vset_before.contains(x));
                            assert(top.contains(y));
                            let w = choose|w: int| 0 <= w < top.len() && top[w] == y;
                            if w < top.len() - 1 {
                                assert(stack_before[w] == y);
                                assert(stack@[w] == y);
                            }
                        }
                    }
                }
            } else {
                proof {
                    assert(vset.contains(current));
                    assert forall|x: u128, y: u128|
                        vset.contains(x) && #[trigger] follows(s, x, y, k) implies vset.contains(y) || stack@.contains(y) by {
                        if !vset.contains(y) {
                            assert(top.contains(y));
                            let w = choose|w: int| 0 <= w < top.len() && top[w] == y;
                            if w < top.len() - 1 {
                                assert(stack@[w] == y);
                            }
                        }
                    }
                }
            }
            proof {
                if !vset.contains(*target_id) {
                    assert(top.contains(*target_id));
                    let w = choose|w: int| 0 <= w < top.len() && top[w] == *target_id;
                    if w < top.len() - 1 {
                        assert(stack@[w] == *target_id) by {
                            assert(top.drop_last()[w] == *target_id);
                        }
                    } else {
                        assert(current == *target_id);
                    }
                }
            }
        }
        proof {
            assert(vset.contains(*target_id));
            if reaches(s, *target_id, *source_id, k) {
                let p = choose|p: Seq<u128>| #[trigger] is_path(s, p, k) && p[0] == *target_id && p.last() == *source_id;
                lemma_closed_holds_path(s, vset, p, k);
            }
        }
        false
    }
}

} // verus!
