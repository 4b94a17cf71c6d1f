//! The order in which the requirements list shows requirements: the flat
//! list in storage order, or the relationship trees walked depth first, each
//! requirement once, collapsed nodes not expanded.
use vstd::prelude::*;
use vstd::set_lib::{lemma_int_range, lemma_len_subset, set_int_range};
use crate::listing::{passes, positions_where, targeted, ListFilters};
use crate::model::{RelKind, RelationshipType};
use crate::relations::has_kind;
use crate::requirement::Requirement;
use crate::settings::{Perspective, PerspectiveDirection};
use crate::store::{first_with_id, has_id, has_rel};

verus! {

/// Whether position `b` is shown right below position `a` in a tree of
/// kind `k`: top-down (`down`), a requirement that the first requirement
/// with `a`'s identifier has a relationship of kind `k` to; bottom-up, a
/// requirement with a relationship of kind `k` to `a`'s identifier; either
/// way one that passes the child filters.
pub open spec fn tree_next(f: ListFilters, s: Seq<Requirement>, k: RelKind, down: bool, a: int, b: int) -> bool {
    &&& 0 <= b < s.len()
    &&& passes(f, s[b], false)
    &&& if down {
        exists|pi: int| #[trigger] first_with_id(s, s[a].id, pi) && has_rel(s[pi].relationships@, s[b].id, k)
    } else {
        has_rel(s[b].relationships@, s[a].id, k)
    }
}

/// Whether the node at position `a` is collapsed.
pub open spec fn collapsed_at(f: ListFilters, s: Seq<Requirement>, a: int) -> bool {
    f.tree_collapsed@.contains(s[a].id)
}

/// Whether `p` is a path of positions in a tree of kind `k` that avoids
/// `seen`: each position is shown right below the one before, which is not
/// collapsed.
pub open spec fn tree_path(f: ListFilters, s: Seq<Requirement>, k: RelKind, down: bool, p: Seq<usize>, seen: Seq<
    usize,
>) -> bool {
    &&& p.len() >= 1
    &&& forall|t: int| 0 <= t < p.len() ==> (#[trigger] p[t]) < s.len() && !seen.contains(p[t])
    &&& forall|t: int| 0 <= t < p.len() - 1 ==> #[trigger] tree_step(f, s, k, down, p[t] as int, p[t + 1] as int)
}

/// Whether the node at position `a` is expanded and `b` is shown right
/// below it.
pub open spec fn tree_step(f: ListFilters, s: Seq<Requirement>, k: RelKind, down: bool, a: int, b: int) -> bool {
    !collapsed_at(f, s, a) && tree_next(f, s, k, down, a, b)
}

/// Whether position `j` is shown below position `a` (or is `a`), by a path
/// that avoids `seen`.
pub open spec fn shown_below(f: ListFilters, s: Seq<Requirement>, k: RelKind, down: bool, a: usize, j: usize, seen: Seq<
    usize,
>) -> bool {
    exists|p: Seq<usize>| #[trigger] tree_path(f, s, k, down, p, seen) && p[0] == a && p.last() == j
}

/// Whether position `j` is shown in the trees grown from the positions
/// `starts`.
pub open spec fn tree_shown(f: ListFilters, s: Seq<Requirement>, k: RelKind, down: bool, starts: Seq<usize>, j: usize) -> bool {
    exists|a: usize| #[trigger] starts.contains(a) && shown_below(f, s, k, down, a, j, Seq::empty())
}

/// The outgoing relationship kind of a tree perspective.
pub open spec fn perspective_kind(p: Perspective) -> RelKind {
    match p {
        Perspective::ParentChild => RelKind::Parent,
        Perspective::Verification => RelKind::Verifies,
        _ => RelKind::References,
    }
}

/// Whether every node of `r` that is not collapsed has every position shown
/// right below it in `r` too.
pub open spec fn closed_below(f: ListFilters, s: Seq<Requirement>, k: RelKind, down: bool, r: Seq<usize>) -> bool {
    forall|j: usize, b: int|
        r.contains(j) && !collapsed_at(f, s, j as int) && #[trigger] tree_next(f, s, k, down, j as int, b) ==> r.contains(
            b as usize,
        )
}

/// The number of positions below `n` that are not in `seen`.
pub open spec fn fresh_count(n: nat, seen: Seq<usize>) -> nat
    decreases n,
{
    if n == 0 {
        0
    } else {
        fresh_count((n - 1) as nat, seen) + if seen.contains((n - 1) as usize) {
            0nat
        } else {
            1nat
        }
    }
}

/// Listing more positions leaves no more of them unlisted.
pub proof fn lemma_fresh_mono(n: nat, seen: Seq<usize>, seen2: Seq<usize>)
    requires
        forall|x: usize| seen.contains(x) ==> seen2.contains(x),
    ensures
        fresh_count(n, seen2) <= fresh_count(n, seen),
    decreases n,
{
    if n > 0 {
        lemma_fresh_mono((n - 1) as nat, seen, seen2);
    }
}

/// Listing one more position below `n` leaves fewer unlisted.
pub proof fn lemma_fresh_push(n: nat, seen: Seq<usize>, a: usize)
    requires
        a < n,
        !seen.contains(a),
    ensures
        fresh_count(n, seen.push(a)) < fresh_count(n, seen),
    decreases n,
{
    assert forall|x: usize| seen.contains(x) implies seen.push(a).contains(x) by {
        let i = choose|i: int| 0 <= i < seen.len() && seen[i] == x;
        assert(seen.push(a)[i] == x);
    }
    assert(seen.push(a).contains(a)) by {
        assert(seen.push(a)[seen.len() as int] == a);
    }
    if a == n - 1 {
        lemma_fresh_mono((n - 1) as nat, seen, seen.push(a));
    } else {
        lemma_fresh_push((n - 1) as nat, seen, a);
        if seen.push(a).contains((n - 1) as usize) && !seen.contains((n - 1) as usize) {
            let i = choose|i: int| 0 <= i < seen.push(a).len() && seen.push(a)[i] == (n - 1) as usize;
            if i < seen.len() {
                assert(seen[i] == (n - 1) as usize);
            }
        }
    }
}

/// The positions shown right below position `a`, in storage order.
pub open spec fn next_of(f: ListFilters, s: Seq<Requirement>, k: RelKind, down: bool, a: usize) -> Seq<usize> {
    positions_where(s.len() as int, |b: int| tree_next(f, s, k, down, a as int, b))
}

/// The positions a depth-first walk from position `a` lists when the
/// positions `seen` are listed already: nothing when `a` is one of them;
/// else `a`, then, unless `a` is collapsed, the walks from the positions
/// right below it, in order.
pub open spec fn walk(f: ListFilters, s: Seq<Requirement>, k: RelKind, down: bool, a: usize, seen: Seq<usize>) -> Seq<
    usize,
>
    decreases fresh_count(s.len(), seen), 0nat, 0nat,
{
    if seen.contains(a) || a >= s.len() {
        Seq::empty()
    } else if collapsed_at(f, s, a as int) {
        seq![a]
    } else {
        proof {
            lemma_fresh_push(s.len(), seen, a);
        }
        seq![a] + walk_all(f, s, k, down, next_of(f, s, k, down, a), seen.push(a))
    }
}

/// The positions the depth-first walks from the positions `cs`, one after
/// the other, list when the positions `seen` are listed already.
pub open spec fn walk_all(f: ListFilters, s: Seq<Requirement>, k: RelKind, down: bool, cs: Seq<usize>, seen: Seq<
    usize,
>) -> Seq<usize>
    decreases fresh_count(s.len(), seen), 1nat, cs.len(),
{
    if cs.len() == 0 {
        Seq::empty()
    } else {
        let w = walk(f, s, k, down, cs[0], seen);
        proof {
            assert forall|x: usize| seen.contains(x) implies (seen + w).contains(x) by {
                let i = choose|i: int| 0 <= i < seen.len() && seen[i] == x;
                assert((seen + w)[i] == x);
            }
            lemma_fresh_mono(s.len(), seen, seen + w);
        }
        w + walk_all(f, s, k, down, cs.drop_first(), seen + w)
    }
}

proof fn lemma_positions_where_ext(n: int, p: spec_fn(int) -> bool, q: spec_fn(int) -> bool)
    requires
        forall|i: int| 0 <= i < n ==> #[trigger] p(i) == q(i),
    ensures
        positions_where(n, p) == positions_where(n, q),
    decreases n,
{
    if n > 0 {
        lemma_positions_where_ext(n - 1, p, q);
    }
}

proof fn lemma_walk_all_snoc(
    f: ListFilters,
    s: Seq<Requirement>,
    k: RelKind,
    down: bool,
    cs: Seq<usize>,
    c: usize,
    seen: Seq<usize>,
)
    ensures
        walk_all(f, s, k, down, cs.push(c), seen) == walk_all(f, s, k, down, cs, seen) + walk(
            f,
            s,
            k,
            down,
            c,
            seen + walk_all(f, s, k, down, cs, seen),
        ),
    decreases cs.len(),
{
    if cs.len() == 0 {
        assert(cs.push(c).drop_first() =~= Seq::<usize>::empty());
        assert(seen + Seq::<usize>::empty() =~= seen);
        let w = walk(f, s, k, down, c, seen);
        assert(walk_all(f, s, k, down, cs.push(c), seen) == w + walk_all(f, s, k, down, Seq::empty(), seen + w));
        assert(w + Seq::<usize>::empty() =~= w);
        assert(Seq::<usize>::empty() + w =~= w);
    } else {
        let w0 = walk(f, s, k, down, cs[0], seen);
        assert(cs.push(c)[0] == cs[0]);
        assert(cs.push(c).drop_first() =~= cs.drop_first().push(c));
        lemma_walk_all_snoc(f, s, k, down, cs.drop_first(), c, seen + w0);
        let rest = walk_all(f, s, k, down, cs.drop_first(), seen + w0);
        assert(seen + w0 + rest =~= seen + (w0 + rest));
        assert(w0 + (rest + walk(f, s, k, down, c, seen + w0 + rest)) =~= (w0 + rest) + walk(
            f,
            s,
            k,
            down,
            c,
            seen + w0 + rest,
        ));
    }
}

/// Every start of a tree is shown in it, and so is every position shown
/// right below a shown, expanded one.
pub proof fn lemma_tree_shown_closed(
    f: ListFilters,
    s: Seq<Requirement>,
    k: RelKind,
    down: bool,
    starts: Seq<usize>,
    a: usize,
    j: usize,
    b: usize,
)
    requires
        forall|t: int| 0 <= t < starts.len() ==> #[trigger] starts[t] < s.len(),
    ensures
        starts.contains(a) ==> tree_shown(f, s, k, down, starts, a),
        tree_shown(f, s, k, down, starts, j) && tree_step(f, s, k, down, j as int, b as int) ==> tree_shown(
            f,
            s,
            k,
            down,
            starts,
            b,
        ),
{
    if starts.contains(a) {
        let t = choose|t: int| 0 <= t < starts.len() && starts[t] == a;
        let p = seq![a];
        assert(tree_path(f, s, k, down, p, Seq::empty())) by {
            assert(starts[t] < s.len());
        }
        assert(shown_below(f, s, k, down, a, a, Seq::empty()));
    }
    if tree_shown(f, s, k, down, starts, j) && tree_step(f, s, k, down, j as int, b as int) {
        let a0 = choose|a0: usize| #[trigger] starts.contains(a0) && shown_below(f, s, k, down, a0, j, Seq::empty());
        let p = choose|p: Seq<usize>| #[trigger] tree_path(f, s, k, down, p, Seq::empty()) && p[0] == a0 && p.last() == j;
        let q = p.push(b);
        assert(tree_path(f, s, k, down, q, Seq::empty())) by {
            assert forall|t: int| 0 <= t < q.len() implies (#[trigger] q[t]) < s.len() && !Seq::<usize>::empty().contains(
                q[t],
            ) by {
                if t < p.len() {
                    assert(q[t] == p[t]);
                }
            }
            assert forall|t: int| 0 <= t < q.len() - 1 implies #[trigger] tree_step(f, s, k, down, q[t] as int, q[t + 1] as int) by {
                if t < p.len() - 1 {
                    assert(q[t] == p[t] && q[t + 1] == p[t + 1]);
                } else {
                    assert(q[t] == j && q[t + 1] == b);
                }
            }
        }
        assert(shown_below(f, s, k, down, a0, b, Seq::empty()));
    }
}

proof fn lemma_positions_where(n: int, p: spec_fn(int) -> bool)
    requires
        n <= usize::MAX,
    ensures
        forall|t: int|
            0 <= t < positions_where(n, p).len() ==> (#[trigger] positions_where(n, p)[t]) < n && p(
                positions_where(n, p)[t] as int,
            ),
        forall|x: int| 0 <= x < n && #[trigger] p(x) ==> positions_where(n, p).contains(x as usize),
    decreases n,
{
    if n > 0 {
        lemma_positions_where(n - 1, p);
        let q = positions_where(n - 1, p);
        if p(n - 1) {
            assert(positions_where(n, p) == q.push((n - 1) as usize));
            assert forall|t: int|
                0 <= t < positions_where(n, p).len() implies (#[trigger] positions_where(n, p)[t]) < n && p(
                positions_where(n, p)[t] as int,
            ) by {
                if t < q.len() {
                    assert(positions_where(n, p)[t] == q[t]);
                }
            }
            assert forall|x: int| 0 <= x < n && #[trigger] p(x) implies positions_where(n, p).contains(x as usize) by {
                if x < n - 1 {
                    let w = choose|w: int| 0 <= w < q.len() && q[w] == x as usize;
                    assert(positions_where(n, p)[w] == x as usize);
                } else {
                    assert(positions_where(n, p)[q.len() as int] == x as usize);
                }
            }
        }
    }
}

proof fn lemma_bounded_len(v: Seq<usize>, n: int)
    requires
        v.no_duplicates(),
        n >= 0,
        forall|t: int| 0 <= t < v.len() ==> #[trigger] v[t] < n,
    ensures
        v.len() <= n,
{
    let w = v.map_values(|x: usize| x as int);
    assert(w.no_duplicates()) by {
        assert forall|i: int, j: int| 0 <= i < w.len() && 0 <= j < w.len() && i != j implies w[i] != w[j] by {
            assert(v[i] != v[j]);
        }
    }
    w.unique_seq_to_set();
    lemma_int_range(0, n);
    assert(w.to_set().subset_of(set_int_range(0, n))) by {
        assert forall|x: int| w.to_set().contains(x) implies set_int_range(0, n).contains(x) by {
            let t = choose|t: int| 0 <= t < w.len() && w[t] == x;
            assert(v[t] < n);
        }
    }
    lemma_len_subset(w.to_set(), set_int_range(0, n));
}

proof fn lemma_path_prepend(
    f: ListFilters,
    s: Seq<Requirement>,
    k: RelKind,
    down: bool,
    a: usize,
    p: Seq<usize>,
    seen: Seq<usize>,
    seen2: Seq<usize>,
)
    requires
        tree_path(f, s, k, down, p, seen2),
        a < s.len(),
        !seen.contains(a),
        !collapsed_at(f, s, a as int),
        tree_next(f, s, k, down, a as int, p[0] as int),
        forall|x: usize| seen.contains(x) ==> seen2.contains(x),
    ensures
        tree_path(f, s, k, down, seq![a] + p, seen),
        (seq![a] + p)[0] == a,
        (seq![a] + p).last() == p.last(),
{
    let q = seq![a] + p;
    assert forall|t: int| 0 <= t < q.len() implies (#[trigger] q[t]) < s.len() && !seen.contains(q[t]) by {
        if t > 0 {
            assert(q[t] == p[t - 1]);
            assert(p[t - 1] < s.len() && !seen2.contains(p[t - 1]));
            if seen.contains(p[t - 1]) {
                assert(seen2.contains(p[t - 1]));
            }
        }
    }
    assert forall|t: int| 0 <= t < q.len() - 1 implies #[trigger] tree_step(f, s, k, down, q[t] as int, q[t + 1] as int) by {
        if t > 0 {
            assert(q[t] == p[t - 1] && q[t + 1] == p[t]);
            assert(tree_step(f, s, k, down, p[t - 1] as int, p[(t - 1) + 1] as int));
        }
    }
}

proof fn lemma_path_any_seen(f: ListFilters, s: Seq<Requirement>, k: RelKind, down: bool, p: Seq<usize>, seen: Seq<usize>)
    requires
        tree_path(f, s, k, down, p, seen),
    ensures
        tree_path(f, s, k, down, p, Seq::empty()),
{
    assert forall|t: int| 0 <= t < p.len() implies (#[trigger] p[t]) < s.len() && !Seq::<usize>::empty().contains(
        p[t],
    ) by {
        assert(p[t] < s.len());
    }
}

proof fn lemma_closed_holds_path(
    f: ListFilters,
    s: Seq<Requirement>,
    k: RelKind,
    down: bool,
    r: Seq<usize>,
    p: Seq<usize>,
    seen: Seq<usize>,
)
    requires
        tree_path(f, s, k, down, p, seen),
        r.contains(p[0]),
        closed_below(f, s, k, down, r),
    ensures
        r.contains(p.last()),
    decreases p.len(),
{
    if p.len() > 1 {
        let q = p.drop_last();
        assert(tree_path(f, s, k, down, q, seen)) by {
            assert forall|t: int| 0 <= t < q.len() implies (#[trigger] q[t]) < s.len() && !seen.contains(q[t]) by {
                assert(q[t] == p[t]);
                assert(p[t] < s.len() && !seen.contains(p[t]));
            }
            assert forall|t: int| 0 <= t < q.len() - 1 implies #[trigger] tree_step(f, s, k, down, q[t] as int, q[t + 1] as int) by {
                assert(tree_step(f, s, k, down, p[t] as int, p[t + 1] as int));
            }
        }
        lemma_closed_holds_path(f, s, k, down, r, q, seen);
        let t = p.len() - 2;
        assert(tree_step(f, s, k, down, p[t] as int, p[t + 1] as int));
        assert(q.last() == p[t]);
    }
}

proof fn lemma_first_pos(s: Seq<Requirement>, id: u128, c: int) -> (pi: int)
    requires
        0 <= c < s.len(),
        s[c].id == id,
    ensures
        first_with_id(s, id, pi),
    decreases c,
{
    if exists|j: int| 0 <= j < c && (#[trigger] s[j]).id == id {
        let j = choose|j: int| 0 <= j < c && (#[trigger] s[j]).id == id;
        lemma_first_pos(s, id, j)
    } else {
        c
    }
}

fn has_index(v: &Vec<usize>, x: usize) -> (r: bool)
    ensures
        r == v@.contains(x),
{
    let mut i: usize = 0;
    while i < v.len()
        invariant
            i <= v@.len(),
            forall|j: int| 0 <= j < i ==> v@[j] != x,
        decreases v.len() - i,
    {
        if v[i] == x {
            return true;
        }
        i = i + 1;
    }
    false
}

fn ids_have(v: &Vec<u128>, x: u128) -> (r: bool)
    ensures
        r == v@.contains(x),
{
    let mut i: usize = 0;
    while i < v.len()
        invariant
            i <= v@.len(),
            forall|j: int| 0 <= j < i ==> v@[j] != x,
        decreases v.len() - i,
    {
        if v[i] == x {
            return true;
        }
        i = i + 1;
    }
    false
}

impl ListFilters {
    /// The positions shown right below position `idx` in a tree of kind
    /// `outgoing_rel_type`: its children top-down (`down`), its parents
    /// bottom-up.
    fn next_positions(&self, reqs: &Vec<Requirement>, idx: usize, outgoing_rel_type: &RelationshipType, down: bool) -> (r:
        Vec<usize>)
        requires
            idx < reqs@.len(),
        ensures
            r@ == next_of(*self, reqs@, outgoing_rel_type@, down, idx),
            forall|t: int|
                0 <= t < r@.len() ==> (#[trigger] r@[t]) < reqs@.len() && tree_next(
                    *self,
                    reqs@,
                    outgoing_rel_type@,
                    down,
                    idx as int,
                    r@[t] as int,
                ),
            forall|b: int| #[trigger] tree_next(*self, reqs@, outgoing_rel_type@, down, idx as int, b) ==> r@.contains(
                b as usize,
            ),
    {
        let ghost s = reqs@;
        let ghost k = outgoing_rel_type@;
        let n = reqs.len();
        let id = reqs[idx].id;
        if down {
            let r = self.get_children(reqs, &id, outgoing_rel_type);
            proof {
                let pi = lemma_first_pos(s, id, idx as int);
                let p = |i: int| has_rel(s[pi].relationships@, s[i].id, k) && passes(*self, s[i], false);
                assert(r@ == positions_where(s.len() as int, p));
                let q = |b: int| tree_next(*self, s, k, down, idx as int, b);
                assert forall|i: int| 0 <= i < s.len() implies #[trigger] p(i) == q(i) by {
                    if tree_next(*self, s, k, down, idx as int, i) {
                        let pj = choose|pj: int| #[trigger] first_with_id(s, s[idx as int].id, pj) && has_rel(s[pj].relationships@, s[i].id, k);
                        assert(pj == pi) by {
                            if pj < pi {
                                assert(s[pj].id != id);
                            } else if pi < pj {
                                assert(s[pi].id != id);
                            }
                        }
                    }
                }
                lemma_positions_where_ext(s.len() as int, p, q);
                assert(s.len() == n);
                lemma_positions_where(s.len() as int, p);
                assert forall|t: int| 0 <= t < r@.len() implies (#[trigger] r@[t]) < s.len() && tree_next(
                    *self,
                    s,
                    k,
                    down,
                    idx as int,
                    r@[t] as int,
                ) by {
                    assert(p(r@[t] as int));
                }
                assert forall|b: int| #[trigger] tree_next(*self, s, k, down, idx as int, b) implies r@.contains(
                    b as usize,
                ) by {
                    let pj = choose|pj: int| #[trigger] first_with_id(s, s[idx as int].id, pj) && has_rel(s[pj].relationships@, s[b].id, k);
                    assert(pj == pi) by {
                        if pj < pi {
                            assert(s[pj].id != id);
                        } else if pi < pj {
                            assert(s[pi].id != id);
                        }
                    }
                    assert(p(b));
                }
            }
            r
        } else {
            let r = self.get_parents(reqs, &id, outgoing_rel_type);
            proof {
                let p = |i: int| passes(*self, s[i], false) && has_rel(s[i].relationships@, id, k);
                assert(r@ == positions_where(s.len() as int, p));
                let q = |b: int| tree_next(*self, s, k, down, idx as int, b);
                assert forall|i: int| 0 <= i < s.len() implies #[trigger] p(i) == q(i) by {}
                lemma_positions_where_ext(s.len() as int, p, q);
                assert(s.len() == n);
                lemma_positions_where(s.len() as int, p);
                assert forall|t: int| 0 <= t < r@.len() implies (#[trigger] r@[t]) < s.len() && tree_next(
                    *self,
                    s,
                    k,
                    down,
                    idx as int,
                    r@[t] as int,
                ) by {
                    assert(p(r@[t] as int));
                }
                assert forall|b: int| #[trigger] tree_next(*self, s, k, down, idx as int, b) implies r@.contains(
                    b as usize,
                ) by {
                    assert(p(b));
                }
            }
            r
        }
    }

    /// Walks the tree of kind `outgoing_rel_type` from position `idx` depth
    /// first, appending to `result` each position not in it yet: the node,
    /// then (unless it is collapsed) the walks from the positions right
    /// below it, in order: its children top-down (`down`), its parents
    /// bottom-up.
    fn collect_tree_indices(
        &self,
        reqs: &Vec<Requirement>,
        idx: usize,
        outgoing_rel_type: &RelationshipType,
        down: bool,
        result: &mut Vec<usize>,
    )
        requires
            idx < reqs@.len(),
            old(result)@.no_duplicates(),
            forall|t: int| 0 <= t < old(result)@.len() ==> #[trigger] old(result)@[t] < reqs@.len(),
        ensures
            final(result)@.len() >= old(result)@.len(),
            final(result)@.take(old(result)@.len() as int) == old(result)@,
            final(result)@.no_duplicates(),
            forall|t: int| 0 <= t < final(result)@.len() ==> #[trigger] final(result)@[t] < reqs@.len(),
            final(result)@.contains(idx),
            final(result)@ == old(result)@ + walk(*self, reqs@, outgoing_rel_type@, down, idx, old(result)@),
            forall|j: usize|
                final(result)@.contains(j) && !old(result)@.contains(j) ==> shown_below(
                    *self,
                    reqs@,
                    outgoing_rel_type@,
                    down,
                    idx,
                    j,
                    old(result)@,
                ),
            forall|j: usize, b: int|
                final(result)@.contains(j) && !old(result)@.contains(j) && !collapsed_at(*self, reqs@, j as int)
                    && #[trigger] tree_next(*self, reqs@, outgoing_rel_type@, down, j as int, b)
                    ==> final(result)@.contains(b as usize),
        decreases reqs@.len() - old(result)@.len(),
    {
        let ghost s = reqs@;
        let ghost k = outgoing_rel_type@;
        let ghost r0 = result@;
        if has_index(result, idx) {
            proof {
                assert(result@ =~= r0 + walk(*self, s, k, down, idx, r0));
            }
            return;
        }
        proof {
            let r1 = r0.push(idx);
                assert forall|t: int| 0 <= t < r1.len() implies #[trigger] r1[t] < s.len() by {
                    if t < r0.len() {
                        assert(r1[t] == r0[t]);
                    }
                }
                assert(r1.no_duplicates()) by {
                    assert forall|i: int, j: int|
                        0 <= i < r1.len() && 0 <= j < r1.len() && i != j implies r1[i]
                        != r1[j] by {
                        if i < r0.len() && j < r0.len() {
                            assert(r1[i] == r0[i] && r1[j] == r0[j]);
                        } else if i < r0.len() {
                            assert(r1[i] == r0[i]);
                            assert(r0.contains(r0[i]));
                        } else if j < r0.len() {
                            assert(r1[j] == r0[j]);
                            assert(r0.contains(r0[j]));
                        }
                    }
                }
            lemma_bounded_len(r1, s.len() as int);
        }
        let is_collapsed = ids_have(&self.tree_collapsed, reqs[idx].id);
        result.push(idx);
        proof {
            assert(result@ == r0.push(idx));
            assert(result@.take(r0.len() as int) =~= r0);
            assert(result@.no_duplicates()) by {
                assert forall|i: int, j: int|
                    0 <= i < result@.len() && 0 <= j < result@.len() && i != j implies result@[i] != result@[j] by {
                    if i == r0.len() as int && j < r0.len() {
                        assert(r0.contains(r0[j]));
                    } else if j == r0.len() as int && i < r0.len() {
                        assert(r0.contains(r0[i]));
                    }
                }
            }
            assert(result@[r0.len() as int] == idx);
            let p0 = seq![idx];
            assert(tree_path(*self, s, k, down, p0, r0));
        }
        let ghost seen0 = r0.push(idx);
        if !is_collapsed {
            let next = self.next_positions(reqs, idx, outgoing_rel_type, down);
            let mut m: usize = 0;
            proof {
                assert(next@.take(0) =~= Seq::<usize>::empty());
                assert(result@ =~= seen0 + walk_all(*self, s, k, down, next@.take(0), seen0));
            }
            while m < next.len()
                invariant
                    s == reqs@,
                    k == outgoing_rel_type@,
                    r0 == old(result)@,
                    seen0 == r0.push(idx),
                    next@ == next_of(*self, s, k, down, idx),
                    result@ == seen0 + walk_all(*self, s, k, down, next@.take(m as int), seen0),
                    idx < s.len(),
                    !r0.contains(idx),
                    !collapsed_at(*self, s, idx as int),
                    forall|t: int|
                        0 <= t < next@.len() ==> (#[trigger] next@[t]) < s.len() && tree_next(
                            *self,
                            s,
                            k,
                            down,
                            idx as int,
                            next@[t] as int,
                        ),
                    m <= next@.len(),
                    result@.len() >= r0.len() + 1,
                    result@.take(r0.len() as int) == r0,
                    result@[r0.len() as int] == idx,
                    result@.no_duplicates(),
                    forall|t: int| 0 <= t < result@.len() ==> #[trigger] result@[t] < s.len(),
                    forall|t: int| 0 <= t < m ==> result@.contains(#[trigger] next@[t]),
                    forall|j: usize|
                        result@.contains(j) && !r0.contains(j) ==> shown_below(*self, s, k, down, idx, j, r0),
                    forall|j: usize, b: int|
                        result@.contains(j) && !r0.contains(j) && j != idx && !collapsed_at(*self, s, j as int)
                            && #[trigger] tree_next(*self, s, k, down, j as int, b) ==> result@.contains(b as usize),
                decreases next@.len() - m,
            {
                let c = next[m];
                let ghost before = result@;
                proof {
                    lemma_bounded_len(before, s.len() as int);
                }
                self.collect_tree_indices(reqs, c, outgoing_rel_type, down, result);
                proof {
                    let wm = walk_all(*self, s, k, down, next@.take(m as int), seen0);
                    lemma_walk_all_snoc(*self, s, k, down, next@.take(m as int), c, seen0);
                    assert(next@.take(m as int + 1) =~= next@.take(m as int).push(c));
                    assert(result@ =~= seen0 + walk_all(*self, s, k, down, next@.take(m as int + 1), seen0));
                    assert forall|x: usize| before.contains(x) implies result@.contains(x) by {
                        let w = choose|w: int| 0 <= w < before.len() && before[w] == x;
                        assert(result@.take(before.len() as int)[w] == x);
                    }
                    assert(result@.take(r0.len() as int) =~= r0) by {
                        assert forall|w: int| 0 <= w < r0.len() implies result@[w] == r0[w] by {
                            assert(before[w] == r0[w]);
                            assert(result@.take(before.len() as int)[w] == before[w]);
                        }
                    }
                    assert(result@[r0.len() as int] == idx) by {
                        assert(result@.take(before.len() as int)[r0.len() as int] == before[r0.len() as int]);
                    }
                    assert forall|x: usize| r0.contains(x) implies before.contains(x) by {
                        let w = choose|w: int| 0 <= w < r0.len() && r0[w] == x;
                        assert(before[w] == x);
                    }
                    assert forall|j: usize| result@.contains(j) && !r0.contains(j) implies shown_below(
                        *self,
                        s,
                        k,
                        down,
                        idx,
                        j,
                        r0,
                    ) by {
                        if !before.contains(j) {
                            let p = choose|p: Seq<usize>| #[trigger] tree_path(*self, s, k, down, p, before) && p[0] == c
                                && p.last() == j;
                            lemma_path_prepend(*self, s, k, down, idx, p, r0, before);
                            assert(tree_path(*self, s, k, down, seq![idx] + p, r0));
                        }
                    }
                    assert forall|j: usize, b: int|
                        result@.contains(j) && !r0.contains(j) && j != idx && !collapsed_at(*self, s, j as int)
                            && #[trigger] tree_next(*self, s, k, down, j as int, b) implies result@.contains(
                        b as usize,
                    ) by {
                        if before.contains(j) {
                            assert(before.contains(b as usize));
                        }
                    }
                    assert forall|t: int| 0 <= t < m + 1 implies result@.contains(#[trigger] next@[t]) by {
                        if t < m {
                            assert(before.contains(next@[t]));
                        }
                    }
                }
                m = m + 1;
            }
            proof {
                assert(next@.take(next@.len() as int) =~= next@);
                assert(result@ =~= r0 + walk(*self, s, k, down, idx, r0));
                assert forall|j: usize, b: int|
                    result@.contains(j) && !r0.contains(j) && !collapsed_at(*self, s, j as int) && #[trigger] tree_next(
                        *self,
                        s,
                        k,
                        down,
                        j as int,
                        b,
                    ) implies result@.contains(b as usize) by {
                    if j == idx {
                        assert(next@.contains(b as usize));
                        let t = choose|t: int| 0 <= t < next@.len() && next@[t] == b as usize;
                        assert(result@.contains(next@[t]));
                    }
                }
            }
        }
    }


    /// Expands or collapses the selected requirement's node: in a tree
    /// perspective, with a selection in `reqs`, the selected requirement's
    /// identifier leaves the collapsed ones when it is among them and joins
    /// them otherwise; else nothing changes.
    pub fn toggle_expanded(&mut self, reqs: &Vec<Requirement>, selected: Option<usize>)
        ensures
            ({
                let acts = old(self).perspective != Perspective::Flat && selected is Some && selected->0 < reqs@.len();
                &&& !acts ==> *final(self) == *old(self)
                &&& acts ==> forall|x: u128| #[trigger] final(self).tree_collapsed@.contains(x) <==> if x
                    == reqs@[selected->0 as int].id {
                    !old(self).tree_collapsed@.contains(x)
                } else {
                    old(self).tree_collapsed@.contains(x)
                }
                &&& *final(self) == (ListFilters { tree_collapsed: final(self).tree_collapsed, ..*old(self) })
            }),
    {
        if self.perspective == Perspective::Flat {
            return;
        }
        let idx = match selected {
            Some(i) => i,
            None => {
                return;
            },
        };
        if idx >= reqs.len() {
            return;
        }
        let id = reqs[idx].id;
        if ids_have(&self.tree_collapsed, id) {
            let mut kept: Vec<u128> = Vec::new();
            let mut i: usize = 0;
            while i < self.tree_collapsed.len()
                invariant
                    i <= self.tree_collapsed@.len(),
                    self.tree_collapsed@ == old(self).tree_collapsed@,
                    forall|x: u128| #[trigger] kept@.contains(x) <==> (x != id && exists|j: int|
                        0 <= j < i && self.tree_collapsed@[j] == x),
                decreases self.tree_collapsed.len() - i,
            {
                let x = self.tree_collapsed[i];
                let ghost before = kept@;
                if x != id {
                    kept.push(x);
                }
                proof {
                    assert forall|y: u128| #[trigger] kept@.contains(y) <==> (y != id && exists|j: int|
                        0 <= j < i + 1 && self.tree_collapsed@[j] == y) by {
                        if kept@.contains(y) && !before.contains(y) {
                            assert(y == x);
                            assert(self.tree_collapsed@[i as int] == y);
                        }
                        if y != id && exists|j: int| 0 <= j < i + 1 && self.tree_collapsed@[j] == y {
                            let j = choose|j: int| 0 <= j < i + 1 && self.tree_collapsed@[j] == y;
                            if j == i {
                                assert(kept@[kept@.len() - 1] == y);
                            } else {
                                assert(before.contains(y));
                                let k = choose|k: int| 0 <= k < before.len() && before[k] == y;
                                assert(kept@[k] == y);
                            }
                        }
                        if before.contains(y) {
                            let k = choose|k: int| 0 <= k < before.len() && before[k] == y;
                            assert(kept@[k] == y);
                        }
                    }
                }
                i = i + 1;
            }
            proof {
                assert forall|x: u128| #[trigger] kept@.contains(x) <==> if x == id {
                    !old(self).tree_collapsed@.contains(x)
                } else {
                    old(self).tree_collapsed@.contains(x)
                } by {
                    if x != id && old(self).tree_collapsed@.contains(x) {
                        let j = choose|j: int| 0 <= j < old(self).tree_collapsed@.len() && old(self).tree_collapsed@[j] == x;
                        assert(self.tree_collapsed@[j] == x);
                    }
                }
            }
            self.tree_collapsed = kept;
        } else {
            let ghost before = self.tree_collapsed@;
            self.tree_collapsed.push(id);
            proof {
                assert forall|x: u128| #[trigger] self.tree_collapsed@.contains(x) <==> if x == id {
                    !old(self).tree_collapsed@.contains(x)
                } else {
                    old(self).tree_collapsed@.contains(x)
                } by {
                    if x == id {
                        assert(self.tree_collapsed@[before.len() as int] == id);
                    } else if self.tree_collapsed@.contains(x) {
                        let j = choose|j: int| 0 <= j < self.tree_collapsed@.len() && self.tree_collapsed@[j] == x;
                        assert(before[j] == x);
                    } else if before.contains(x) {
                        let j = choose|j: int| 0 <= j < before.len() && before[j] == x;
                        assert(self.tree_collapsed@[j] == x);
                    }
                }
            }
        }
    }

    /// The positions of the requirements the list shows, in the order it
    /// shows them. The flat list: those that pass the root filters, in
    /// storage order. A tree perspective: top-down, walked from the
    /// requirements with no outgoing relationship of its kind, following
    /// the requirements that point to them; bottom-up, walked from the roots,
    /// following their children; each requirement once, collapsed nodes not
    /// expanded.
    pub fn get_filtered_indices(&self, reqs: &Vec<Requirement>) -> (r: Vec<usize>)
        ensures
            self.perspective == Perspective::Flat ==> r@ == positions_where(
                reqs@.len() as int,
                |i: int| passes(*self, reqs@[i], true),
            ),
            self.perspective != Perspective::Flat ==> {
                let k = perspective_kind(self.perspective);
                let n = reqs@.len() as int;
                let top_down = self.perspective_direction == PerspectiveDirection::TopDown;
                let starts = if top_down {
                    positions_where(n, |i: int| passes(*self, reqs@[i], true) && !has_kind(reqs@[i].relationships@, k))
                } else {
                    positions_where(n, |i: int| !targeted(reqs@, reqs@[i].id, k) && passes(*self, reqs@[i], true))
                };
                &&& r@ == walk_all(*self, reqs@, k, !top_down, starts, Seq::empty())
                &&& r@.no_duplicates()
                &&& forall|j: usize| r@.contains(j) <==> tree_shown(*self, reqs@, k, !top_down, starts, j)
            },
    {
        let ghost s = reqs@;
        let n = reqs.len();
        let outgoing = match self.perspective.relationship_types() {
            Some((out, _)) => out,
            None => {
                let ghost p = |i: int| passes(*self, reqs@[i], true);
                let mut r: Vec<usize> = Vec::new();
                let mut i: usize = 0;
                while i < reqs.len()
                    invariant
                        i <= reqs@.len(),
                        r@ == positions_where(i as int, p),
                        p == (|i: int| passes(*self, reqs@[i], true)),
                    decreases reqs.len() - i,
                {
                    if self.passes_filters(&reqs[i], true) {
                        r.push(i);
                    }
                    i = i + 1;
                }
                return r;
            },
        };
        let ghost k = outgoing@;
        let down = match self.perspective_direction {
            PerspectiveDirection::TopDown => false,
            PerspectiveDirection::BottomUp => true,
        };
        let starts = if down {
            self.find_tree_roots(reqs, &outgoing)
        } else {
            self.find_tree_leaves(reqs, &outgoing)
        };
        proof {
            assert(k == perspective_kind(self.perspective));
            let p1 = |i: int| passes(*self, reqs@[i], true) && !has_kind(reqs@[i].relationships@, k);
            let p2 = |i: int| !targeted(reqs@, reqs@[i].id, k) && passes(*self, reqs@[i], true);
            assert(s.len() == n);
            lemma_positions_where(n as int, p1);
            lemma_positions_where(n as int, p2);
        }
        let mut result: Vec<usize> = Vec::new();
        let mut i: usize = 0;
        proof {
            assert(starts@.take(0) =~= Seq::<usize>::empty());
        }
        while i < starts.len()
            invariant
                s == reqs@,
                k == outgoing@,
                forall|t: int| 0 <= t < starts@.len() ==> #[trigger] starts@[t] < s.len(),
                i <= starts@.len(),
                result@.no_duplicates(),
                forall|t: int| 0 <= t < result@.len() ==> #[trigger] result@[t] < s.len(),
                closed_below(*self, s, k, down, result@),
                forall|t: int| 0 <= t < i ==> result@.contains(#[trigger] starts@[t]),
                forall|j: usize| result@.contains(j) ==> tree_shown(*self, s, k, down, starts@, j),
                result@ == walk_all(*self, s, k, down, starts@.take(i as int), Seq::empty()),
            decreases starts@.len() - i,
        {
            let ghost before = result@;
            let a = starts[i];
            self.collect_tree_indices(reqs, a, &outgoing, down, &mut result);
            proof {
                lemma_walk_all_snoc(*self, s, k, down, starts@.take(i as int), a, Seq::empty());
                assert(Seq::<usize>::empty() + before =~= before);
                assert(starts@.take(i as int + 1) =~= starts@.take(i as int).push(a));
                assert forall|x: usize| before.contains(x) implies result@.contains(x) by {
                    let w = choose|w: int| 0 <= w < before.len() && before[w] == x;
                    assert(result@.take(before.len() as int)[w] == x);
                }
                assert forall|j: usize, b: int|
                    result@.contains(j) && !collapsed_at(*self, s, j as int) && #[trigger] tree_next(
                        *self,
                        s,
                        k,
                        down,
                        j as int,
                        b,
                    ) implies result@.contains(b as usize) by {
                    if before.contains(j) {
                        assert(before.contains(b as usize));
                    }
                }
                assert forall|j: usize| result@.contains(j) implies tree_shown(*self, s, k, down, starts@, j) by {
                    if !before.contains(j) {
                        let p = choose|p: Seq<usize>| #[trigger] tree_path(*self, s, k, down, p, before) && p[0] == a
                            && p.last() == j;
                        lemma_path_any_seen(*self, s, k, down, p, before);
                        assert(starts@.contains(a)) by {
                            assert(starts@[i as int] == a);
                        }
                    }
                }
                assert forall|t: int| 0 <= t < i + 1 implies result@.contains(#[trigger] starts@[t]) by {
                    if t < i {
                        assert(before.contains(starts@[t]));
                    }
                }
            }
            i = i + 1;
        }
        proof {
            assert forall|j: usize| tree_shown(*self, s, k, down, starts@, j) implies result@.contains(j) by {
                let a = choose|a: usize| #[trigger] starts@.contains(a) && shown_below(*self, s, k, down, a, j, Seq::empty());
                let p = choose|p: Seq<usize>| #[trigger] tree_path(*self, s, k, down, p, Seq::empty()) && p[0] == a
                    && p.last() == j;
                let t = choose|t: int| 0 <= t < starts@.len() && starts@[t] == a;
                assert(result@.contains(starts@[t]));
                lemma_closed_holds_path(*self, s, k, down, result@, p, Seq::empty());
            }
            assert(starts@.take(starts@.len() as int) =~= starts@);
        }
        result
    }

}

} // verus!
