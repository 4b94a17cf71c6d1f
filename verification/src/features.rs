//! Feature names as requirements carry them: listing them in order, renaming
//! one, and numbering those without a number (`N-name`).
use vstd::prelude::*;
use vstd::string::*;
use crate::order::{text_le, text_le_exec, lemma_text_order_total, text_order};
use crate::requirement::Requirement;
use crate::store::RequirementsStore;
use crate::text::{
    before_first, contains_char, decimal, decimal_string, has_char, lemma_before_first_joined, lemma_parse_decimal,
    owned, parse_u32, parse_u32_str, split_first, str_eq, vec_contains_str, views,
};

verus! {

/// The number a feature name starts with: the part before its first `-`,
/// when it has one and that part parses as a `u32`.
pub open spec fn feature_number(name: Seq<char>) -> Option<u32> {
    if has_char(name, '-') {
        parse_u32(before_first(name, '-'))
    } else {
        None
    }
}

/// Whether feature name `a` may stand before `b`: by their numbers when both
/// have one, else by their characters.
pub open spec fn feature_le(a: Seq<char>, b: Seq<char>) -> bool {
    match (feature_number(a), feature_number(b)) {
        (Some(x), Some(y)) => x <= y,
        _ => text_le(a, b),
    }
}

/// The distinct features of the requirements `s`, in the order they first
/// occur.
pub open spec fn distinct_features(s: Seq<Requirement>) -> Seq<Seq<char>>
    decreases s.len(),
{
    if s.len() == 0 {
        Seq::empty()
    } else {
        let t = distinct_features(s.drop_last());
        if t.contains(s.last().feature@) {
            t
        } else {
            t.push(s.last().feature@)
        }
    }
}

/// `x` inserted into `t` after the last entry that may stand before it
/// (at the front when there is none).
pub open spec fn insert_feature(t: Seq<Seq<char>>, x: Seq<char>) -> Seq<Seq<char>>
    decreases t.len(),
{
    if t.len() == 0 || feature_le(t.last(), x) {
        t.push(x)
    } else {
        insert_feature(t.drop_last(), x).push(t.last())
    }
}

/// The names `s` sorted by `feature_le`, each inserted in turn after the
/// names that may stand before it: a stable sort.
pub open spec fn sort_features(s: Seq<Seq<char>>) -> Seq<Seq<char>>
    decreases s.len(),
{
    if s.len() == 0 {
        s
    } else {
        insert_feature(sort_features(s.drop_last()), s.last())
    }
}

/// Whether each name of `t` may stand before the next.
pub open spec fn adjacent_in_order(t: Seq<Seq<char>>) -> bool {
    forall|i: int| 0 <= i < t.len() - 1 ==> feature_le(#[trigger] t[i], t[i + 1])
}

/// Whether `feature_le` is transitive on the names of `t`.
pub open spec fn feature_le_transitive_on(t: Seq<Seq<char>>) -> bool {
    forall|a: Seq<char>, b: Seq<char>, c: Seq<char>|
        t.contains(a) && t.contains(b) && t.contains(c) && #[trigger] feature_le(a, b) && #[trigger] feature_le(
            b,
            c,
        ) ==> feature_le(a, c)
}

proof fn lemma_feature_le_total(a: Seq<char>, b: Seq<char>)
    ensures
        feature_le(a, b) || feature_le(b, a),
{
    lemma_text_order_total();
    assert(text_order()(a, b) || text_order()(b, a));
}

proof fn lemma_insert_feature_at(t: Seq<Seq<char>>, x: Seq<char>, k: int)
    requires
        0 <= k <= t.len(),
        k == 0 || feature_le(t[k - 1], x),
        forall|j: int| k <= j < t.len() ==> !feature_le(#[trigger] t[j], x),
    ensures
        insert_feature(t, x) == t.insert(k, x),
    decreases t.len(),
{
    if t.len() == 0 {
        assert(t.insert(k, x) =~= t.push(x));
    } else if feature_le(t.last(), x) {
        assert(t.insert(k, x) =~= t.push(x));
    } else {
        assert(!feature_le(t[t.len() - 1], x));
        lemma_insert_feature_at(t.drop_last(), x, k);
        assert(t.drop_last().insert(k, x).push(t.last()) =~= t.insert(k, x));
    }
}

proof fn lemma_insert_feature_facts(t: Seq<Seq<char>>, x: Seq<char>)
    requires
        adjacent_in_order(t),
    ensures
        adjacent_in_order(insert_feature(t, x)),
        insert_feature(t, x).to_multiset() == t.to_multiset().insert(x),
        insert_feature(t, x).len() == t.len() + 1,
    decreases t.len(),
{
    broadcast use vstd::seq_lib::group_to_multiset_ensures;
    if t.len() == 0 || feature_le(t.last(), x) {
        let u = t.push(x);
        assert forall|i: int| 0 <= i < u.len() - 1 implies feature_le(#[trigger] u[i], u[i + 1]) by {
            if i < t.len() - 1 {
                assert(u[i] == t[i] && u[i + 1] == t[i + 1]);
            }
        }
    } else {
        let d = t.drop_last();
        assert forall|i: int| 0 <= i < d.len() - 1 implies feature_le(#[trigger] d[i], d[i + 1]) by {
            assert(d[i] == t[i] && d[i + 1] == t[i + 1]);
        }
        lemma_insert_feature_facts(d, x);
        let w = insert_feature(d, x);
        let u = w.push(t.last());
        lemma_feature_le_total(t.last(), x);
        assert(feature_le(x, t.last()));
        // the entry just before t.last() in u is x or t[len - 2]
        assert forall|i: int| 0 <= i < u.len() - 1 implies feature_le(#[trigger] u[i], u[i + 1]) by {
            if i == u.len() - 2 {
                assert(u[i + 1] == t.last());
                if w.last() == x {
                } else {
                    // w ends with d.last() = t[len - 2]
                    lemma_insert_feature_last(d, x);
                    assert(w.last() == t[t.len() - 2]);
                    assert(feature_le(t[t.len() - 2], t[t.len() - 1]));
                }
            } else {
                assert(u[i] == w[i] && u[i + 1] == w[i + 1]);
            }
        }
        assert(t =~= d.push(t.last()));
    }
}

proof fn lemma_insert_feature_last(t: Seq<Seq<char>>, x: Seq<char>)
    ensures
        insert_feature(t, x).last() == x || (t.len() > 0 && insert_feature(t, x).last() == t.last()),
    decreases t.len(),
{
}

proof fn lemma_sort_features_facts(s: Seq<Seq<char>>)
    ensures
        adjacent_in_order(sort_features(s)),
        sort_features(s).to_multiset() == s.to_multiset(),
        sort_features(s).len() == s.len(),
    decreases s.len(),
{
    broadcast use vstd::seq_lib::group_to_multiset_ensures;
    if s.len() > 0 {
        lemma_sort_features_facts(s.drop_last());
        lemma_insert_feature_facts(sort_features(s.drop_last()), s.last());
        assert(s =~= s.drop_last().push(s.last()));
    }
}

/// Names in adjacent order, on which the order is transitive, are in order
/// throughout.
proof fn lemma_adjacent_to_sorted(t: Seq<Seq<char>>, i: int, j: int)
    requires
        adjacent_in_order(t),
        feature_le_transitive_on(t),
        0 <= i <= j < t.len(),
    ensures
        feature_le(t[i], t[j]),
    decreases j - i,
{
    if i == j {
        lemma_feature_le_total(t[i], t[i]);
    } else {
        lemma_adjacent_to_sorted(t, i, j - 1);
        assert(feature_le(t[j - 1], t[j]));
        assert(t.contains(t[i]) && t.contains(t[j - 1]) && t.contains(t[j]));
    }
}

/// The number a feature name starts with, if any.
pub fn leading_number(name: &str) -> (r: Option<u32>)
    ensures
        r == feature_number(name@),
{
    if contains_char(name, '-') {
        let head = split_first(name, '-');
        parse_u32_str(head.as_str())
    } else {
        None
    }
}

/// Whether feature name `a` may stand before `b`.
pub fn feature_le_exec(a: &str, b: &str) -> (r: bool)
    ensures
        r == feature_le(a@, b@),
{
    match (leading_number(a), leading_number(b)) {
        (Some(x), Some(y)) => x <= y,
        _ => text_le_exec(a, b),
    }
}

impl RequirementsStore {
    /// The distinct features of the requirements, sorted by their numbers
    /// where both have one and by their characters otherwise, names that
    /// compare equal keeping the order in which they first occur.
    pub fn get_feature_names(&self) -> (r: Vec<String>)
        ensures
            views(r@) == sort_features(distinct_features(self.requirements@)),
            views(r@).to_multiset() == distinct_features(self.requirements@).to_multiset(),
            adjacent_in_order(views(r@)),
            feature_le_transitive_on(views(r@)) ==> forall|i: int, j: int|
                0 <= i <= j < r@.len() ==> feature_le(#[trigger] views(r@)[i], #[trigger] views(r@)[j]),
    {
        let mut names: Vec<String> = Vec::new();
        let mut i: usize = 0;
        while i < self.requirements.len()
            invariant
                i <= self.requirements@.len(),
                views(names@) == distinct_features(self.requirements@.take(i as int)),
            decreases self.requirements.len() - i,
        {
            proof {
                let t = self.requirements@.take(i as int + 1);
                assert(t.drop_last() =~= self.requirements@.take(i as int));
                assert(t.last() == self.requirements@[i as int]);
            }
            let f = &self.requirements[i].feature;
            if !vec_contains_str(&names, f.as_str()) {
                let ghost before = views(names@);
                names.push(f.clone());
                proof {
                    assert(!before.contains(f@)) by {
                        if before.contains(f@) {
                            let k = choose|k: int| 0 <= k < before.len() && before[k] == f@;
                            assert(names@[k]@ == f@);
                        }
                    }
                    assert(views(names@) =~= before.push(f@));
                }
            } else {
                proof {
                    let k = choose|k: int| 0 <= k < names@.len() && (#[trigger] names@[k])@ == f@;
                    assert(views(names@)[k] == f@);
                }
            }
            i = i + 1;
        }
        proof {
            assert(self.requirements@.take(self.requirements@.len() as int) =~= self.requirements@);
        }
        let ghost all = views(names@);
        let mut out: Vec<String> = Vec::new();
        let mut j: usize = 0;
        while j < names.len()
            invariant
                j <= names@.len(),
                all == views(names@),
                views(out@) == sort_features(all.take(j as int)),
            decreases names.len() - j,
        {
            proof {
                assert(all.take(j as int + 1).drop_last() =~= all.take(j as int));
            }
            let x = names[j].clone();
            let mut k: usize = out.len();
            while k > 0 && !feature_le_exec(out[k - 1].as_str(), x.as_str())
                invariant
                    k <= out@.len(),
                    forall|m: int| k <= m < out@.len() ==> !feature_le(#[trigger] out@[m]@, x@),
                decreases k,
            {
                k = k - 1;
            }
            let ghost before_vec = out@;
            let ghost before = views(out@);
            out.insert(k, x);
            proof {
                assert forall|m: int| k <= m < before.len() implies !feature_le(#[trigger] before[m], x@) by {
                    assert(before[m] == before_vec[m]@);
                }
                lemma_insert_feature_at(before, x@, k as int);
                assert(views(out@) =~= before.insert(k as int, x@));
            }
            j = j + 1;
        }
        proof {
            assert(all.take(all.len() as int) =~= all);
            lemma_sort_features_facts(all);
            if feature_le_transitive_on(views(out@)) {
                assert forall|i: int, j: int| 0 <= i <= j < out@.len() implies feature_le(
                    #[trigger] views(out@)[i],
                    #[trigger] views(out@)[j],
                ) by {
                    lemma_adjacent_to_sorted(views(out@), i, j);
                }
            }
        }
        out
    }
}

/// The distinct features of the requirements `s` that carry no number, in
/// the order they first occur.
pub open spec fn unnumbered_features(s: Seq<Requirement>) -> Seq<Seq<char>>
    decreases s.len(),
{
    if s.len() == 0 {
        Seq::empty()
    } else {
        let t = unnumbered_features(s.drop_last());
        let f = s.last().feature@;
        if feature_number(f) is Some || t.contains(f) {
            t
        } else {
            t.push(f)
        }
    }
}

/// The feature name `n-name`.
pub open spec fn numbered_name(n: nat, name: Seq<char>) -> Seq<char> {
    decimal(n) + "-"@ + name
}

/// A name `n-name` carries the number `n`.
proof fn lemma_numbered_name_number(n: nat, name: Seq<char>)
    requires
        n <= u32::MAX,
    ensures
        feature_number(numbered_name(n, name)) == Some(n as u32),
{
    reveal_strlit("-");
    lemma_parse_decimal(n);
    assert(decimal(n) + "-"@ + name =~= decimal(n) + seq!['-'] + name);
    lemma_before_first_joined(decimal(n), '-', name);
}

/// Requirement `b` is `a` with its feature renamed to `f`.
pub open spec fn renamed(a: Requirement, b: Requirement, f: Seq<char>) -> bool {
    b == Requirement { feature: b.feature, ..a } && b.feature@ == f
}

proof fn lemma_unnumbered_facts(s: Seq<Requirement>)
    ensures
        unnumbered_features(s).no_duplicates(),
        forall|i: int| 0 <= i < unnumbered_features(s).len() ==> feature_number(#[trigger] unnumbered_features(s)[i]) is None,
        forall|k: int| 0 <= k < s.len() && feature_number((#[trigger] s[k]).feature@) is None ==> unnumbered_features(s).contains(s[k].feature@),
    decreases s.len(),
{
    if s.len() > 0 {
        let d = s.drop_last();
        lemma_unnumbered_facts(d);
        let t = unnumbered_features(d);
        let u = unnumbered_features(s);
        assert forall|k: int| 0 <= k < s.len() && feature_number((#[trigger] s[k]).feature@) is None implies u.contains(s[k].feature@) by {
            if k < d.len() {
                assert(s[k] == d[k]);
                assert(t.contains(d[k].feature@));
                let i = choose|i: int| 0 <= i < t.len() && t[i] == d[k].feature@;
                assert(u[i] == t[i]);
            } else {
                if !t.contains(s.last().feature@) {
                    assert(u[t.len() as int] == s.last().feature@);
                }
            }
        }
    }
}

impl RequirementsStore {
    /// Gives every requirement of feature `old_name` the feature `new_name`.
    pub fn update_feature_name(&mut self, old_name: &str, new_name: &str)
        ensures
            final(self).requirements@.len() == old(self).requirements@.len(),
            forall|k: int|
                0 <= k < old(self).requirements@.len() ==> if old(self).requirements@[k].feature@ == old_name@ {
                    renamed(old(self).requirements@[k], #[trigger] final(self).requirements@[k], new_name@)
                } else {
                    final(self).requirements@[k] == old(self).requirements@[k]
                },
            old_name@ != new_name@ ==> forall|k: int|
                0 <= k < final(self).requirements@.len() ==> (#[trigger] final(self).requirements@[k]).feature@
                    != old_name@,
            *final(self) == (RequirementsStore { requirements: final(self).requirements, ..*old(self) }),
    {
        let mut i: usize = 0;
        while i < self.requirements.len()
            invariant
                i <= self.requirements@.len(),
                self.requirements@.len() == old(self).requirements@.len(),
                forall|k: int|
                    0 <= k < i ==> if old(self).requirements@[k].feature@ == old_name@ {
                        renamed(old(self).requirements@[k], #[trigger] self.requirements@[k], new_name@)
                    } else {
                        self.requirements@[k] == old(self).requirements@[k]
                    },
                forall|k: int| i <= k < self.requirements@.len() ==> #[trigger] self.requirements@[k] == old(self).requirements@[k],
                *self == (RequirementsStore { requirements: self.requirements, ..*old(self) }),
            decreases self.requirements.len() - i,
        {
            if str_eq(self.requirements[i].feature.as_str(), old_name) {
                let ghost before = self.requirements@;
                let req = self.requirements.remove(i);
                self.requirements.insert(i, Requirement { feature: owned(new_name), ..req });
                proof {
                    assert forall|k: int| 0 <= k < self.requirements@.len() && k != i implies #[trigger] self.requirements@[k] == before[k] by {
                        if k < i {
                        } else {
                        }
                    }
                }
            }
            i = i + 1;
        }
    }

    /// Numbers the features that carry no number: each distinct one, in the
    /// order it first occurs, takes the next feature number `n` and becomes
    /// `n-name` in every requirement.
    pub fn migrate_features(&mut self)
        requires
            old(self).next_feature_number + unnumbered_features(old(self).requirements@).len() <= u32::MAX,
        ensures
            ({
                let u = unnumbered_features(old(self).requirements@);
                let start = old(self).next_feature_number as nat;
                &&& final(self).next_feature_number == start + u.len()
                &&& final(self).requirements@.len() == old(self).requirements@.len()
                &&& forall|k: int|
                    0 <= k < old(self).requirements@.len() && feature_number(
                        old(self).requirements@[k].feature@,
                    ) is Some ==> #[trigger] final(self).requirements@[k] == old(self).requirements@[k]
                &&& forall|k: int, i: int|
                    0 <= k < old(self).requirements@.len() && 0 <= i < u.len() && u[i]
                        == old(self).requirements@[k].feature@ ==> renamed(
                        old(self).requirements@[k],
                        #[trigger] final(self).requirements@[k],
                        numbered_name((start + i) as nat, #[trigger] u[i]),
                    )
                &&& forall|k: int|
                    0 <= k < final(self).requirements@.len() ==> feature_number(
                        (#[trigger] final(self).requirements@[k]).feature@,
                    ) is Some
            }),
            *final(self) == (RequirementsStore {
                requirements: final(self).requirements,
                next_feature_number: final(self).next_feature_number,
                ..*old(self)
            }),
    {
        let mut unique: Vec<String> = Vec::new();
        let mut i: usize = 0;
        while i < self.requirements.len()
            invariant
                i <= self.requirements@.len(),
                views(unique@) == unnumbered_features(self.requirements@.take(i as int)),
            decreases self.requirements.len() - i,
        {
            proof {
                let t = self.requirements@.take(i as int + 1);
                assert(t.drop_last() =~= self.requirements@.take(i as int));
                assert(t.last() == self.requirements@[i as int]);
            }
            let f = &self.requirements[i].feature;
            if leading_number(f.as_str()).is_none() && !vec_contains_str(&unique, f.as_str()) {
                let ghost before = views(unique@);
                unique.push(f.clone());
                proof {
                    assert(!before.contains(f@)) by {
                        if before.contains(f@) {
                            let k = choose|k: int| 0 <= k < before.len() && before[k] == f@;
                            assert(unique@[k]@ == f@);
                        }
                    }
                    assert(views(unique@) =~= before.push(f@));
                }
            } else {
                proof {
                    if feature_number(f@) is None {
                        let k = choose|k: int| 0 <= k < unique@.len() && (#[trigger] unique@[k])@ == f@;
                        assert(views(unique@)[k] == f@);
                    }
                }
            }
            i = i + 1;
        }
        proof {
            assert(self.requirements@.take(self.requirements@.len() as int) =~= self.requirements@);
            lemma_unnumbered_facts(self.requirements@);
        }
        let ghost u = views(unique@);
        let ghost orig = self.requirements@;
        let ghost start = self.next_feature_number as nat;
        let mut j: usize = 0;
        while j < unique.len()
            invariant
                j <= unique@.len(),
                u == views(unique@),
                u == unnumbered_features(orig),
                u.no_duplicates(),
                forall|a: int| 0 <= a < u.len() ==> feature_number(#[trigger] u[a]) is None,
                start + u.len() <= u32::MAX,
                self.next_feature_number == start + j,
                self.requirements@.len() == orig.len(),
                forall|k: int|
                    0 <= k < orig.len() && feature_number(orig[k].feature@) is Some ==> #[trigger] self.requirements@[k]
                        == orig[k],
                forall|k: int, a: int|
                    0 <= k < orig.len() && 0 <= a < u.len() && u[a] == orig[k].feature@ ==> if a < j {
                        renamed(orig[k], #[trigger] self.requirements@[k], numbered_name((start + a) as nat, #[trigger] u[a]))
                    } else {
                        self.requirements@[k] == orig[k]
                    },
                forall|k: int| 0 <= k < orig.len() && feature_number(orig[k].feature@) is None ==> u.contains(#[trigger] orig[k].feature@),
                *self == (RequirementsStore {
                    requirements: self.requirements,
                    next_feature_number: self.next_feature_number,
                    ..*old(self)
                }),
                orig == old(self).requirements@,
                start == old(self).next_feature_number,
            decreases unique.len() - j,
        {
            let number = self.get_next_feature_number();
            let mut new_name = decimal_string(number as u64);
            new_name.append("-");
            new_name.append(unique[j].as_str());
            let ghost before = self.requirements@;
            self.update_feature_name(unique[j].as_str(), new_name.as_str());
            proof {
                let name = numbered_name((start + j) as nat, u[j as int]);
                assert(new_name@ == name);
                assert(u[j as int] == unique@[j as int]@);
                assert forall|k: int, a: int|
                    0 <= k < orig.len() && 0 <= a < u.len() && u[a] == orig[k].feature@ implies if a < j + 1 {
                        renamed(orig[k], #[trigger] self.requirements@[k], numbered_name((start + a) as nat, #[trigger] u[a]))
                    } else {
                        self.requirements@[k] == orig[k]
                    } by {
                    if a < j {
                        lemma_numbered_name_number((start + a) as nat, u[a]);
                        assert(before[k].feature@ == numbered_name((start + a) as nat, u[a]));
                        assert(before[k].feature@ != u[j as int]);
                    } else if a == j {
                        assert(before[k] == orig[k]);
                    } else {
                        assert(before[k] == orig[k]);
                        assert(u[a] != u[j as int]);
                    }
                }
                assert forall|k: int|
                    0 <= k < orig.len() && feature_number(orig[k].feature@) is Some implies #[trigger] self.requirements@[k]
                        == orig[k] by {
                    assert(before[k] == orig[k]);
                    assert(orig[k].feature@ != u[j as int]);
                }
            }
            j = j + 1;
        }
        proof {
            assert forall|k: int| 0 <= k < self.requirements@.len() implies feature_number(
                (#[trigger] self.requirements@[k]).feature@,
            ) is Some by {
                if feature_number(orig[k].feature@) is None {
                    assert(u.contains(orig[k].feature@));
                    let a = choose|a: int| 0 <= a < u.len() && u[a] == orig[k].feature@;
                    lemma_numbered_name_number((start + a) as nat, u[a]);
                }
            }
            assert forall|k: int, i: int|
                0 <= k < orig.len() && 0 <= i < u.len() && u[i] == orig[k].feature@ implies renamed(
                    orig[k],
                    #[trigger] self.requirements@[k],
                    numbered_name((start + i) as nat, #[trigger] u[i]),
                ) by {
            }
        }
    }
}

} // verus!
