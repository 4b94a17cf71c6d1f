//! The order of strings: lexicographic by characters, which is the order that
//! `String`'s `Ord` gives (comparing UTF-8 bytes orders as comparing code
//! points); and sorting vectors of strings by it.
use vstd::prelude::*;
use vstd::relations::{sorted_by, total_ordering};
use vstd::string::*;
use crate::text::{contains_view, vec_contains_str, views};

verus! {

/// Whether `a` comes before `b`, or equals it, character by character.
pub open spec fn text_le(a: Seq<char>, b: Seq<char>) -> bool
    decreases a.len(),
{
    if a.len() == 0 {
        true
    } else if b.len() == 0 {
        false
    } else if a[0] != b[0] {
        (a[0] as int) < (b[0] as int)
    } else {
        text_le(a.drop_first(), b.drop_first())
    }
}

/// The order `text_le` as a relation.
pub open spec fn text_order() -> spec_fn(Seq<char>, Seq<char>) -> bool {
    |a: Seq<char>, b: Seq<char>| text_le(a, b)
}

proof fn lemma_text_le_reflexive(a: Seq<char>)
    ensures
        text_le(a, a),
    decreases a.len(),
{
    if a.len() > 0 {
        lemma_text_le_reflexive(a.drop_first());
    }
}

proof fn lemma_text_le_antisymmetric(a: Seq<char>, b: Seq<char>)
    requires
        text_le(a, b),
        text_le(b, a),
    ensures
        a == b,
    decreases a.len(),
{
    if a.len() == 0 || b.len() == 0 {
        assert(a.len() == 0 && b.len() == 0);
        assert(a =~= b);
    } else {
        assert(a[0] == b[0]);
        let (x, y) = (a.drop_first(), b.drop_first());
        assert(text_le(x, y) && text_le(y, x));
        lemma_text_le_antisymmetric(x, y);
        assert(a =~= seq![a[0]] + x);
        assert(b =~= seq![b[0]] + y);
    }
}

proof fn lemma_text_le_transitive(a: Seq<char>, b: Seq<char>, c: Seq<char>)
    requires
        text_le(a, b),
        text_le(b, c),
    ensures
        text_le(a, c),
    decreases a.len(),
{
    if a.len() > 0 && b.len() > 0 && c.len() > 0 && a[0] == b[0] && b[0] == c[0] {
        lemma_text_le_transitive(a.drop_first(), b.drop_first(), c.drop_first());
    }
}

proof fn lemma_text_le_total(a: Seq<char>, b: Seq<char>)
    ensures
        text_le(a, b) || text_le(b, a),
    decreases a.len(),
{
    if a.len() > 0 && b.len() > 0 && a[0] == b[0] {
        lemma_text_le_total(a.drop_first(), b.drop_first());
    }
}

/// The character order of strings is a total order.
pub proof fn lemma_text_order_total()
    ensures
        total_ordering(text_order()),
{
    assert forall|a: Seq<char>| #[trigger] text_order()(a, a) by {
        lemma_text_le_reflexive(a);
    }
    assert forall|a: Seq<char>, b: Seq<char>| #[trigger]
        text_order()(a, b) && #[trigger] text_order()(b, a) implies a == b by {
        lemma_text_le_antisymmetric(a, b);
    }
    assert forall|a: Seq<char>, b: Seq<char>, c: Seq<char>| #[trigger]
        text_order()(a, b) && #[trigger] text_order()(b, c) implies text_order()(a, c) by {
        lemma_text_le_transitive(a, b, c);
    }
    assert forall|a: Seq<char>, b: Seq<char>| #[trigger]
        text_order()(a, b) || #[trigger] text_order()(b, a) by {
        lemma_text_le_total(a, b);
    }
}

proof fn lemma_text_le_skip(a: Seq<char>, b: Seq<char>, i: int)
    requires
        0 <= i < a.len(),
        i < b.len(),
        a[i] == b[i],
    ensures
        text_le(a.skip(i), b.skip(i)) == text_le(a.skip(i + 1), b.skip(i + 1)),
{
    assert(a.skip(i).drop_first() =~= a.skip(i + 1));
    assert(b.skip(i).drop_first() =~= b.skip(i + 1));
}

/// Whether `a` comes before `b` or equals it, character by character.
pub fn text_le_exec(a: &str, b: &str) -> (r: bool)
    ensures
        r == text_le(a@, b@),
{
    let n = a.unicode_len();
    let m = b.unicode_len();
    let mut i: usize = 0;
    proof {
        assert(a@.skip(0) =~= a@);
        assert(b@.skip(0) =~= b@);
    }
    while i < n && i < m
        invariant
            n == a@.len(),
            m == b@.len(),
            i <= n,
            i <= m,
            text_le(a@, b@) == text_le(a@.skip(i as int), b@.skip(i as int)),
        decreases n - i,
    {
        let x = a.get_char(i);
        let y = b.get_char(i);
        if x != y {
            return (x as u32) < (y as u32);
        }
        proof {
            lemma_text_le_skip(a@, b@, i as int);
        }
        i = i + 1;
    }
    i == n
}

// ---------------------------------------------------------------------------
// Sorting
// ---------------------------------------------------------------------------

proof fn lemma_views_insert(s: Seq<String>, k: int, x: String)
    requires
        0 <= k <= s.len(),
    ensures
        views(s.insert(k, x)) == views(s).insert(k, x@),
{
    assert(views(s.insert(k, x)) =~= views(s).insert(k, x@));
}

/// The position in the sorted `v` after the entries that do not come after
/// `x`.
fn sorted_position(v: &Vec<String>, x: &str) -> (k: usize)
    requires
        sorted_by(views(v@), text_order()),
    ensures
        k <= v@.len(),
        forall|i: int| 0 <= i < k ==> text_le(#[trigger] v@[i]@, x@),
        k < v@.len() ==> text_le(x@, v@[k as int]@),
{
    let mut k: usize = 0;
    while k < v.len()
        invariant
            k <= v@.len(),
            forall|i: int| 0 <= i < k ==> text_le(#[trigger] v@[i]@, x@),
        decreases v.len() - k,
    {
        if !text_le_exec(v[k].as_str(), x) {
            proof {
                lemma_text_le_total(v@[k as int]@, x@);
            }
            return k;
        }
        k = k + 1;
    }
    k
}

/// Inserts `x` into the sorted `v` after the entries that do not come after
/// it.
fn insert_sorted(v: &mut Vec<String>, x: String) -> (k: usize)
    requires
        sorted_by(views(old(v)@), text_order()),
    ensures
        k <= old(v)@.len(),
        views(final(v)@) == views(old(v)@).insert(k as int, x@),
        sorted_by(views(final(v)@), text_order()),
        views(final(v)@).to_multiset() == views(old(v)@).to_multiset().insert(x@),
        views(final(v)@).to_set() == views(old(v)@).to_set().insert(x@),
{
    proof {
        lemma_text_order_total();
    }
    let k = sorted_position(v, x.as_str());
    let ghost before = views(v@);
    v.insert(k, x);
    proof {
        lemma_views_insert(old(v)@, k as int, x);
        let after = views(v@);
        assert(after == before.insert(k as int, x@));
        vstd::seq_lib::to_multiset_insert(before, k as int, x@);
        assert forall|i: int, j: int| 0 <= i < j < after.len() implies #[trigger] text_order()(
            after[i],
            after[j],
        ) by {
            assert(text_order()(before[0], before[0]) || true);
            if j < k {
                assert(after[i] == before[i] && after[j] == before[j]);
            } else if j == k {
                assert(after[i] == before[i]);
                assert(text_le(old(v)@[i]@, x@));
            } else if i == k {
                // x comes before v[k] and so before every later entry
                assert(after[j] == before[j - 1]);
                if j - 1 > k {
                    assert(text_order()(before[k as int], before[j - 1]));
                } else {
                    lemma_text_le_reflexive(before[k as int]);
                }
                assert(text_le(x@, old(v)@[k as int]@));
                lemma_text_le_transitive(x@, before[k as int], before[j - 1]);
            } else if i < k {
                assert(after[i] == before[i] && after[j] == before[j - 1]);
                assert(text_order()(before[i], before[j - 1]));
            } else {
                assert(after[i] == before[i - 1] && after[j] == before[j - 1]);
                assert(text_order()(before[i - 1], before[j - 1]));
            }
        }
        assert(after.to_set() =~= before.to_set().insert(x@)) by {
            assert forall|t: Seq<char>| after.contains(t) implies before.to_set().insert(x@).contains(t) by {
                let i = choose|i: int| 0 <= i < after.len() && after[i] == t;
                if i < k {
                    assert(before[i] == t);
                } else if i > k {
                    assert(before[i - 1] == t);
                }
            }
            assert forall|t: Seq<char>| before.to_set().insert(x@).contains(t) implies after.contains(t) by {
                if t == x@ {
                    assert(after[k as int] == t);
                } else {
                    let i = choose|i: int| 0 <= i < before.len() && before[i] == t;
                    if i < k {
                        assert(after[i] == t);
                    } else {
                        assert(after[i + 1] == t);
                    }
                }
            }
        }
    }
    k
}

/// Sorts `v` by the character order of its strings; equal strings are
/// indistinguishable, so the result is the one sorted arrangement of `v`.
pub fn sort_texts(v: &mut Vec<String>)
    ensures
        views(final(v)@) == views(old(v)@).sort_by(text_order()),
{
    let mut out: Vec<String> = Vec::new();
    let ghost all = views(old(v)@);
    let ghost mut k: int = 0;
    proof {
        assert(views(v@) =~= all.skip(0));
        assert(views(out@) =~= Seq::<Seq<char>>::empty());
        assert(all.take(0) =~= Seq::<Seq<char>>::empty());
    }
    while v.len() > 0
        invariant
            0 <= k <= all.len(),
            views(v@) == all.skip(k),
            sorted_by(views(out@), text_order()),
            views(out@).to_multiset() == all.take(k).to_multiset(),
        decreases v.len(),
    {
        let ghost prev = v@;
        let x = v.remove(0);
        proof {
            assert(views(prev).len() == prev.len());
            assert(k < all.len());
            assert(views(prev)[0] == prev[0]@);
            assert(all.skip(k)[0] == all[k]);
            assert(v@ =~= prev.skip(1));
            assert(views(prev.skip(1)) =~= views(prev).skip(1));
            assert(all.skip(k).skip(1) =~= all.skip(k + 1));
            assert(views(v@) =~= all.skip(k + 1));
            assert(x@ == all[k]);
            assert(all.take(k + 1) =~= all.take(k).push(all[k]));
            vstd::seq_lib::to_multiset_build(all.take(k), all[k]);
        }
        let _ = insert_sorted(&mut out, x);
        proof {
            k = k + 1;
        }
    }
    proof {
        assert(all.take(k) =~= all);
        lemma_text_order_total();
        all.lemma_sort_by_ensures(text_order());
        vstd::seq_lib::lemma_sorted_unique(views(out@), all.sort_by(text_order()), text_order());
    }
    *v = out;
}

/// Adds `x` to the strictly sorted `v` unless it is there already.
pub fn insert_sorted_unique(v: &mut Vec<String>, x: String)
    requires
        sorted_by(views(old(v)@), text_order()),
        views(old(v)@).no_duplicates(),
    ensures
        sorted_by(views(final(v)@), text_order()),
        views(final(v)@).no_duplicates(),
        views(final(v)@).to_set() == views(old(v)@).to_set().insert(x@),
{
    if vec_contains_str(v, x.as_str()) {
        proof {
            let i = choose|i: int| 0 <= i < v@.len() && (#[trigger] v@[i])@ == x@;
            assert(views(v@)[i] == x@);
            assert(views(v@).to_set() =~= views(v@).to_set().insert(x@));
        }
        return;
    }
    let ghost before = views(v@);
    let pos = insert_sorted(v, x);
    proof {
        let after = views(v@);
        assert(!before.contains(x@)) by {
            if before.contains(x@) {
                let i = choose|i: int| 0 <= i < before.len() && before[i] == x@;
                assert(old(v)@[i]@ == x@);
                assert(contains_view(old(v)@, x@));
            }
        }
        assert forall|i: int, j: int| 0 <= i < after.len() && 0 <= j < after.len() && i != j implies after[i]
            != after[j] by {
            let ii = if i < pos { i } else { i - 1 };
            let jj = if j < pos { j } else { j - 1 };
            if i != pos && j != pos {
                assert(after[i] == before[ii] && after[j] == before[jj]);
            } else if i == pos {
                assert(after[j] == before[jj]);
            } else {
                assert(after[i] == before[ii]);
            }
        }
    }
}

} // verus!
