//! Identifier prefixes of a project: those in use by requirements, those
//! allowed explicitly, and whether a prefix may be chosen.
use vstd::prelude::*;
use vstd::relations::sorted_by;
use vstd::string::*;
use crate::order::{insert_sorted_unique, lemma_text_order_total, sort_texts, text_order};
use crate::requirement::Requirement;
use crate::store::RequirementsStore;
use crate::text::{
    all_upper_ascii, before_first, contains_view, eq_ignore_ascii_case, eq_ignore_case, is_all_upper_ascii,
    split_first, starts_with_char, str_eq, to_upper, uppercase, vec_contains_str, views,
};

verus! {

/// The prefix that a requirement's readable identifier puts in use: the part
/// before its first `-`, unless that part begins with `$` (the identifiers
/// of users, views and features).
pub open spec fn used_prefix_of(r: Requirement) -> Option<Seq<char>> {
    match r.spec_id {
        Some(id) => {
            let p = before_first(id@, '-');
            if p.len() > 0 && p[0] == '$' {
                None
            } else {
                Some(p)
            }
        },
        None => None,
    }
}

/// The prefixes in use among the requirements `s`.
pub open spec fn used_prefix_set(s: Seq<Requirement>) -> Set<Seq<char>> {
    Set::new(|p: Seq<char>| exists|i: int| 0 <= i < s.len() && used_prefix_of(#[trigger] s[i]) == Some(p))
}

/// Whether `v` lists the texts of `t` in character order, each once.
pub open spec fn lists_in_order(v: Seq<Seq<char>>, t: Set<Seq<char>>) -> bool {
    &&& sorted_by(v, text_order())
    &&& v.no_duplicates()
    &&& v.to_set() == t
}

/// The strings of `s` other than those equal to `t`, in their order.
pub open spec fn without_text(s: Seq<String>, t: Seq<char>) -> Seq<String>
    decreases s.len(),
{
    if s.len() == 0 {
        s
    } else if s.last()@ == t {
        without_text(s.drop_last(), t)
    } else {
        without_text(s.drop_last(), t).push(s.last())
    }
}

proof fn lemma_used_prefix_set_push(s: Seq<Requirement>, r: Requirement)
    ensures
        used_prefix_set(s.push(r)) == match used_prefix_of(r) {
            Some(p) => used_prefix_set(s).insert(p),
            None => used_prefix_set(s),
        },
{
    let t = s.push(r);
    let rhs = match used_prefix_of(r) {
        Some(p) => used_prefix_set(s).insert(p),
        None => used_prefix_set(s),
    };
    assert forall|p: Seq<char>| used_prefix_set(t).contains(p) implies rhs.contains(p) by {
        let i = choose|i: int| 0 <= i < t.len() && used_prefix_of(#[trigger] t[i]) == Some(p);
        if i < s.len() {
            assert(t[i] == s[i]);
            assert(used_prefix_set(s).contains(p));
        }
    }
    assert forall|p: Seq<char>| rhs.contains(p) implies used_prefix_set(t).contains(p) by {
        if used_prefix_set(s).contains(p) {
            let i = choose|i: int| 0 <= i < s.len() && used_prefix_of(#[trigger] s[i]) == Some(p);
            assert(t[i] == s[i]);
        } else {
            assert(t[s.len() as int] == r);
        }
    }
    assert(used_prefix_set(t) =~= rhs);
}

/// The prefix that requirement `r` puts in use, if any.
fn prefix_in_use(r: &Requirement) -> (p: Option<String>)
    ensures
        match p {
            Some(x) => used_prefix_of(*r) == Some(x@),
            None => used_prefix_of(*r) is None,
        },
{
    match &r.spec_id {
        Some(id) => {
            let p = split_first(id.as_str(), '-');
            if starts_with_char(p.as_str(), '$') {
                None
            } else {
                Some(p)
            }
        },
        None => None,
    }
}

impl RequirementsStore {
    /// The prefixes in use by the requirements' identifiers, each once, in
    /// character order.
    pub fn get_used_prefixes(&self) -> (r: Vec<String>)
        ensures
            lists_in_order(views(r@), used_prefix_set(self.requirements@)),
    {
        let mut out: Vec<String> = Vec::new();
        let mut i: usize = 0;
        proof {
            assert(used_prefix_set(self.requirements@.take(0)) =~= Set::<Seq<char>>::empty());
            assert(views(out@).to_set() =~= Set::<Seq<char>>::empty());
        }
        while i < self.requirements.len()
            invariant
                i <= self.requirements@.len(),
                lists_in_order(views(out@), used_prefix_set(self.requirements@.take(i as int))),
            decreases self.requirements.len() - i,
        {
            let ghost before = self.requirements@.take(i as int);
            proof {
                assert(self.requirements@.take(i as int + 1) =~= before.push(self.requirements@[i as int]));
                lemma_used_prefix_set_push(before, self.requirements@[i as int]);
            }
            match prefix_in_use(&self.requirements[i]) {
                Some(p) => {
                    insert_sorted_unique(&mut out, p);
                },
                None => {},
            }
            i = i + 1;
        }
        proof {
            assert(self.requirements@.take(self.requirements@.len() as int) =~= self.requirements@);
        }
        out
    }

    /// The allowed prefixes together with those in use, each once, in
    /// character order.
    pub fn get_all_prefixes(&self) -> (r: Vec<String>)
        ensures
            lists_in_order(
                views(r@),
                views(self.allowed_prefixes@).to_set() + used_prefix_set(self.requirements@),
            ),
    {
        let mut out: Vec<String> = Vec::new();
        let mut i: usize = 0;
        let ghost allowed = views(self.allowed_prefixes@);
        proof {
            assert(views(out@).to_set() =~= allowed.take(0).to_set());
        }
        while i < self.allowed_prefixes.len()
            invariant
                i <= self.allowed_prefixes@.len(),
                allowed == views(self.allowed_prefixes@),
                lists_in_order(views(out@), allowed.take(i as int).to_set()),
            decreases self.allowed_prefixes.len() - i,
        {
            proof {
                assert(allowed.take(i as int + 1) =~= allowed.take(i as int).push(allowed[i as int]));
                allowed.take(i as int).lemma_push_to_set_commute(allowed[i as int]);
                assert(allowed.take(i as int + 1).to_set() =~= allowed.take(i as int).to_set().insert(
                    allowed[i as int],
                ));
            }
            insert_sorted_unique(&mut out, self.allowed_prefixes[i].clone());
            i = i + 1;
        }
        let used = self.get_used_prefixes();
        let ghost used_v = views(used@);
        let mut j: usize = 0;
        proof {
            assert(allowed.take(allowed.len() as int) =~= allowed);
            assert(views(out@).to_set() =~= allowed.to_set() + used_v.take(0).to_set());
        }
        while j < used.len()
            invariant
                j <= used@.len(),
                used_v == views(used@),
                lists_in_order(views(out@), allowed.to_set() + used_v.take(j as int).to_set()),
            decreases used.len() - j,
        {
            proof {
                assert(used_v.take(j as int + 1) =~= used_v.take(j as int).push(used_v[j as int]));
                used_v.take(j as int).lemma_push_to_set_commute(used_v[j as int]);
                assert(allowed.to_set() + used_v.take(j as int + 1).to_set() =~= (allowed.to_set()
                    + used_v.take(j as int).to_set()).insert(used_v[j as int]));
            }
            insert_sorted_unique(&mut out, used[j].clone());
            j = j + 1;
        }
        proof {
            assert(used_v.take(used_v.len() as int) =~= used_v);
        }
        out
    }

    /// Adds `prefix` in uppercase to the allowed prefixes unless it is there
    /// already; the list is then sorted.
    pub fn add_allowed_prefix(&mut self, prefix: &str)
        ensures
            contains_view(old(self).allowed_prefixes@, uppercase(prefix@)) ==> *final(self) == *old(self),
            !contains_view(old(self).allowed_prefixes@, uppercase(prefix@)) ==> views(
                final(self).allowed_prefixes@,
            ) == views(old(self).allowed_prefixes@).push(uppercase(prefix@)).sort_by(text_order()),
            !contains_view(old(self).allowed_prefixes@, uppercase(prefix@)) ==> sorted_by(
                views(final(self).allowed_prefixes@),
                text_order(),
            ),
            *final(self) == (RequirementsStore { allowed_prefixes: final(self).allowed_prefixes, ..*old(self) }),
    {
        let p = to_upper(prefix);
        if !vec_contains_str(&self.allowed_prefixes, p.as_str()) {
            let ghost before = self.allowed_prefixes@;
            self.allowed_prefixes.push(p);
            proof {
                assert(views(self.allowed_prefixes@) =~= views(before).push(uppercase(prefix@)));
            }
            sort_texts(&mut self.allowed_prefixes);
            proof {
                lemma_text_order_total();
                views(before).push(uppercase(prefix@)).lemma_sort_by_ensures(text_order());
            }
        }
    }

    /// Removes every allowed prefix equal to `prefix`, keeping the order of
    /// the others.
    pub fn remove_allowed_prefix(&mut self, prefix: &str)
        ensures
            final(self).allowed_prefixes@ == without_text(old(self).allowed_prefixes@, prefix@),
            *final(self) == (RequirementsStore { allowed_prefixes: final(self).allowed_prefixes, ..*old(self) }),
    {
        let mut kept: Vec<String> = Vec::new();
        let mut i: usize = 0;
        proof {
            assert(self.allowed_prefixes@.take(0) =~= Seq::<String>::empty());
        }
        while i < self.allowed_prefixes.len()
            invariant
                i <= self.allowed_prefixes@.len(),
                kept@ == without_text(self.allowed_prefixes@.take(i as int), prefix@),
            decreases self.allowed_prefixes.len() - i,
        {
            proof {
                let t = self.allowed_prefixes@.take(i as int + 1);
                assert(t.drop_last() =~= self.allowed_prefixes@.take(i as int));
                assert(t.last() == self.allowed_prefixes@[i as int]);
            }
            if !str_eq(self.allowed_prefixes[i].as_str(), prefix) {
                kept.push(self.allowed_prefixes[i].clone());
            }
            i = i + 1;
        }
        proof {
            assert(self.allowed_prefixes@.take(self.allowed_prefixes@.len() as int) =~= self.allowed_prefixes@);
        }
        self.allowed_prefixes = kept;
    }

    /// Adds a prefix typed into the settings. Nothing happens when the input
    /// is empty or its uppercase form holds anything but ASCII capital
    /// letters; else that uppercase form is added as `add_allowed_prefix`
    /// adds a prefix. Returns whether the input was accepted.
    pub fn add_prefix_from_input(&mut self, input: &str) -> (r: bool)
        ensures
            r == (input@.len() > 0 && all_upper_ascii(uppercase(input@))),
            !r ==> *final(self) == *old(self),
            r && contains_view(old(self).allowed_prefixes@, uppercase(uppercase(input@))) ==> *final(self) == *old(
                self,
            ),
            r && !contains_view(old(self).allowed_prefixes@, uppercase(uppercase(input@))) ==> views(
                final(self).allowed_prefixes@,
            ) == views(old(self).allowed_prefixes@).push(uppercase(uppercase(input@))).sort_by(text_order()),
            *final(self) == (RequirementsStore { allowed_prefixes: final(self).allowed_prefixes, ..*old(self) }),
    {
        if input.unicode_len() == 0 {
            return false;
        }
        let p = to_upper(input);
        if !is_all_upper_ascii(p.as_str()) {
            return false;
        }
        self.add_allowed_prefix(p.as_str());
        true
    }

    /// Whether `prefix` may be chosen: always when prefixes are not
    /// restricted, else when an allowed prefix equals it ignoring ASCII case.
    pub fn is_prefix_allowed(&self, prefix: &str) -> (r: bool)
        ensures
            r == (!self.restrict_prefixes || exists|i: int|
                0 <= i < self.allowed_prefixes@.len() && eq_ignore_ascii_case(
                    #[trigger] self.allowed_prefixes@[i]@,
                    prefix@,
                )),
    {
        if !self.restrict_prefixes {
            return true;
        }
        let mut i: usize = 0;
        while i < self.allowed_prefixes.len()
            invariant
                i <= self.allowed_prefixes@.len(),
                self.restrict_prefixes,
                forall|j: int| 0 <= j < i ==> !eq_ignore_ascii_case(#[trigger] self.allowed_prefixes@[j]@, prefix@),
            decreases self.allowed_prefixes.len() - i,
        {
            if eq_ignore_case(self.allowed_prefixes[i].as_str(), prefix) {
                return true;
            }
            i = i + 1;
        }
        false
    }
}

} // verus!
