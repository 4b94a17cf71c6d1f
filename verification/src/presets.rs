//! Saved views of the requirements list: whether the current view matches
//! the active preset, applying, saving and deleting presets, and going back
//! to the default view.
use vstd::prelude::*;
use vstd::string::*;
use crate::editing::same_texts;
use crate::listing::ListFilters;
use crate::model::{req_type_key, RequirementType};
use crate::settings::{names_type, perspective_label, Perspective, PerspectiveDirection, SearchScope, ViewPreset};
use crate::text::{opt_view, owned, str_eq, views};

verus! {

/// Whether the view of `f` is the one preset `p` describes: the same
/// perspective, direction and child-filter mode, and the same sets of
/// filter types, features and prefixes for roots and children.
pub open spec fn preset_matches(f: ListFilters, p: ViewPreset) -> bool {
    &&& f.perspective == p.perspective
    &&& f.perspective_direction == p.direction
    &&& f.filter_types@.to_set() == Set::new(|t: RequirementType| names_type(p.filter_types@, t))
    &&& views(f.filter_features@).to_set() == views(p.filter_features@).to_set()
    &&& views(f.filter_prefixes@).to_set() == views(p.filter_prefixes@).to_set()
    &&& f.child_filter_types@.to_set() == Set::new(|t: RequirementType| names_type(p.child_filter_types@, t))
    &&& views(f.child_filter_features@).to_set() == views(p.child_filter_features@).to_set()
    &&& views(f.child_filter_prefixes@).to_set() == views(p.child_filter_prefixes@).to_set()
    &&& f.children_same_as_root == p.children_same_as_root
}

/// Whether `i` is the first preset in `v` named `n`.
pub open spec fn first_preset_named(v: Seq<ViewPreset>, n: Seq<char>, i: int) -> bool {
    0 <= i < v.len() && v[i].name@ == n && forall|j: int| 0 <= j < i ==> (#[trigger] v[j]).name@ != n
}

/// Whether the view of `f` is the default one: flat, top-down, no root
/// filters on types, features or prefixes, children filtered as roots, no
/// child filters on types, features or prefixes.
pub open spec fn default_view(f: ListFilters) -> bool {
    &&& f.perspective == Perspective::Flat
    &&& f.perspective_direction == PerspectiveDirection::TopDown
    &&& f.filter_types@.len() == 0
    &&& f.filter_features@.len() == 0
    &&& f.filter_prefixes@.len() == 0
    &&& f.children_same_as_root
    &&& f.child_filter_types@.len() == 0
    &&& f.child_filter_features@.len() == 0
    &&& f.child_filter_prefixes@.len() == 0
}

/// The presets of `v` not named `n`, in order.
pub open spec fn without_preset(v: Seq<ViewPreset>, n: Seq<char>) -> Seq<ViewPreset>
    decreases v.len(),
{
    if v.len() == 0 {
        Seq::empty()
    } else if v.last().name@ == n {
        without_preset(v.drop_last(), n)
    } else {
        without_preset(v.drop_last(), n).push(v.last())
    }
}

/// Preset `p` is the view of `f` saved under the name `name`, type filters
/// kept as the types' keys.
pub open spec fn preset_made(p: ViewPreset, f: ListFilters, name: String) -> bool {
    &&& p.name == name
    &&& p.perspective == f.perspective
    &&& p.direction == f.perspective_direction
    &&& views(p.filter_types@) == f.filter_types@.map_values(|t: RequirementType| req_type_key(t))
    &&& p.filter_features@ == f.filter_features@
    &&& p.filter_prefixes@ == f.filter_prefixes@
    &&& views(p.child_filter_types@) == f.child_filter_types@.map_values(|t: RequirementType| req_type_key(t))
    &&& p.child_filter_features@ == f.child_filter_features@
    &&& p.child_filter_prefixes@ == f.child_filter_prefixes@
    &&& p.children_same_as_root == f.children_same_as_root
}

/// Presets `after` are presets `v` with the view of `f` saved as `name`:
/// replacing the first preset of that name, or appended when there is none.
pub open spec fn saved_as(f: ListFilters, v: Seq<ViewPreset>, after: Seq<ViewPreset>, name: String) -> bool {
    &&& (forall|i: int| 0 <= i < v.len() ==> (#[trigger] v[i]).name@ != name@) ==> after.drop_last() == v
        && after.len() == v.len() + 1 && preset_made(after.last(), f, name)
    &&& forall|i: int|
        #[trigger] first_preset_named(v, name@, i) ==> after == v.update(i, after[i]) && preset_made(after[i], f, name)
}

proof fn lemma_key_round_trip(t: RequirementType)
    ensures
        crate::settings::type_of_key(req_type_key(t)) == Some(t),
{
    reveal_strlit("Functional");
    reveal_strlit("NonFunctional");
    reveal_strlit("System");
    reveal_strlit("User");
    reveal_strlit("ChangeRequest");
    assert("Functional"@.len() == 10 && "NonFunctional"@.len() == 13 && "System"@.len() == 6 && "User"@.len() == 4
        && "ChangeRequest"@.len() == 13);
    assert("NonFunctional"@[0] != "ChangeRequest"@[0]);
}

proof fn lemma_keys_name_types(types: Seq<RequirementType>, keys: Seq<String>)
    requires
        views(keys) == types.map_values(|t: RequirementType| req_type_key(t)),
    ensures
        types.to_set() == Set::new(|t: RequirementType| names_type(keys, t)),
{
    assert(keys.len() == types.len()) by {
        assert(views(keys).len() == keys.len());
    }
    assert forall|t: RequirementType| types.to_set().contains(t) <==> names_type(keys, t) by {
        if types.contains(t) {
            let i = choose|i: int| 0 <= i < types.len() && types[i] == t;
            assert(views(keys)[i] == req_type_key(t));
            assert(keys[i]@ == views(keys)[i]);
            lemma_key_round_trip(t);
        }
        if names_type(keys, t) {
            let i = choose|i: int| 0 <= i < keys.len() && crate::settings::type_of_key((#[trigger] keys[i])@) == Some(t);
            assert(keys[i]@ == views(keys)[i]);
            assert(views(keys)[i] == req_type_key(types[i]));
            lemma_key_round_trip(types[i]);
        }
    }
    assert(types.to_set() =~= Set::new(|t: RequirementType| names_type(keys, t)));
}

/// A view saved as a preset matches it: after saving the view of `f` as
/// `name`, the first preset of that name is the view of `f`.
pub proof fn lemma_saved_view_matches(f: ListFilters, v: Seq<ViewPreset>, after: Seq<ViewPreset>, name: String)
    requires
        saved_as(f, v, after, name),
    ensures
        exists|i: int| first_preset_named(after, name@, i) && preset_matches(f, after[i]),
{
    let i = if exists|i: int| first_preset_named(v, name@, i) {
        let i = choose|i: int| first_preset_named(v, name@, i);
        assert(first_preset_named(after, name@, i)) by {
            assert forall|j: int| 0 <= j < i implies (#[trigger] after[j]).name@ != name@ by {
                assert(after[j] == v[j]);
            }
        }
        i
    } else {
        assert forall|i: int| 0 <= i < v.len() implies (#[trigger] v[i]).name@ != name@ by {
            if v[i].name@ == name@ {
                let k = crate::presets::lemma_first_preset(v, name@, i);
            }
        }
        let i = v.len() as int;
        assert(first_preset_named(after, name@, i)) by {
            assert forall|j: int| 0 <= j < i implies (#[trigger] after[j]).name@ != name@ by {
                assert(after.drop_last()[j] == after[j]);
            }
        }
        i
    };
    let p = after[i];
    lemma_keys_name_types(f.filter_types@, p.filter_types@);
    lemma_keys_name_types(f.child_filter_types@, p.child_filter_types@);
    assert(preset_matches(f, p));
}

proof fn lemma_first_preset(v: Seq<ViewPreset>, n: Seq<char>, c: int) -> (k: int)
    requires
        0 <= c < v.len(),
        v[c].name@ == n,
    ensures
        first_preset_named(v, n, k),
    decreases c,
{
    if exists|j: int| 0 <= j < c && (#[trigger] v[j]).name@ == n {
        let j = choose|j: int| 0 <= j < c && (#[trigger] v[j]).name@ == n;
        lemma_first_preset(v, n, j)
    } else {
        c
    }
}

/// After a preset is applied, the view matches it.
pub proof fn lemma_applied_preset_matches(before: ListFilters, after: ListFilters, p: ViewPreset)
    requires
        after.perspective == p.perspective,
        after.perspective_direction == p.direction,
        forall|t: RequirementType| after.filter_types@.contains(t) <==> names_type(p.filter_types@, t),
        views(after.filter_features@).to_set() == views(p.filter_features@).to_set(),
        views(after.filter_prefixes@).to_set() == views(p.filter_prefixes@).to_set(),
        forall|t: RequirementType| after.child_filter_types@.contains(t) <==> names_type(p.child_filter_types@, t),
        views(after.child_filter_features@).to_set() == views(p.child_filter_features@).to_set(),
        views(after.child_filter_prefixes@).to_set() == views(p.child_filter_prefixes@).to_set(),
        after.children_same_as_root == p.children_same_as_root,
    ensures
        preset_matches(after, p),
{
    assert(after.filter_types@.to_set() =~= Set::new(|t: RequirementType| names_type(p.filter_types@, t)));
    assert(after.child_filter_types@.to_set() =~= Set::new(|t: RequirementType| names_type(p.child_filter_types@, t)));
}

/// After presets named `n` are deleted, none of that name remains, and every
/// other preset is kept.
pub proof fn lemma_deleted_preset_gone(v: Seq<ViewPreset>, n: Seq<char>)
    ensures
        forall|i: int| 0 <= i < without_preset(v, n).len() ==> (#[trigger] without_preset(v, n)[i]).name@ != n,
        forall|i: int| 0 <= i < v.len() && (#[trigger] v[i]).name@ != n ==> without_preset(v, n).contains(v[i]),
    decreases v.len(),
{
    if v.len() > 0 {
        lemma_deleted_preset_gone(v.drop_last(), n);
        let w = without_preset(v.drop_last(), n);
        assert forall|i: int| 0 <= i < v.len() && (#[trigger] v[i]).name@ != n implies without_preset(v, n).contains(
            v[i],
        ) by {
            if i < v.len() - 1 {
                assert(v.drop_last()[i] == v[i]);
                let k = choose|k: int| 0 <= k < w.len() && w[k] == v[i];
                if v.last().name@ != n {
                    assert(without_preset(v, n)[k] == v[i]);
                }
            } else {
                assert(without_preset(v, n)[w.len() as int] == v[i]);
            }
        }
    }
}

fn type_in(v: &Vec<RequirementType>, t: RequirementType) -> (r: bool)
    ensures
        r == v@.contains(t),
{
    let mut i: usize = 0;
    while i < v.len()
        invariant
            i <= v@.len(),
            forall|j: int| 0 <= j < i ==> v@[j] != t,
        decreases v.len() - i,
    {
        if v[i] == t {
            return true;
        }
        i = i + 1;
    }
    false
}

/// Whether two lists of requirement types hold the same types.
fn same_types(a: &Vec<RequirementType>, b: &Vec<RequirementType>) -> (r: bool)
    ensures
        r == (a@.to_set() == b@.to_set()),
{
    let mut i: usize = 0;
    while i < a.len()
        invariant
            i <= a@.len(),
            forall|k: int| 0 <= k < i ==> b@.contains(#[trigger] a@[k]),
        decreases a.len() - i,
    {
        if !type_in(b, a[i]) {
            proof {
                assert(a@.to_set().contains(a@[i as int]));
            }
            return false;
        }
        i = i + 1;
    }
    let mut j: usize = 0;
    while j < b.len()
        invariant
            j <= b@.len(),
            forall|k: int| 0 <= k < j ==> a@.contains(#[trigger] b@[k]),
        decreases b.len() - j,
    {
        if !type_in(a, b[j]) {
            proof {
                assert(b@.to_set().contains(b@[j as int]));
            }
            return false;
        }
        j = j + 1;
    }
    proof {
        assert forall|x: RequirementType| a@.to_set().contains(x) <==> b@.to_set().contains(x) by {
            if a@.contains(x) {
                let k = choose|k: int| 0 <= k < a@.len() && a@[k] == x;
                assert(b@.contains(a@[k]));
            }
            if b@.contains(x) {
                let k = choose|k: int| 0 <= k < b@.len() && b@[k] == x;
                assert(a@.contains(b@[k]));
            }
        }
        assert(a@.to_set() =~= b@.to_set());
    }
    true
}

impl ListFilters {
    /// Whether the view matches preset `preset`.
    pub fn matches_preset(&self, preset: &ViewPreset) -> (r: bool)
        ensures
            r == preset_matches(*self, *preset),
    {
        let ft = preset.get_filter_types();
        let ct = preset.get_child_filter_types();
        let ff = preset.get_filter_features();
        let fp = preset.get_filter_prefixes();
        let cf = preset.get_child_filter_features();
        let cp = preset.get_child_filter_prefixes();
        proof {
            assert(ft@.to_set() =~= Set::new(|t: RequirementType| names_type(preset.filter_types@, t)));
            assert(ct@.to_set() =~= Set::new(|t: RequirementType| names_type(preset.child_filter_types@, t)));
        }
        self.perspective == preset.perspective && self.perspective_direction == preset.direction && same_types(
            &self.filter_types,
            &ft,
        ) && same_texts(&self.filter_features, &ff) && same_texts(&self.filter_prefixes, &fp) && same_types(
            &self.child_filter_types,
            &ct,
        ) && same_texts(&self.child_filter_features, &cf) && same_texts(&self.child_filter_prefixes, &cp)
            && self.children_same_as_root == preset.children_same_as_root
    }

    /// Whether the view matches the active preset (the first preset named
    /// `active_preset`); false when there is none.
    pub fn current_view_matches_active_preset(&self, active_preset: &Option<String>, presets: &Vec<ViewPreset>) -> (r:
        bool)
        ensures
            r == match active_preset {
                Some(n) => exists|i: int| first_preset_named(presets@, n@, i) && preset_matches(*self, presets@[i]),
                None => false,
            },
    {
        match active_preset {
            Some(n) => {
                let mut i: usize = 0;
                while i < presets.len() && !str_eq(presets[i].name.as_str(), n.as_str())
                    invariant
                        i <= presets@.len(),
                        forall|j: int| 0 <= j < i ==> (#[trigger] presets@[j]).name@ != n@,
                    decreases presets.len() - i,
                {
                    i = i + 1;
                }
                if i == presets.len() {
                    return false;
                }
                let m = self.matches_preset(&presets[i]);
                proof {
                    assert(first_preset_named(presets@, n@, i as int));
                    assert forall|k: int| #[trigger] first_preset_named(presets@, n@, k) implies k == i by {
                        if k < i {
                            assert(presets@[k].name@ != n@);
                        } else if i < k {
                            assert(presets@[i as int].name@ != n@);
                        }
                    }
                }
                m
            },
            None => false,
        }
    }

    /// Whether the view has changes not saved in a preset: with an active
    /// preset, whether it differs from it; otherwise whether it differs from
    /// the default view.
    pub fn has_unsaved_view(&self, active_preset: &Option<String>, presets: &Vec<ViewPreset>) -> (r: bool)
        ensures
            r == match active_preset {
                Some(n) => !exists|i: int| first_preset_named(presets@, n@, i) && preset_matches(*self, presets@[i]),
                None => !default_view(*self),
            },
    {
        match active_preset {
            Some(_) => !self.current_view_matches_active_preset(active_preset, presets),
            None => self.perspective != Perspective::Flat || self.perspective_direction != PerspectiveDirection::TopDown
                || self.filter_types.len() > 0 || self.filter_features.len() > 0 || self.filter_prefixes.len() > 0
                || !self.children_same_as_root || self.child_filter_types.len() > 0 || self.child_filter_features.len()
                > 0 || self.child_filter_prefixes.len() > 0,
        }
    }

    /// Takes the view of preset `preset` (the other filters stay) and gives
    /// its name, the new active preset.
    pub fn apply_preset(&mut self, preset: &ViewPreset) -> (active: String)
        ensures
            active == preset.name,
            final(self).perspective == preset.perspective,
            final(self).perspective_direction == preset.direction,
            final(self).filter_types@.no_duplicates(),
            forall|t: RequirementType| final(self).filter_types@.contains(t) <==> names_type(preset.filter_types@, t),
            views(final(self).filter_features@).no_duplicates(),
            views(final(self).filter_features@).to_set() == views(preset.filter_features@).to_set(),
            views(final(self).filter_prefixes@).no_duplicates(),
            views(final(self).filter_prefixes@).to_set() == views(preset.filter_prefixes@).to_set(),
            final(self).child_filter_types@.no_duplicates(),
            forall|t: RequirementType|
                final(self).child_filter_types@.contains(t) <==> names_type(preset.child_filter_types@, t),
            views(final(self).child_filter_features@).no_duplicates(),
            views(final(self).child_filter_features@).to_set() == views(preset.child_filter_features@).to_set(),
            views(final(self).child_filter_prefixes@).no_duplicates(),
            views(final(self).child_filter_prefixes@).to_set() == views(preset.child_filter_prefixes@).to_set(),
            final(self).children_same_as_root == preset.children_same_as_root,
            *final(self) == (ListFilters {
                perspective: final(self).perspective,
                perspective_direction: final(self).perspective_direction,
                filter_types: final(self).filter_types,
                filter_features: final(self).filter_features,
                filter_prefixes: final(self).filter_prefixes,
                child_filter_types: final(self).child_filter_types,
                child_filter_features: final(self).child_filter_features,
                child_filter_prefixes: final(self).child_filter_prefixes,
                children_same_as_root: final(self).children_same_as_root,
                ..*old(self)
            }),
    {
        self.perspective = preset.perspective;
        self.perspective_direction = preset.direction;
        self.filter_types = preset.get_filter_types();
        self.filter_features = preset.get_filter_features();
        self.filter_prefixes = preset.get_filter_prefixes();
        self.child_filter_types = preset.get_child_filter_types();
        self.child_filter_features = preset.get_child_filter_features();
        self.child_filter_prefixes = preset.get_child_filter_prefixes();
        self.children_same_as_root = preset.children_same_as_root;
        preset.name.clone()
    }

    /// Saves the view as preset `name`: it replaces the first preset of that
    /// name, or is appended when there is none.
    pub fn save_current_view_as_preset(&self, presets: &mut Vec<ViewPreset>, name: String)
        ensures
            saved_as(*self, old(presets)@, final(presets)@, name),
    {
        let mut pos: Option<usize> = None;
        let mut i: usize = 0;
        while i < presets.len()
            invariant
                i <= presets@.len(),
                presets@ == old(presets)@,
                pos is None ==> forall|j: int| 0 <= j < i ==> (#[trigger] presets@[j]).name@ != name@,
                pos matches Some(k) ==> first_preset_named(presets@, name@, k as int),
            decreases presets.len() - i,
        {
            if pos.is_none() && str_eq(presets[i].name.as_str(), name.as_str()) {
                pos = Some(i);
            }
            i = i + 1;
        }
        let preset = ViewPreset::new(
            name,
            self.perspective,
            self.perspective_direction,
            &self.filter_types,
            &self.filter_features,
            &self.filter_prefixes,
            &self.child_filter_types,
            &self.child_filter_features,
            &self.child_filter_prefixes,
            self.children_same_as_root,
        );
        match pos {
            Some(k) => {
                presets.set(k, preset);
                proof {
                    assert forall|j: int| #[trigger] first_preset_named(old(presets)@, name@, j) implies j == k by {
                        if j < k {
                            assert(old(presets)@[j].name@ != name@);
                        } else if k < j {
                            assert(old(presets)@[k as int].name@ != name@);
                        }
                    }
                }
            },
            None => {
                presets.push(preset);
                proof {
                    assert(presets@.drop_last() =~= old(presets)@);
                }
            },
        }
    }

    /// The text the view selector shows: the active preset's name, marked
    /// with `*` when the view no longer matches that preset; without an
    /// active preset, the perspective's name.
    pub fn view_label(&self, active_preset: &Option<String>, presets: &Vec<ViewPreset>) -> (r: String)
        ensures
            match active_preset {
                Some(n) => {
                    &&& (exists|i: int| first_preset_named(presets@, n@, i) && preset_matches(*self, presets@[i]))
                        ==> r@ == n@
                    &&& !(exists|i: int| first_preset_named(presets@, n@, i) && preset_matches(*self, presets@[i]))
                        ==> r@ == n@ + "*"@
                },
                None => r@ == perspective_label(self.perspective),
            },
    {
        match active_preset {
            Some(n) => {
                if self.current_view_matches_active_preset(active_preset, presets) {
                    n.clone()
                } else {
                    let mut r = n.clone();
                    r.append("*");
                    r
                }
            },
            None => owned(self.perspective.label()),
        }
    }

    /// Whether the view differs from the default one in what the reset
    /// button restores: the perspective is not the flat list, the direction
    /// is not top-down, or roots are filtered by type or feature.
    pub fn can_reset_view(&self) -> (r: bool)
        ensures
            r == (self.perspective != Perspective::Flat || self.perspective_direction != PerspectiveDirection::TopDown
                || self.filter_types@.len() > 0 || self.filter_features@.len() > 0),
    {
        self.perspective != Perspective::Flat || self.perspective_direction != PerspectiveDirection::TopDown
            || self.filter_types.len() > 0 || self.filter_features.len() > 0
    }

    /// Goes back to the default view: the preferred perspective, top-down,
    /// no root filters on types or features, no search text, searching
    /// every field.
    pub fn reset_to_default_view(&mut self, preferred: Perspective)
        ensures
            *final(self) == (ListFilters {
                perspective: preferred,
                perspective_direction: PerspectiveDirection::TopDown,
                filter_types: final(self).filter_types,
                filter_features: final(self).filter_features,
                filter_text: final(self).filter_text,
                search_scope: SearchScope { title: true, description: true, comments: true, spec_id: true },
                ..*old(self)
            }),
            final(self).filter_types@.len() == 0,
            final(self).filter_features@.len() == 0,
            final(self).filter_text@.len() == 0,
    {
        self.perspective = preferred;
        self.perspective_direction = PerspectiveDirection::TopDown;
        self.filter_types = Vec::new();
        self.filter_features = Vec::new();
        self.filter_text = String::new();
        self.search_scope = SearchScope::all();
    }
}

/// Removes the presets named `name`; the active preset is cleared when it
/// was that one.
pub fn delete_preset(presets: &mut Vec<ViewPreset>, active_preset: &mut Option<String>, name: &str)
    ensures
        final(presets)@ == without_preset(old(presets)@, name@),
        opt_view(*old(active_preset)) == Some(name@) ==> *final(active_preset) is None,
        opt_view(*old(active_preset)) != Some(name@) ==> *final(active_preset) == *old(active_preset),
{
    let mut kept: Vec<ViewPreset> = Vec::new();
    let mut i: usize = 0;
    let n = presets.len();
    proof {
        assert(old(presets)@.take(0) =~= Seq::<ViewPreset>::empty());
    }
    while presets.len() > 0
        invariant
            presets@ == old(presets)@.skip(i as int),
            i <= old(presets)@.len(),
            n == old(presets)@.len(),
            i + presets@.len() == n,
            kept@ == without_preset(old(presets)@.take(i as int), name@),
        decreases presets.len(),
    {
        let p = presets.remove(0);
        proof {
            let t = old(presets)@.take(i as int + 1);
            assert(t.drop_last() =~= old(presets)@.take(i as int));
            assert(t.last() == old(presets)@[i as int]);
            assert(presets@ =~= old(presets)@.skip(i as int + 1));
        }
        if !str_eq(p.name.as_str(), name) {
            kept.push(p);
        }
        i = i + 1;
    }
    proof {
        assert(old(presets)@.take(n as int) =~= old(presets)@);
    }
    *presets = kept;
    let clear = match active_preset {
        Some(a) => str_eq(a.as_str(), name),
        None => false,
    };
    if clear {
        *active_preset = None;
    }
}

} // verus!
