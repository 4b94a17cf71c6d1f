//! What the requirements list shows: which requirements pass the search and
//! the filters, and how they are arranged in relationship trees.
use vstd::prelude::*;
use vstd::string::*;
use crate::comment::Comment;
use crate::model::{CustomFieldType, RelKind, RelationshipType, RequirementPriority, RequirementStatus, RequirementType};
use crate::graph::{all_targets, follows, is_path, lemma_follows_in_universe, lemma_path_extend, vec_has};
use crate::relations::has_kind;
use crate::requirement::Requirement;
use crate::store::{first_with_id, has_id, has_rel, rel_is, RequirementsStore};
use crate::settings::{Perspective, PerspectiveDirection, SearchScope};
use crate::order::{insert_sorted_unique, text_order};
use crate::prefixes::lists_in_order;
use crate::text::{before_first, contains_str, contains_view, has_substring, lowercase, split_first, to_lower, vec_contains_str, views};

verus! {

/// The search and the filters of the requirements list.
#[derive(Debug, Clone)]
pub struct ListFilters {
    /// How the list is organised
    pub perspective: Perspective,
    /// Direction of tree views
    pub perspective_direction: PerspectiveDirection,
    /// The search text (empty: no search)
    pub filter_text: String,
    /// Which fields the search looks at
    pub search_scope: SearchScope,
    /// Root filter by type (empty: all)
    pub filter_types: Vec<RequirementType>,
    /// Root filter by feature (empty: all)
    pub filter_features: Vec<String>,
    /// Root filter by identifier prefix (empty: all)
    pub filter_prefixes: Vec<String>,
    /// Root filter by status (empty: all)
    pub filter_statuses: Vec<RequirementStatus>,
    /// Root filter by priority (empty: all)
    pub filter_priorities: Vec<RequirementPriority>,
    /// Child filter by type (empty: all)
    pub child_filter_types: Vec<RequirementType>,
    /// Child filter by feature (empty: all)
    pub child_filter_features: Vec<String>,
    /// Child filter by identifier prefix (empty: all)
    pub child_filter_prefixes: Vec<String>,
    /// Child filter by status (empty: all)
    pub child_filter_statuses: Vec<RequirementStatus>,
    /// Child filter by priority (empty: all)
    pub child_filter_priorities: Vec<RequirementPriority>,
    /// Whether children are filtered as the roots are
    pub children_same_as_root: bool,
    /// Whether archived requirements are shown
    pub show_archived: bool,
    /// Identifiers of the collapsed tree nodes
    pub tree_collapsed: Vec<u128>,
}

// ---------------------------------------------------------------------------
// Searching comment threads
// ---------------------------------------------------------------------------

/// Whether a comment's text or author, in lowercase, contains `search`.
pub open spec fn comment_mentions(c: Comment, search: Seq<char>) -> bool {
    has_substring(lowercase(c.content@), search) || has_substring(lowercase(c.author@), search)
}

/// Whether thread `c` (the comment and its replies at any depth) mentions
/// `search`.
pub open spec fn thread_mentions(c: Comment, search: Seq<char>) -> bool
    decreases c, 1int, 0int,
{
    comment_mentions(c, search) || replies_mention(c, search, c.replies@.len() as int)
}

/// Whether one of the first `n` replies of `c` mentions `search` in its
/// thread.
pub open spec fn replies_mention(c: Comment, search: Seq<char>, n: int) -> bool
    decreases c, 0int, n,
{
    if n <= 0 || n > c.replies@.len() {
        false
    } else {
        proof {
            assert(decreases_to!(c => c.replies));
            assert(decreases_to!(c.replies => c.replies@));
            assert(decreases_to!(c.replies@ => c.replies@[n - 1]));
        }
        replies_mention(c, search, n - 1) || thread_mentions(c.replies@[n - 1], search)
    }
}

/// Whether some thread of `s` mentions `search`.
pub open spec fn threads_mention(s: Seq<Comment>, search: Seq<char>) -> bool {
    exists|i: int| 0 <= i < s.len() && thread_mentions(#[trigger] s[i], search)
}

proof fn lemma_replies_mention(c: Comment, search: Seq<char>, n: int)
    requires
        0 <= n <= c.replies@.len(),
    ensures
        replies_mention(c, search, n) <==> exists|i: int| 0 <= i < n && thread_mentions(#[trigger] c.replies@[i], search),
    decreases n,
{
    if n > 0 {
        lemma_replies_mention(c, search, n - 1);
    }
}

impl Comment {
    /// Whether this thread mentions `search` (already in lowercase) in a
    /// comment's text or author.
    pub fn mentions(&self, search: &str) -> (r: bool)
        ensures
            r == thread_mentions(*self, search@),
        decreases self, 1int,
    {
        let content = to_lower(self.content.as_str());
        let author = to_lower(self.author.as_str());
        if contains_str(content.as_str(), search) || contains_str(author.as_str(), search) {
            return true;
        }
        proof {
            lemma_replies_mention(*self, search@, self.replies@.len() as int);
        }
        self.replies_mention(search)
    }

    fn replies_mention(&self, search: &str) -> (r: bool)
        ensures
            r == replies_mention(*self, search@, self.replies@.len() as int),
        decreases self, 0int,
    {
        let mut i: usize = 0;
        while i < self.replies.len()
            invariant
                i <= self.replies@.len(),
                forall|j: int| 0 <= j < i ==> !thread_mentions(#[trigger] self.replies@[j], search@),
            decreases self.replies.len() - i,
        {
            proof {
                assert(decreases_to!(self => self.replies));
                assert(decreases_to!(self.replies => self.replies@));
                assert(decreases_to!(self.replies@ => self.replies@[i as int]));
            }
            if self.replies[i].mentions(search) {
                proof {
                    lemma_replies_mention(*self, search@, self.replies@.len() as int);
                }
                return true;
            }
            i = i + 1;
        }
        proof {
            lemma_replies_mention(*self, search@, self.replies@.len() as int);
        }
        false
    }
}

/// Whether some thread of `comments` mentions `search` (already in
/// lowercase) in a comment's text or author.
pub fn search_comments_recursive(comments: &Vec<Comment>, search: &str) -> (r: bool)
    ensures
        r == threads_mention(comments@, search@),
{
    let mut i: usize = 0;
    while i < comments.len()
        invariant
            i <= comments@.len(),
            forall|j: int| 0 <= j < i ==> !thread_mentions(#[trigger] comments@[j], search@),
        decreases comments.len() - i,
    {
        if comments[i].mentions(search) {
            return true;
        }
        i = i + 1;
    }
    false
}

// ---------------------------------------------------------------------------
// Filters
// ---------------------------------------------------------------------------

/// Whether a search scope selects no field.
pub open spec fn scope_none(s: SearchScope) -> bool {
    !s.title && !s.description && !s.comments && !s.spec_id
}

/// Whether requirement `r` passes the search of `f`: there is no search, or
/// a selected field contains the search text (fields and text compared in
/// lowercase; comments at any depth by text or author).
pub open spec fn passes_search(f: ListFilters, r: Requirement) -> bool {
    let search = lowercase(f.filter_text@);
    ||| f.filter_text@.len() == 0
    ||| scope_none(f.search_scope)
    ||| f.search_scope.title && has_substring(lowercase(r.title@), search)
    ||| f.search_scope.description && has_substring(lowercase(r.description@), search)
    ||| f.search_scope.spec_id && r.spec_id is Some && has_substring(lowercase(r.spec_id->0@), search)
    ||| f.search_scope.comments && threads_mention(r.comments@, search)
}

/// The identifier prefix of a requirement: the part of its readable
/// identifier before the first `-`, or empty without one.
pub open spec fn req_prefix(r: Requirement) -> Seq<char> {
    match r.spec_id {
        Some(s) => before_first(s@, '-'),
        None => Seq::empty(),
    }
}

/// Whether requirement `r` passes the type, feature, prefix, status,
/// priority and archive filters, empty filters letting everything through.
pub open spec fn passes_sets(
    types: Seq<RequirementType>,
    features: Seq<String>,
    prefixes: Seq<String>,
    statuses: Seq<RequirementStatus>,
    priorities: Seq<RequirementPriority>,
    show_archived: bool,
    r: Requirement,
) -> bool {
    &&& types.len() == 0 || types.contains(r.req_type)
    &&& features.len() == 0 || contains_view(features, r.feature@)
    &&& prefixes.len() == 0 || contains_view(prefixes, req_prefix(r))
    &&& statuses.len() == 0 || statuses.contains(r.status)
    &&& priorities.len() == 0 || priorities.contains(r.priority)
    &&& !r.archived || show_archived
}

/// The feature filter hides: when the feature filter that applies to `r`
/// (the root one for a root or when children are filtered as roots, the
/// child one otherwise) selects some features and none of them is the
/// requirement's feature, the requirement does not pass.
pub proof fn lemma_feature_filter_hides(f: ListFilters, r: Requirement, is_root: bool)
    requires
        is_root || f.children_same_as_root ==> f.filter_features@.len() > 0 && forall|i: int|
            0 <= i < f.filter_features@.len() ==> (#[trigger] f.filter_features@[i])@ != r.feature@,
        !(is_root || f.children_same_as_root) ==> f.child_filter_features@.len() > 0 && forall|i: int|
            0 <= i < f.child_filter_features@.len() ==> (#[trigger] f.child_filter_features@[i])@ != r.feature@,
    ensures
        !passes(f, r, is_root),
{
}

/// The feature filter lets a selected feature through: when the
/// requirement's feature is among the features of the filter that applies
/// to it, that filter does not hide it: it passes exactly when it would
/// with no feature filter (`g` is `f` without feature filters).
pub proof fn lemma_feature_filter_keeps(f: ListFilters, g: ListFilters, r: Requirement, is_root: bool, i: int)
    requires
        g == (ListFilters { filter_features: g.filter_features, child_filter_features: g.child_filter_features, ..f }),
        g.filter_features@.len() == 0,
        g.child_filter_features@.len() == 0,
        is_root || f.children_same_as_root ==> 0 <= i < f.filter_features@.len() && f.filter_features@[i]@
            == r.feature@,
        !(is_root || f.children_same_as_root) ==> 0 <= i < f.child_filter_features@.len()
            && f.child_filter_features@[i]@ == r.feature@,
    ensures
        passes(f, r, is_root) == passes(g, r, is_root),
{
    if is_root || f.children_same_as_root {
        assert(contains_view(f.filter_features@, r.feature@));
    } else {
        assert(contains_view(f.child_filter_features@, r.feature@));
    }
}

/// The search finds text in the description: when the search covers
/// descriptions and the requirement's description contains the search text
/// (both in lowercase), the requirement passes the search; with no other
/// filter applying to it, it is listed.
pub proof fn lemma_search_finds_description(f: ListFilters, r: Requirement, is_root: bool)
    requires
        f.search_scope.description,
        has_substring(lowercase(r.description@), lowercase(f.filter_text@)),
    ensures
        passes_search(f, r),
        (if is_root || f.children_same_as_root {
            f.filter_types@.len() == 0 && f.filter_features@.len() == 0 && f.filter_prefixes@.len() == 0
                && f.filter_statuses@.len() == 0 && f.filter_priorities@.len() == 0
        } else {
            f.child_filter_types@.len() == 0 && f.child_filter_features@.len() == 0
                && f.child_filter_prefixes@.len() == 0 && f.child_filter_statuses@.len() == 0
                && f.child_filter_priorities@.len() == 0
        }) && (!r.archived || f.show_archived) ==> passes(f, r, is_root),
{
}

/// Whether requirement `r` passes the search and the filters of `f`: the
/// root filters for a root (or when children are filtered as roots), the
/// child filters otherwise.
pub open spec fn passes(f: ListFilters, r: Requirement, is_root: bool) -> bool {
    &&& passes_search(f, r)
    &&& if is_root || f.children_same_as_root {
        passes_sets(
            f.filter_types@,
            f.filter_features@,
            f.filter_prefixes@,
            f.filter_statuses@,
            f.filter_priorities@,
            f.show_archived,
            r,
        )
    } else {
        passes_sets(
            f.child_filter_types@,
            f.child_filter_features@,
            f.child_filter_prefixes@,
            f.child_filter_statuses@,
            f.child_filter_priorities@,
            f.show_archived,
            r,
        )
    }
}

fn contains_type(v: &Vec<RequirementType>, t: RequirementType) -> (r: bool)
    ensures
        r == v@.contains(t),
{
    let mut i: usize = 0;
    while i < v.len()
        invariant
            i <= v@.len(),
            forall|j: int| 0 <= j < i ==> v@[j] != t,
        decreases v.len() - i,
    {
        if v[i] == t {
            return true;
        }
        i = i + 1;
    }
    false
}

fn contains_status(v: &Vec<RequirementStatus>, t: RequirementStatus) -> (r: bool)
    ensures
        r == v@.contains(t),
{
    let mut i: usize = 0;
    while i < v.len()
        invariant
            i <= v@.len(),
            forall|j: int| 0 <= j < i ==> v@[j] != t,
        decreases v.len() - i,
    {
        if v[i] == t {
            return true;
        }
        i = i + 1;
    }
    false
}

fn contains_priority(v: &Vec<RequirementPriority>, t: RequirementPriority) -> (r: bool)
    ensures
        r == v@.contains(t),
{
    let mut i: usize = 0;
    while i < v.len()
        invariant
            i <= v@.len(),
            forall|j: int| 0 <= j < i ==> v@[j] != t,
        decreases v.len() - i,
    {
        if v[i] == t {
            return true;
        }
        i = i + 1;
    }
    false
}

fn prefix_of(r: &Requirement) -> (p: String)
    ensures
        p@ == req_prefix(*r),
{
    match &r.spec_id {
        Some(s) => split_first(s.as_str(), '-'),
        None => String::new(),
    }
}

fn sets_pass(
    types: &Vec<RequirementType>,
    features: &Vec<String>,
    prefixes: &Vec<String>,
    statuses: &Vec<RequirementStatus>,
    priorities: &Vec<RequirementPriority>,
    show_archived: bool,
    r: &Requirement,
) -> (b: bool)
    ensures
        b == passes_sets(types@, features@, prefixes@, statuses@, priorities@, show_archived, *r),
{
    if types.len() > 0 && !contains_type(types, r.req_type) {
        return false;
    }
    if features.len() > 0 && !vec_contains_str(features, r.feature.as_str()) {
        return false;
    }
    if prefixes.len() > 0 {
        let p = prefix_of(r);
        if !vec_contains_str(prefixes, p.as_str()) {
            return false;
        }
    }
    if statuses.len() > 0 && !contains_status(statuses, r.status) {
        return false;
    }
    if priorities.len() > 0 && !contains_priority(priorities, r.priority) {
        return false;
    }
    if r.archived && !show_archived {
        return false;
    }
    proof {
        reveal_strlit("");
    }
    true
}

impl ListFilters {
    /// Whether requirement `req` passes the search and the filters; `is_root`
    /// tells whether it stands at the root of the list.
    pub fn passes_filters(&self, req: &Requirement, is_root: bool) -> (r: bool)
        ensures
            r == passes(*self, *req, is_root),
    {
        if self.filter_text.unicode_len() > 0 && !self.search_scope.is_none() {
            let search = to_lower(self.filter_text.as_str());
            let mut found = false;
            if self.search_scope.title {
                let t = to_lower(req.title.as_str());
                found = contains_str(t.as_str(), search.as_str());
            }
            if !found && self.search_scope.description {
                let d = to_lower(req.description.as_str());
                found = contains_str(d.as_str(), search.as_str());
            }
            if !found && self.search_scope.spec_id {
                match &req.spec_id {
                    Some(s) => {
                        let l = to_lower(s.as_str());
                        found = contains_str(l.as_str(), search.as_str());
                    },
                    None => {},
                }
            }
            if !found && self.search_scope.comments {
                found = search_comments_recursive(&req.comments, search.as_str());
            }
            if !found {
                return false;
            }
        }
        if is_root || self.children_same_as_root {
            sets_pass(
                &self.filter_types,
                &self.filter_features,
                &self.filter_prefixes,
                &self.filter_statuses,
                &self.filter_priorities,
                self.show_archived,
                req,
            )
        } else {
            sets_pass(
                &self.child_filter_types,
                &self.child_filter_features,
                &self.child_filter_prefixes,
                &self.child_filter_statuses,
                &self.child_filter_priorities,
                self.show_archived,
                req,
            )
        }
    }
}

// ---------------------------------------------------------------------------
// Tree views
// ---------------------------------------------------------------------------

/// The positions below `n`, in increasing order, at which `p` holds.
pub open spec fn positions_where(n: int, p: spec_fn(int) -> bool) -> Seq<usize>
    decreases n,
{
    if n <= 0 {
        Seq::empty()
    } else if p(n - 1) {
        positions_where(n - 1, p).push((n - 1) as usize)
    } else {
        positions_where(n - 1, p)
    }
}

/// Whether some requirement of `s` has a relationship of kind `k` to `id`.
pub open spec fn targeted(s: Seq<Requirement>, id: u128, k: RelKind) -> bool {
    exists|j: int| 0 <= j < s.len() && has_rel((#[trigger] s[j]).relationships@, id, k)
}

fn has_kind_exec(rels: &Vec<crate::requirement::Relationship>, kind: &RelationshipType) -> (r: bool)
    ensures
        r == has_kind(rels@, kind@),
{
    let mut i: usize = 0;
    while i < rels.len()
        invariant
            i <= rels@.len(),
            forall|j: int| 0 <= j < i ==> (#[trigger] rels@[j]).rel_type@ != kind@,
        decreases rels.len() - i,
    {
        if rels[i].rel_type.same_as(kind) {
            return true;
        }
        i = i + 1;
    }
    false
}

fn has_rel_exec(rels: &Vec<crate::requirement::Relationship>, target: u128, kind: &RelationshipType) -> (r: bool)
    ensures
        r == has_rel(rels@, target, kind@),
{
    let mut i: usize = 0;
    while i < rels.len()
        invariant
            i <= rels@.len(),
            forall|j: int| 0 <= j < i ==> !rel_is(#[trigger] rels@[j], target, kind@),
        decreases rels.len() - i,
    {
        if rels[i].target_id == target && rels[i].rel_type.same_as(kind) {
            proof {
                assert(rel_is(rels@[i as int], target, kind@));
            }
            return true;
        }
        i = i + 1;
    }
    false
}

fn ids_contain(v: &Vec<u128>, x: u128) -> (r: bool)
    ensures
        r == v@.contains(x),
{
    let mut i: usize = 0;
    while i < v.len()
        invariant
            i <= v@.len(),
            forall|j: int| 0 <= j < i ==> v@[j] != x,
        decreases v.len() - i,
    {
        if v[i] == x {
            return true;
        }
        i = i + 1;
    }
    false
}

fn is_targeted(reqs: &Vec<Requirement>, id: u128, kind: &RelationshipType) -> (r: bool)
    ensures
        r == targeted(reqs@, id, kind@),
{
    let mut j: usize = 0;
    while j < reqs.len()
        invariant
            j <= reqs@.len(),
            forall|a: int| 0 <= a < j ==> !has_rel((#[trigger] reqs@[a]).relationships@, id, kind@),
        decreases reqs.len() - j,
    {
        if has_rel_exec(&reqs[j].relationships, id, kind) {
            return true;
        }
        j = j + 1;
    }
    false
}

/// The relationship a drop creates, as (source, target, kind): none onto
/// itself or in the flat list; else the perspective's outgoing kind, from
/// the dragged requirement to the target top-down and the other way
/// bottom-up.
pub open spec fn drop_result(p: Perspective, d: PerspectiveDirection, dragged: usize, target: usize) -> Option<
    (usize, usize, RelationshipType),
> {
    let kind = match p {
        Perspective::ParentChild => RelationshipType::Parent,
        Perspective::Verification => RelationshipType::Verifies,
        _ => RelationshipType::References,
    };
    if dragged == target || p == Perspective::Flat {
        None
    } else {
        match d {
            PerspectiveDirection::TopDown => Some((dragged, target, kind)),
            PerspectiveDirection::BottomUp => Some((target, dragged, kind)),
        }
    }
}

impl ListFilters {
    /// The positions of the requirements shown first in a bottom-up tree:
    /// those that pass the root filters and have no relationship of kind
    /// `outgoing_rel_type`.
    pub fn find_tree_leaves(&self, reqs: &Vec<Requirement>, outgoing_rel_type: &RelationshipType) -> (r: Vec<usize>)
        ensures
            r@ == positions_where(
                reqs@.len() as int,
                |i: int| passes(*self, reqs@[i], true) && !has_kind(reqs@[i].relationships@, outgoing_rel_type@),
            ),
    {
        let ghost p = |i: int| passes(*self, reqs@[i], true) && !has_kind(reqs@[i].relationships@, outgoing_rel_type@);
        let mut r: Vec<usize> = Vec::new();
        let mut i: usize = 0;
        while i < reqs.len()
            invariant
                i <= reqs@.len(),
                r@ == positions_where(i as int, p),
                p == (|i: int| passes(*self, reqs@[i], true) && !has_kind(reqs@[i].relationships@, outgoing_rel_type@)),
            decreases reqs.len() - i,
        {
            if self.passes_filters(&reqs[i], true) && !has_kind_exec(&reqs[i].relationships, outgoing_rel_type) {
                r.push(i);
            }
            i = i + 1;
        }
        r
    }

    /// The positions of the requirements that have a relationship of kind
    /// `outgoing_rel_type` to `child_id` and pass the child filters.
    pub fn get_parents(&self, reqs: &Vec<Requirement>, child_id: &u128, outgoing_rel_type: &RelationshipType) -> (r:
        Vec<usize>)
        ensures
            r@ == positions_where(
                reqs@.len() as int,
                |i: int| passes(*self, reqs@[i], false) && has_rel(reqs@[i].relationships@, *child_id, outgoing_rel_type@),
            ),
    {
        let ghost p = |i: int| passes(*self, reqs@[i], false) && has_rel(reqs@[i].relationships@, *child_id, outgoing_rel_type@);
        let mut r: Vec<usize> = Vec::new();
        let mut i: usize = 0;
        while i < reqs.len()
            invariant
                i <= reqs@.len(),
                r@ == positions_where(i as int, p),
                p == (|i: int| passes(*self, reqs@[i], false) && has_rel(reqs@[i].relationships@, *child_id, outgoing_rel_type@)),
            decreases reqs.len() - i,
        {
            if self.passes_filters(&reqs[i], false) && has_rel_exec(&reqs[i].relationships, *child_id, outgoing_rel_type) {
                r.push(i);
            }
            i = i + 1;
        }
        r
    }

    /// The positions of the roots of a top-down tree: requirements that no
    /// requirement has a relationship of kind `outgoing_rel_type` to, and
    /// that pass the root filters or are among `ancestors_to_show`.
    pub fn find_tree_roots_with_ancestors(
        &self,
        reqs: &Vec<Requirement>,
        outgoing_rel_type: &RelationshipType,
        ancestors_to_show: &Vec<u128>,
    ) -> (r: Vec<usize>)
        ensures
            r@ == positions_where(
                reqs@.len() as int,
                |i: int|
                    !targeted(reqs@, reqs@[i].id, outgoing_rel_type@) && (passes(*self, reqs@[i], true)
                        || ancestors_to_show@.contains(reqs@[i].id)),
            ),
    {
        let ghost p = |i: int|
            !targeted(reqs@, reqs@[i].id, outgoing_rel_type@) && (passes(*self, reqs@[i], true)
                || ancestors_to_show@.contains(reqs@[i].id));
        let mut r: Vec<usize> = Vec::new();
        let mut i: usize = 0;
        while i < reqs.len()
            invariant
                i <= reqs@.len(),
                r@ == positions_where(i as int, p),
                p == (|i: int|
                    !targeted(reqs@, reqs@[i].id, outgoing_rel_type@) && (passes(*self, reqs@[i], true)
                        || ancestors_to_show@.contains(reqs@[i].id))),
            decreases reqs.len() - i,
        {
            if !is_targeted(reqs, reqs[i].id, outgoing_rel_type) && (self.passes_filters(&reqs[i], true)
                || ids_contain(ancestors_to_show, reqs[i].id)) {
                r.push(i);
            }
            i = i + 1;
        }
        r
    }

    /// The positions of the roots of a top-down tree, as
    /// `find_tree_roots_with_ancestors` with no ancestors to show.
    pub fn find_tree_roots(&self, reqs: &Vec<Requirement>, outgoing_rel_type: &RelationshipType) -> (r: Vec<usize>)
        ensures
            r@ == positions_where(
                reqs@.len() as int,
                |i: int| !targeted(reqs@, reqs@[i].id, outgoing_rel_type@) && passes(*self, reqs@[i], true),
            ),
    {
        let none: Vec<u128> = Vec::new();
        let r = self.find_tree_roots_with_ancestors(reqs, outgoing_rel_type, &none);
        proof {
            assert((|i: int|
                !targeted(reqs@, reqs@[i].id, outgoing_rel_type@) && (passes(*self, reqs@[i], true)
                    || none@.contains(reqs@[i].id))) =~= (|i: int|
                !targeted(reqs@, reqs@[i].id, outgoing_rel_type@) && passes(*self, reqs@[i], true)));
        }
        r
    }

    /// The positions of the children of `parent_id` in a top-down tree: the
    /// requirements that the first requirement with that identifier has a
    /// relationship of kind `outgoing_rel_type` to, and that pass the child
    /// filters or are among `ancestors_to_show`; none when there is no such
    /// requirement.
    pub fn get_children_with_ancestors(
        &self,
        reqs: &Vec<Requirement>,
        parent_id: &u128,
        outgoing_rel_type: &RelationshipType,
        ancestors_to_show: &Vec<u128>,
    ) -> (r: Vec<usize>)
        ensures
            !has_id(reqs@, *parent_id) ==> r@.len() == 0,
            forall|pi: int|
                #[trigger] first_with_id(reqs@, *parent_id, pi) ==> r@ == positions_where(
                    reqs@.len() as int,
                    |i: int|
                        has_rel(reqs@[pi].relationships@, reqs@[i].id, outgoing_rel_type@) && (passes(
                            *self,
                            reqs@[i],
                            false,
                        ) || ancestors_to_show@.contains(reqs@[i].id)),
                ),
    {
        let mut pi: usize = 0;
        while pi < reqs.len() && reqs[pi].id != *parent_id
            invariant
                pi <= reqs@.len(),
                forall|j: int| 0 <= j < pi ==> (#[trigger] reqs@[j]).id != *parent_id,
            decreases reqs.len() - pi,
        {
            pi = pi + 1;
        }
        if pi == reqs.len() {
            return Vec::new();
        }
        proof {
            assert(first_with_id(reqs@, *parent_id, pi as int));
            assert forall|x: int| #[trigger] first_with_id(reqs@, *parent_id, x) implies x == pi by {
                if x < pi {
                    assert(reqs@[x].id != *parent_id);
                } else if pi < x {
                    assert(reqs@[pi as int].id != *parent_id);
                }
            }
        }
        let ghost p = |i: int|
            has_rel(reqs@[pi as int].relationships@, reqs@[i].id, outgoing_rel_type@) && (passes(*self, reqs@[i], false)
                || ancestors_to_show@.contains(reqs@[i].id));
        let parent = &reqs[pi];
        let mut r: Vec<usize> = Vec::new();
        let mut i: usize = 0;
        while i < reqs.len()
            invariant
                i <= reqs@.len(),
                pi < reqs@.len(),
                *parent == reqs@[pi as int],
                r@ == positions_where(i as int, p),
                p == (|i: int|
                    has_rel(reqs@[pi as int].relationships@, reqs@[i].id, outgoing_rel_type@) && (passes(
                        *self,
                        reqs@[i],
                        false,
                    ) || ancestors_to_show@.contains(reqs@[i].id))),
            decreases reqs.len() - i,
        {
            if has_rel_exec(&parent.relationships, reqs[i].id, outgoing_rel_type) && (self.passes_filters(&reqs[i], false)
                || ids_contain(ancestors_to_show, reqs[i].id)) {
                r.push(i);
            }
            i = i + 1;
        }
        r
    }

    /// The positions of the children of `parent_id`, as
    /// `get_children_with_ancestors` with no ancestors to show.
    pub fn get_children(&self, reqs: &Vec<Requirement>, parent_id: &u128, outgoing_rel_type: &RelationshipType) -> (r:
        Vec<usize>)
        ensures
            !has_id(reqs@, *parent_id) ==> r@.len() == 0,
            forall|pi: int|
                #[trigger] first_with_id(reqs@, *parent_id, pi) ==> r@ == positions_where(
                    reqs@.len() as int,
                    |i: int|
                        has_rel(reqs@[pi].relationships@, reqs@[i].id, outgoing_rel_type@) && passes(
                            *self,
                            reqs@[i],
                            false,
                        ),
                ),
    {
        let none: Vec<u128> = Vec::new();
        let r = self.get_children_with_ancestors(reqs, parent_id, outgoing_rel_type, &none);
        proof {
            assert forall|pi: int| #[trigger] first_with_id(reqs@, *parent_id, pi) implies (|i: int|
                has_rel(reqs@[pi].relationships@, reqs@[i].id, outgoing_rel_type@) && (passes(*self, reqs@[i], false)
                    || none@.contains(reqs@[i].id))) =~= (|i: int|
                has_rel(reqs@[pi].relationships@, reqs@[i].id, outgoing_rel_type@) && passes(*self, reqs@[i], false)) by {
            }
        }
        r
    }

    /// The relationship that dropping requirement `dragged_idx` onto
    /// `drop_target_idx` creates, as (source, target, kind): in a tree
    /// perspective, top-down the dragged one gets the outgoing kind to the
    /// target, bottom-up the target gets it to the dragged one; none for the
    /// same requirement or the flat list.
    pub fn get_relationship_for_drop(&self, dragged_idx: usize, drop_target_idx: usize) -> (r: Option<
        (usize, usize, RelationshipType),
    >)
        ensures
            r == drop_result(self.perspective, self.perspective_direction, dragged_idx, drop_target_idx),
    {
        if dragged_idx == drop_target_idx {
            return None;
        }
        let (outgoing, _incoming) = match self.perspective.relationship_types() {
            Some(pair) => pair,
            None => {
                return None;
            },
        };
        match self.perspective_direction {
            PerspectiveDirection::TopDown => Some((dragged_idx, drop_target_idx, outgoing)),
            PerspectiveDirection::BottomUp => Some((drop_target_idx, dragged_idx, outgoing)),
        }
    }
}

/// The features of the requirements `s`.
pub open spec fn feature_set(s: Seq<Requirement>) -> Set<Seq<char>> {
    Set::new(|f: Seq<char>| exists|i: int| 0 <= i < s.len() && (#[trigger] s[i]).feature@ == f)
}

/// The features of the requirements, each once, in character order.
pub fn get_all_features(reqs: &Vec<Requirement>) -> (r: Vec<String>)
    ensures
        lists_in_order(views(r@), feature_set(reqs@)),
{
    let mut out: Vec<String> = Vec::new();
    let mut i: usize = 0;
    proof {
        assert(views(out@).to_set() =~= feature_set(reqs@.take(0)));
    }
    while i < reqs.len()
        invariant
            i <= reqs@.len(),
            lists_in_order(views(out@), feature_set(reqs@.take(i as int))),
        decreases reqs.len() - i,
    {
        proof {
            let t = reqs@.take(i as int + 1);
            assert(feature_set(t) =~= feature_set(reqs@.take(i as int)).insert(reqs@[i as int].feature@)) by {
                assert forall|f: Seq<char>| feature_set(t).contains(f) implies feature_set(reqs@.take(i as int)).insert(
                    reqs@[i as int].feature@,
                ).contains(f) by {
                    let k = choose|k: int| 0 <= k < t.len() && (#[trigger] t[k]).feature@ == f;
                    if k < i {
                        assert(reqs@.take(i as int)[k] == t[k]);
                    }
                }
                assert forall|f: Seq<char>| feature_set(reqs@.take(i as int)).insert(reqs@[i as int].feature@).contains(f)
                    implies feature_set(t).contains(f) by {
                    if f == reqs@[i as int].feature@ {
                        assert(t[i as int] == reqs@[i as int]);
                    } else {
                        let k = choose|k: int| 0 <= k < i && (#[trigger] reqs@.take(i as int)[k]).feature@ == f;
                        assert(t[k] == reqs@.take(i as int)[k]);
                    }
                }
            }
        }
        insert_sorted_unique(&mut out, reqs[i].feature.clone());
        i = i + 1;
    }
    proof {
        assert(reqs@.take(reqs@.len() as int) =~= reqs@);
    }
    out
}

// ---------------------------------------------------------------------------
// Ancestors of matching requirements
// ---------------------------------------------------------------------------

/// Whether `b` can be reached from `a` along kind `k` in one step or more.
pub open spec fn reaches_beyond(s: Seq<Requirement>, a: u128, b: u128, k: RelKind) -> bool {
    exists|p: Seq<u128>| #[trigger] is_path(s, p, k) && p.len() >= 2 && p[0] == a && p.last() == b
}

/// Whether `x` is the identifier of a requirement of `s` that passes the
/// child filters of `f`.
pub open spec fn matching_id(f: ListFilters, s: Seq<Requirement>, x: u128) -> bool {
    exists|i: int| 0 <= i < s.len() && (#[trigger] s[i]).id == x && passes(f, s[i], false)
}

/// Whether `y` is shown greyed out as an ancestor: it can be reached along
/// kind `k` from a requirement that passes the child filters, and is not the
/// identifier of one itself.
pub open spec fn shown_ancestor(f: ListFilters, s: Seq<Requirement>, k: RelKind, y: u128) -> bool {
    &&& exists|x: u128| matching_id(f, s, x) && #[trigger] reaches_beyond(s, x, y, k)
    &&& !matching_id(f, s, y)
}

proof fn lemma_beyond_holds(
    s: Seq<Requirement>,
    vset: Set<u128>,
    aset: Set<u128>,
    p: Seq<u128>,
    k: RelKind,
)
    requires
        is_path(s, p, k),
        p.len() >= 2,
        vset.contains(p[0]),
        forall|x: u128, y: u128|
            vset.contains(x) && #[trigger] follows(s, x, y, k) ==> aset.contains(y) && vset.contains(y),
    ensures
        aset.contains(p.last()),
        vset.contains(p.last()),
    decreases p.len(),
{
    if p.len() == 2 {
        let j = 0int;
        assert(follows(s, p[j], p[j + 1], k));
    } else {
        let q = p.drop_last();
        assert forall|j: int| 0 <= j < q.len() - 1 implies #[trigger] follows(s, q[j], q[j + 1], k) by {
            assert(follows(s, p[j], p[j + 1], k));
        }
        lemma_beyond_holds(s, vset, aset, q, k);
        let j = p.len() - 2;
        assert(follows(s, p[j], p[j + 1], k));
        assert(q.last() == p[j]);
    }
}

/// A copy of a list of identifiers.
fn copy_ids(v: &Vec<u128>) -> (r: Vec<u128>)
    ensures
        r@ == v@,
{
    let mut r: Vec<u128> = Vec::new();
    let mut i: usize = 0;
    while i < v.len()
        invariant
            i <= v@.len(),
            r@ == v@.take(i as int),
        decreases v.len() - i,
    {
        r.push(v[i]);
        i = i + 1;
        proof {
            assert(r@ =~= v@.take(i as int));
        }
    }
    proof {
        assert(v@.take(v@.len() as int) =~= v@);
    }
    r
}

/// The position of the first requirement of `reqs` with identifier `id`.
fn first_index_with_id(reqs: &Vec<Requirement>, id: u128) -> (r: Option<usize>)
    ensures
        match r {
            Some(i) => first_with_id(reqs@, id, i as int),
            None => !has_id(reqs@, id),
        },
{
    let mut i: usize = 0;
    while i < reqs.len()
        invariant
            i <= reqs@.len(),
            forall|j: int| 0 <= j < i ==> (#[trigger] reqs@[j]).id != id,
        decreases reqs.len() - i,
    {
        if reqs[i].id == id {
            return Some(i);
        }
        i = i + 1;
    }
    None
}

impl ListFilters {
    /// The identifiers to show greyed out as ancestors in a tree of kind
    /// `outgoing_rel_type`: those reachable, along that kind, from a
    /// requirement that passes the child filters, less the identifiers of
    /// such requirements; each once.
    pub fn compute_ancestor_ids_to_show(&self, reqs: &Vec<Requirement>, outgoing_rel_type: &RelationshipType) -> (r:
        Vec<u128>)
        ensures
            r@.no_duplicates(),
            forall|y: u128| r@.contains(y) <==> shown_ancestor(*self, reqs@, outgoing_rel_type@, y),
    {
        let ghost s = reqs@;
        let ghost k = outgoing_rel_type@;
        // the identifiers of the matching requirements
        let mut matching: Vec<u128> = Vec::new();
        let mut i: usize = 0;
        while i < reqs.len()
            invariant
                s == reqs@,
                i <= reqs@.len(),
                forall|x: u128|
                    matching@.contains(x) <==> exists|a: int|
                        0 <= a < i && (#[trigger] s[a]).id == x && passes(*self, s[a], false),
            decreases reqs.len() - i,
        {
            let ghost before = matching@;
            if self.passes_filters(&reqs[i], false) {
                matching.push(reqs[i].id);
                proof {
                    assert forall|x: u128|
                        matching@.contains(x) <==> exists|a: int|
                            0 <= a < i + 1 && (#[trigger] s[a]).id == x && passes(*self, s[a], false) by {
                        if matching@.contains(x) {
                            let w = choose|w: int| 0 <= w < matching@.len() && matching@[w] == x;
                            if w < before.len() {
                                assert(before[w] == x);
                                assert(before.contains(x));
                            } else {
                                assert(s[i as int].id == x);
                            }
                        }
                        if exists|a: int| 0 <= a < i + 1 && (#[trigger] s[a]).id == x && passes(*self, s[a], false) {
                            let a = choose|a: int| 0 <= a < i + 1 && (#[trigger] s[a]).id == x && passes(*self, s[a], false);
                            if a < i {
                                assert(before.contains(x));
                                let w = choose|w: int| 0 <= w < before.len() && before[w] == x;
                                assert(matching@[w] == x);
                            } else {
                                assert(matching@[before.len() as int] == x);
                            }
                        }
                    }
                }
            } else {
                proof {
                    assert forall|x: u128|
                        matching@.contains(x) <==> exists|a: int|
                            0 <= a < i + 1 && (#[trigger] s[a]).id == x && passes(*self, s[a], false) by {
                        if exists|a: int| 0 <= a < i + 1 && (#[trigger] s[a]).id == x && passes(*self, s[a], false) {
                            let a = choose|a: int| 0 <= a < i + 1 && (#[trigger] s[a]).id == x && passes(*self, s[a], false);
                            assert(a < i);
                        }
                    }
                }
            }
            i = i + 1;
        }
        proof {
            assert forall|x: u128| matching@.contains(x) <==> matching_id(*self, s, x) by {
            }
        }
        // the ancestors, by following the relationships from them
        let ghost universe = all_targets(s).to_set() + matching@.to_set();
        proof {
            vstd::seq_lib::seq_to_set_is_finite(all_targets(s));
            vstd::seq_lib::seq_to_set_is_finite(matching@);
        }
        let ghost mut vset: Set<u128> = Set::empty();
        let ghost mut aset: Set<u128> = Set::empty();
        let mut visited: Vec<u128> = Vec::new();
        let mut anc: Vec<u128> = Vec::new();
        let mut stack: Vec<u128> = copy_ids(&matching);
        while stack.len() > 0
            invariant
                s == reqs@,
                k == outgoing_rel_type@,
                universe == all_targets(s).to_set() + matching@.to_set(),
                universe.finite(),
                forall|x: u128| matching@.contains(x) <==> matching_id(*self, s, x),
                forall|x: u128| #[trigger] vset.contains(x) <==> visited@.contains(x),
                forall|x: u128| #[trigger] aset.contains(x) <==> anc@.contains(x),
                anc@.no_duplicates(),
                vset.subset_of(universe),
                forall|j: int| 0 <= j < stack@.len() ==> universe.contains(#[trigger] stack@[j]),
                forall|j: int| 0 <= j < stack@.len() ==> matching@.contains(#[trigger] stack@[j]) || aset.contains(stack@[j]),
                forall|x: u128| #[trigger] vset.contains(x) ==> matching@.contains(x) || aset.contains(x),
                forall|y: u128|
                    #[trigger] aset.contains(y) ==> exists|x: u128| matching_id(*self, s, x) && #[trigger] reaches_beyond(s, x, y, k),
                forall|x: u128, y: u128|
                    vset.contains(x) && #[trigger] follows(s, x, y, k) ==> aset.contains(y) && (vset.contains(y) || stack@.contains(y)),
                forall|x: u128| matching@.contains(x) ==> vset.contains(x) || stack@.contains(x),
            decreases universe.difference(vset).len(), stack@.len(),
        {
            let ghost top = stack@;
            let ghost vset_before = vset;
            let ghost aset_head = aset;
            let current = stack.pop().unwrap();
            proof {
                assert(top[top.len() - 1] == current);
                assert(stack@ =~= top.drop_last());
                assert(matching@.contains(current) || aset.contains(current));
            }
            if !vec_has(&visited, current) {
                let ghost stack_before = stack@;
                let ghost vis_before = visited@;
                visited.push(current);
                proof {
                    assert(universe.contains(current));
                    universe.lemma_set_insert_diff_decreases(vset, current);
                    vset = vset.insert(current);
                    assert forall|x: u128| #[trigger] vset.contains(x) <==> visited@.contains(x) by {
                        if visited@.contains(x) && x != current {
                            let w = choose|w: int| 0 <= w < visited@.len() && visited@[w] == x;
                            assert(vis_before[w] == x);
                            assert(vis_before.contains(x));
                        }
                        if vis_before.contains(x) {
                            let w = choose|w: int| 0 <= w < vis_before.len() && vis_before[w] == x;
                            assert(visited@[w] == x);
                        }
                        if x == current {
                            assert(visited@[visited@.len() - 1] == current);
                        }
                    }
                }
                match first_index_with_id(reqs, current) {
                    Some(ci) => {
                        let rels = &reqs[ci].relationships;
                        let mut m: usize = 0;
                        while m < rels.len()
                            invariant
                                s == reqs@,
                                k == outgoing_rel_type@,
                                first_with_id(s, current, ci as int),
                                *rels == s[ci as int].relationships,
                                m <= rels@.len(),
                                universe == all_targets(s).to_set() + matching@.to_set(),
                                forall|x: u128| #[trigger] aset.contains(x) <==> anc@.contains(x),
                                anc@.no_duplicates(),
                                forall|j: int| 0 <= j < stack_before.len() ==> stack@[j] == stack_before[j],
                                stack@.len() >= stack_before.len(),
                                forall|j: int|
                                    0 <= j < m && (#[trigger] rels@[j]).rel_type@ == k ==> stack@.contains(rels@[j].target_id)
                                        && aset.contains(rels@[j].target_id),
                                forall|j: int| 0 <= j < stack@.len() ==> universe.contains(#[trigger] stack@[j]),
                                forall|j: int|
                                    0 <= j < stack@.len() ==> matching@.contains(#[trigger] stack@[j]) || aset.contains(stack@[j]),
                                matching@.contains(current) || aset.contains(current),
                                forall|y: u128| aset_head.contains(y) ==> #[trigger] aset.contains(y),
                                forall|x: u128| matching@.contains(x) <==> matching_id(*self, s, x),
                                forall|y: u128|
                                    #[trigger] aset.contains(y) ==> exists|x: u128|
                                        matching_id(*self, s, x) && #[trigger] reaches_beyond(s, x, y, k),
                            decreases rels.len() - m,
                        {
                            if rels[m].rel_type.same_as(outgoing_rel_type) {
                                let t = rels[m].target_id;
                                let ghost prev = stack@;
                                let ghost prev_a = aset;
                                proof {
                                    assert(rel_is(rels@[m as int], t, k));
                                    assert(follows(s, current, t, k));
                                    lemma_follows_in_universe(s, current, t, k);
                                    // t lies beyond a matching requirement
                                    if matching@.contains(current) {
                                        let p = seq![current, t];
                                        assert(is_path(s, p, k)) by {
                                            assert(follows(s, p[0], p[1], k));
                                        }
                                        assert(reaches_beyond(s, current, t, k));
                                    } else {
                                        let x = choose|x: u128| matching_id(*self, s, x) && #[trigger] reaches_beyond(s, x, current, k);
                                        let p = choose|p: Seq<u128>| #[trigger] is_path(s, p, k) && p.len() >= 2 && p[0] == x && p.last() == current;
                                        lemma_path_extend(s, p, t, k);
                                        assert(reaches_beyond(s, x, t, k));
                                    }
                                }
                                if !vec_has(&anc, t) {
                                    let ghost anc_before = anc@;
                                    anc.push(t);
                                    proof {
                                        aset = aset.insert(t);
                                        assert forall|x: u128| #[trigger] aset.contains(x) <==> anc@.contains(x) by {
                                            if anc@.contains(x) && x != t {
                                                let w = choose|w: int| 0 <= w < anc@.len() && anc@[w] == x;
                                                assert(w < anc@.len() - 1);
                                                assert(anc_before[w] == x);
                                                assert(anc_before.contains(x));
                                                assert(prev_a.contains(x));
                                            }
                                            if prev_a.contains(x) {
                                                assert(anc_before.contains(x));
                                                let w = choose|w: int| 0 <= w < anc_before.len() && anc_before[w] == x;
                                                assert(anc@[w] == x);
                                            }
                                            if x == t {
                                                assert(anc@[anc@.len() - 1] == t);
                                            }
                                        }
                                    }
                                }
                                stack.push(t);
                                proof {
                                    assert(stack@[stack@.len() - 1] == t);
                                    assert forall|j: int|
                                        0 <= j < m + 1 && (#[trigger] rels@[j]).rel_type@ == k implies stack@.contains(
                                        rels@[j].target_id,
                                    ) && aset.contains(rels@[j].target_id) by {
                                        if j < m {
                                            let w = choose|w: int| 0 <= w < prev.len() && prev[w] == rels@[j].target_id;
                                            assert(stack@[w] == prev[w]);
                                        }
                                    }
                                }
                            }
                            m = m + 1;
                        }
                        proof {
                            assert forall|y: u128| #[trigger] follows(s, current, y, k) implies aset.contains(y) && stack@.contains(y) by {
                                let i2 = choose|i2: int|
                                    #[trigger] first_with_id(s, current, i2) && has_rel(s[i2].relationships@, y, k);
                                if i2 < ci {
                                    assert(s[i2].id != current);
                                } else if (ci as int) < i2 {
                                    assert(s[ci as int].id != current);
                                }
                                let j = choose|j: int|
                                    0 <= j < s[ci as int].relationships@.len() && rel_is(
                                        #[trigger] s[ci as int].relationships@[j],
                                        y,
                                        k,
                                    );
                                assert(rels@[j].rel_type@ == k);
                            }
                        }
                    },
                    None => {
                        proof {
                            assert forall|y: u128| !#[trigger] follows(s, current, y, k) by {
                                if follows(s, current, y, k) {
                                    let i2 = choose|i2: int|
                                        #[trigger] first_with_id(s, current, i2) && has_rel(s[i2].relationships@, y, k);
                                    assert(s[i2].id == current);
                                }
                            }
                        }
                    },
                }
                proof {
                    assert forall|x: u128, y: u128|
                        vset.contains(x) && #[trigger] follows(s, x, y, k) implies aset.contains(y) && (vset.contains(y)
                            || stack@.contains(y)) by {
                        if x != current {
                            assert(vset_before.contains(x));
                            assert(aset_head.contains(y));
                            if !vset.contains(y) {
                                assert(top.contains(y));
                                let w = choose|w: int| 0 <= w < top.len() && top[w] == y;
                                if w < top.len() - 1 {
                                    assert(stack_before[w] == y);
                                    assert(stack@[w] == y);
                                }
                            }
                        }
                    }
                    assert forall|x: u128| matching@.contains(x) implies vset.contains(x) || stack@.contains(x) by {
                        if !vset.contains(x) {
                            assert(top.contains(x));
                            let w = choose|w: int| 0 <= w < top.len() && top[w] == x;
                            if w < top.len() - 1 {
                                assert(stack_before[w] == x);
                                assert(stack@[w] == x);
                            }
                        }
                    }
                }
            } else {
                proof {
                    assert(vset.contains(current));
                    assert forall|x: u128, y: u128|
                        vset.contains(x) && #[trigger] follows(s, x, y, k) implies aset.contains(y) && (vset.contains(y)
                            || stack@.contains(y)) by {
                        if !vset.contains(y) {
                            assert(top.contains(y));
                            let w = choose|w: int| 0 <= w < top.len() && top[w] == y;
                            if w < top.len() - 1 {
                                assert(stack@[w] == y);
                            }
                        }
                    }
                    assert forall|x: u128| matching@.contains(x) implies vset.contains(x) || stack@.contains(x) by {
                        if !vset.contains(x) {
                            assert(top.contains(x));
                            let w = choose|w: int| 0 <= w < top.len() && top[w] == x;
                            if w < top.len() - 1 {
                                assert(stack@[w] == x);
                            }
                        }
                    }
                }
            }
        }
        proof {
            assert forall|y: u128| aset.contains(y) <==> exists|x: u128|
                matching_id(*self, s, x) && #[trigger] reaches_beyond(s, x, y, k) by {
                if exists|x: u128| matching_id(*self, s, x) && #[trigger] reaches_beyond(s, x, y, k) {
                    let x = choose|x: u128| matching_id(*self, s, x) && #[trigger] reaches_beyond(s, x, y, k);
                    let p = choose|p: Seq<u128>| #[trigger] is_path(s, p, k) && p.len() >= 2 && p[0] == x && p.last() == y;
                    assert(matching@.contains(x));
                    lemma_beyond_holds(s, vset, aset, p, k);
                }
            }
        }
        // less the matching requirements themselves
        let mut out: Vec<u128> = Vec::new();
        let mut j: usize = 0;
        while j < anc.len()
            invariant
                j <= anc@.len(),
                anc@.no_duplicates(),
                out@.no_duplicates(),
                forall|y: u128| out@.contains(y) <==> exists|a: int| 0 <= a < j && anc@[a] == y && !matching@.contains(y),
                forall|x: u128| matching@.contains(x) <==> matching_id(*self, s, x),
                forall|x: u128| #[trigger] aset.contains(x) <==> anc@.contains(x),
                forall|y: u128| aset.contains(y) <==> exists|x: u128|
                    matching_id(*self, s, x) && #[trigger] reaches_beyond(s, x, y, k),
                s == reqs@,
                k == outgoing_rel_type@,
            decreases anc.len() - j,
        {
            let y = anc[j];
            if !vec_has(&matching, y) {
                let ghost before = out@;
                out.push(y);
                proof {
                    assert(!before.contains(y)) by {
                        if before.contains(y) {
                            let a = choose|a: int| 0 <= a < j && anc@[a] == y && !matching@.contains(y);
                            assert(anc@[j as int] == y);
                        }
                    }
                    assert forall|y2: u128| out@.contains(y2) <==> exists|a: int| 0 <= a < j + 1 && anc@[a] == y2 && !matching@.contains(y2) by {
                        if out@.contains(y2) {
                            let w = choose|w: int| 0 <= w < out@.len() && out@[w] == y2;
                            if w < before.len() {
                                assert(before[w] == y2);
                                assert(before.contains(y2));
                            }
                        }
                        if exists|a: int| 0 <= a < j + 1 && anc@[a] == y2 && !matching@.contains(y2) {
                            let a = choose|a: int| 0 <= a < j + 1 && anc@[a] == y2 && !matching@.contains(y2);
                            if a < j {
                                assert(before.contains(y2));
                                let w = choose|w: int| 0 <= w < before.len() && before[w] == y2;
                                assert(out@[w] == y2);
                            } else {
                                assert(out@[before.len() as int] == y2);
                            }
                        }
                    }
                }
            }
            j = j + 1;
        }
        proof {
            assert forall|y: u128| out@.contains(y) <==> shown_ancestor(*self, reqs@, outgoing_rel_type@, y) by {
                if shown_ancestor(*self, reqs@, outgoing_rel_type@, y) {
                    assert(aset.contains(y));
                    assert(anc@.contains(y));
                    let a = choose|a: int| 0 <= a < anc@.len() && anc@[a] == y;
                    assert(!matching@.contains(y));
                }
                if out@.contains(y) {
                    let a = choose|a: int| 0 <= a < anc@.len() && anc@[a] == y && !matching@.contains(y);
                    assert(anc@.contains(y));
                    assert(aset.contains(y));
                }
            }
        }
        out
    }
}

// ---------------------------------------------------------------------------
// Display helpers
// ---------------------------------------------------------------------------

/// Whether a status text marks a requirement as inactive (shown greyed out):
/// in lowercase it contains `completed`, `done`, `rejected`, `closed` or
/// `verified`.
pub open spec fn inactive_status(status: Seq<char>) -> bool {
    let s = lowercase(status);
    ||| has_substring(s, "completed"@)
    ||| has_substring(s, "done"@)
    ||| has_substring(s, "rejected"@)
    ||| has_substring(s, "closed"@)
    ||| has_substring(s, "verified"@)
}

/// Whether a status text marks a requirement as inactive.
pub fn is_inactive_status(status_string: &str) -> (r: bool)
    ensures
        r == inactive_status(status_string@),
{
    let s = to_lower(status_string);
    contains_str(s.as_str(), "completed") || contains_str(s.as_str(), "done") || contains_str(
        s.as_str(),
        "rejected",
    ) || contains_str(s.as_str(), "closed") || contains_str(s.as_str(), "verified")
}

/// The name shown for a custom field type.
pub fn field_type_display(field_type: &CustomFieldType) -> (r: &'static str)
    ensures
        r@ == crate::model::field_type_text(*field_type),
{
    match field_type {
        CustomFieldType::Text => "Text",
        CustomFieldType::TextArea => "Text Area",
        CustomFieldType::Select => "Select",
        CustomFieldType::Boolean => "Boolean",
        CustomFieldType::Date => "Date",
        CustomFieldType::User => "User Reference",
        CustomFieldType::Requirement => "Requirement Reference",
        CustomFieldType::Number => "Number",
    }
}

} // verus!
