//! What the editor's commands do to the store: archiving and deleting
//! requirements, comments and their reactions, and users.
use vstd::prelude::*;
use crate::catalog::{first_user_with_id, meta_id_text};
use crate::comment::{has_reaction_by, is_reaction_by, without_reaction, Comment};
use crate::editing::{change_views, ChangeView};
use crate::numbering::{counter_map, counter_of, counters_at_most};
use crate::requirement::{HistoryEntry, Requirement, UrlLink, User};
use crate::store::{RequirementsStore, StoreError, META_PREFIX_USER};
use crate::listing::{drop_result, ListFilters};
use crate::model::{
    priority_text, rel_kind_inverse, rel_kind_name, status_text, FieldChange, RelKind, RelationshipDefinition,
    RelationshipType, RequirementPriority, RequirementStatus,
};
use crate::relations::{cleared, find_def, first_index, validation_of};
use crate::store::{added_rel, touched_inverse};
use crate::text::{join_texts, joined, lowercase, owned, str_eq};
use crate::thread::{changed_at, comment_removed, first_thread_with, in_threads, thread_with, with_reply};

verus! {

/// The text of a truth value: `true` or `false`.
pub open spec fn bool_text(b: bool) -> Seq<char> {
    if b {
        "true"@
    } else {
        "false"@
    }
}

fn bool_string(b: bool) -> (r: String)
    ensures
        r@ == bool_text(b),
{
    if b {
        owned("true")
    } else {
        owned("false")
    }
}

/// History `after` is history `before` with one entry appended, by
/// `author`, recording `changes`.
pub open spec fn recorded(before: Seq<HistoryEntry>, after: Seq<HistoryEntry>, author: Seq<char>, changes: Seq<
    ChangeView,
>) -> bool {
    &&& after.drop_last() == before
    &&& after.len() == before.len() + 1
    &&& after.last().author@ == author
    &&& change_views(after.last().changes@) == changes
}

/// Requirement `e` is `r` with its archive mark flipped, the change
/// recorded by `author`.
pub open spec fn archive_toggled(r: Requirement, e: Requirement, author: Seq<char>) -> bool {
    &&& e == (Requirement { archived: !r.archived, history: e.history, modified_at: e.modified_at, ..r })
    &&& recorded(
        r.history@,
        e.history@,
        author,
        seq![("archived"@, bool_text(r.archived), bool_text(!r.archived))],
    )
}

/// Comment `c` is a new comment by `author` with text `content` answering
/// `parent` (none for a top-level comment), with no replies or reactions.
pub open spec fn new_comment(c: Comment, author: Seq<char>, content: Seq<char>, parent: Option<u128>) -> bool {
    &&& c.author@ == author
    &&& c.content@ == content
    &&& c.parent_id == parent
    &&& c.replies@.len() == 0
    &&& c.reactions@.len() == 0
    &&& c.created_at == c.modified_at
}

/// Requirement `e` is `r` with a new comment by `author` with text
/// `content`: appended at the top level when `parent` is none, else as a
/// reply to the comment `parent` (found as `find_comment_mut` finds it),
/// which `res` refuses when there is no such comment.
pub open spec fn comment_added(
    r: Requirement,
    e: Requirement,
    author: Seq<char>,
    content: Seq<char>,
    parent: Option<u128>,
    res: Result<(), StoreError>,
) -> bool {
    match parent {
        None => res is Ok && e == (Requirement { comments: e.comments, modified_at: e.modified_at, ..r })
            && exists|c: Comment| new_comment(c, author, content, None) && e.comments@ == r.comments@.push(c),
        Some(p) => {
            &&& res is Ok <==> in_threads(r.comments@, p)
            &&& res is Err ==> res == Err::<(), StoreError>(StoreError::ParentCommentNotFound) && e == r
            &&& res is Ok ==> e == (Requirement { comments: e.comments, modified_at: e.modified_at, ..r })
                && exists|i: int, q: Comment, q_new: Comment, c: Comment|
                new_comment(c, author, content, Some(p)) && first_thread_with(r.comments@, p, i) && e.comments@
                    == r.comments@.update(i, e.comments@[i]) && changed_at(r.comments@[i], e.comments@[i], p, q, q_new)
                    && with_reply(q, q_new, c)
        },
    }
}

/// Comment `q_new` is `q` with the reaction `reaction` by `author` removed
/// when it had it, added (at the end) otherwise.
pub open spec fn reaction_toggled(q: Comment, q_new: Comment, reaction: Seq<char>, author: Seq<char>) -> bool {
    let present = !has_reaction_by(q.reactions@, reaction, author);
    &&& has_reaction_by(q_new.reactions@, reaction, author) == present
    &&& !present ==> q_new.reactions@ == without_reaction(q.reactions@, reaction, author)
    &&& present ==> q_new.reactions@.drop_last() == q.reactions@ && is_reaction_by(
        q_new.reactions@.last(),
        reaction,
        author,
    )
    &&& q_new.id == q.id
    &&& q_new.content == q.content
    &&& q_new.replies == q.replies
}

/// The variant name of a built-in relationship kind (custom kinds are never
/// made by dragging).
pub open spec fn kind_variant(k: RelKind) -> Seq<char> {
    match k {
        RelKind::Parent => "Parent"@,
        RelKind::Child => "Child"@,
        RelKind::Duplicate => "Duplicate"@,
        RelKind::Verifies => "Verifies"@,
        RelKind::VerifiedBy => "VerifiedBy"@,
        RelKind::References => "References"@,
        RelKind::Custom(_) => Seq::empty(),
    }
}

fn kind_variant_name(k: &RelationshipType) -> (r: String)
    requires
        !(k@ is Custom),
    ensures
        r@ == kind_variant(k@),
{
    match k {
        RelationshipType::Parent => owned("Parent"),
        RelationshipType::Child => owned("Child"),
        RelationshipType::Duplicate => owned("Duplicate"),
        RelationshipType::Verifies => owned("Verifies"),
        RelationshipType::VerifiedBy => owned("VerifiedBy"),
        RelationshipType::References => owned("References"),
        RelationshipType::Custom(_) => String::new(),
    }
}

/// Whether relationships of kind `k` are made in both directions: the kind
/// has a built-in inverse, or its definition names an inverse or is
/// symmetric.
pub open spec fn has_inverse(defs: Seq<RelationshipDefinition>, k: RelKind) -> bool {
    rel_kind_inverse(k) is Some || match find_def(defs, lowercase(rel_kind_name(k))) {
        Some(d) => d.inverse is Some || d.symmetric,
        None => false,
    }
}

/// The message after a relationship of kind `k` was set: its display name
/// (the variant name when it has no definition), and the warnings, if any.
pub open spec fn drop_success_text(defs: Seq<RelationshipDefinition>, k: RelKind, warnings: Seq<Seq<char>>) -> Seq<
    char,
> {
    let name = match find_def(defs, lowercase(rel_kind_name(k))) {
        Some(d) => d.display_name@,
        None => kind_variant(k),
    };
    let base = "Relationship '"@ + name + "' set"@;
    if warnings.len() > 0 {
        base + " (Warning: "@ + joined(warnings, "; "@) + ")"@
    } else {
        base
    }
}

fn concat2(a: &str, b: &str) -> (r: String)
    ensures
        r@ == a@ + b@,
{
    let mut r = owned(a);
    r.append(b);
    r
}

/// Archiving twice gives the requirement back as it was, but for its
/// history (two entries more) and its modification time.
pub proof fn lemma_archive_twice(r0: Requirement, r1: Requirement, r2: Requirement, a1: Seq<char>, a2: Seq<char>)
    requires
        archive_toggled(r0, r1, a1),
        archive_toggled(r1, r2, a2),
    ensures
        r2 == (Requirement { history: r2.history, modified_at: r2.modified_at, ..r0 }),
        r2.history@.len() == r0.history@.len() + 2,
        r2.history@.drop_last().drop_last() == r0.history@,
{
}

impl RequirementsStore {
    /// Flips the archive mark of the requirement at `idx`, recording the
    /// change by `author`; gives the new mark, or none when there is no
    /// requirement at `idx`.
    pub fn toggle_archive(&mut self, idx: usize, author: String) -> (r: Option<bool>)
        ensures
            match r {
                None => idx >= old(self).requirements@.len() && *final(self) == *old(self),
                Some(now) => idx < old(self).requirements@.len() && now == !old(self).requirements@[idx as int].archived
                    && final(self).requirements@ == old(self).requirements@.update(
                    idx as int,
                    final(self).requirements@[idx as int],
                ) && archive_toggled(old(self).requirements@[idx as int], final(self).requirements@[idx as int], author@),
            },
            *final(self) == (RequirementsStore { requirements: final(self).requirements, ..*old(self) }),
    {
        if idx >= self.requirements.len() {
            return None;
        }
        let req = &mut self.requirements[idx];
        let was = req.archived;
        let now = !was;
        req.archived = now;
        let mut changes: Vec<FieldChange> = Vec::new();
        changes.push(Requirement::field_change("archived", bool_string(was), bool_string(now)));
        proof {
            assert(change_views(changes@) =~= seq![("archived"@, bool_text(was), bool_text(now))]);
        }
        req.record_change(author, changes);
        Some(now)
    }

    /// Removes the requirement at `idx`; false when there is none.
    pub fn delete_requirement(&mut self, idx: usize) -> (r: bool)
        ensures
            r == (idx < old(self).requirements@.len()),
            r ==> final(self).requirements@ == old(self).requirements@.remove(idx as int),
            !r ==> final(self).requirements == old(self).requirements,
            *final(self) == (RequirementsStore { requirements: final(self).requirements, ..*old(self) }),
    {
        if idx < self.requirements.len() {
            self.requirements.remove(idx);
            true
        } else {
            false
        }
    }

    /// Adds a comment by `author` with text `content` to the requirement at
    /// `idx`: at the top level when `parent_id` is none, else as a reply to
    /// that comment (refused when the requirement has no such comment). None
    /// when there is no requirement at `idx`.
    pub fn add_comment_to_requirement(
        &mut self,
        idx: usize,
        author: String,
        content: String,
        parent_id: Option<u128>,
    ) -> (r: Option<Result<(), StoreError>>)
        ensures
            r is None <==> idx >= old(self).requirements@.len(),
            r is None ==> *final(self) == *old(self),
            match r {
                Some(res) => final(self).requirements@ == old(self).requirements@.update(
                    idx as int,
                    final(self).requirements@[idx as int],
                ) && comment_added(
                    old(self).requirements@[idx as int],
                    final(self).requirements@[idx as int],
                    author@,
                    content@,
                    parent_id,
                    res,
                ),
                None => true,
            },
            *final(self) == (RequirementsStore { requirements: final(self).requirements, ..*old(self) }),
    {
        if idx >= self.requirements.len() {
            return None;
        }
        let req = &mut self.requirements[idx];
        match parent_id {
            Some(parent) => {
                let reply = Comment::new_reply(author, content, parent);
                let ghost c = reply;
                let res = req.add_reply(parent, reply);
                proof {
                    if res is Ok {
                        let (i, q, q_new) = choose|i: int, q: Comment, q_new: Comment|
                            first_thread_with(old(self).requirements@[idx as int].comments@, parent, i)
                                && req.comments@ == old(self).requirements@[idx as int].comments@.update(
                                i,
                                req.comments@[i],
                            ) && changed_at(
                                old(self).requirements@[idx as int].comments@[i],
                                req.comments@[i],
                                parent,
                                q,
                                q_new,
                            ) && with_reply(q, q_new, c);
                        assert(new_comment(c, author@, content@, Some(parent)));
                    }
                }
                Some(res)
            },
            None => {
                let comment = Comment::new(author, content);
                let ghost c = comment;
                req.add_comment(comment);
                proof {
                    assert(new_comment(c, author@, content@, None));
                }
                Some(Ok(()))
            },
        }
    }

    /// Removes the comment `comment_id` from the requirement at `idx` (as
    /// `Requirement::delete_comment` does; refused when it has no such
    /// comment). None when there is no requirement at `idx`.
    pub fn delete_comment_from_requirement(&mut self, idx: usize, comment_id: u128) -> (r: Option<
        Result<(), StoreError>,
    >)
        ensures
            r is None <==> idx >= old(self).requirements@.len(),
            r is None ==> *final(self) == *old(self),
            match r {
                Some(res) => {
                    let r0 = old(self).requirements@[idx as int];
                    let e = final(self).requirements@[idx as int];
                    &&& res is Ok <==> in_threads(r0.comments@, comment_id)
                    &&& res is Err ==> res == Err::<(), StoreError>(StoreError::CommentNotFound)
                        && final(self).requirements@ == old(self).requirements@
                    &&& res is Ok ==> final(self).requirements@ == old(self).requirements@.update(idx as int, e)
                        && e == (Requirement { comments: e.comments, modified_at: e.modified_at, ..r0 })
                        && comment_removed(r0.comments@, e.comments@, comment_id)
                },
                None => true,
            },
            *final(self) == (RequirementsStore { requirements: final(self).requirements, ..*old(self) }),
    {
        if idx >= self.requirements.len() {
            return None;
        }
        Some(self.requirements[idx].delete_comment(&comment_id))
    }

    /// Toggles the reaction `reaction` by `author` on the comment
    /// `comment_id` of the requirement at `req_idx` (found as
    /// `find_comment_mut` finds it); false, with nothing changed, when there
    /// is no such requirement or comment.
    pub fn toggle_comment_reaction(&mut self, req_idx: usize, comment_id: u128, reaction: &str, author: &str) -> (r:
        bool)
        ensures
            r == (req_idx < old(self).requirements@.len() && in_threads(
                old(self).requirements@[req_idx as int].comments@,
                comment_id,
            )),
            !r ==> *final(self) == *old(self),
            r ==> {
                let r0 = old(self).requirements@[req_idx as int];
                let e = final(self).requirements@[req_idx as int];
                &&& final(self).requirements@ == old(self).requirements@.update(req_idx as int, e)
                &&& e == (Requirement { comments: e.comments, ..r0 })
                &&& exists|i: int, q: Comment, q_new: Comment|
                    first_thread_with(r0.comments@, comment_id, i) && e.comments@ == r0.comments@.update(
                        i,
                        e.comments@[i],
                    ) && changed_at(r0.comments@[i], e.comments@[i], comment_id, q, q_new) && reaction_toggled(
                        q,
                        q_new,
                        reaction@,
                        author@,
                    )
            },
            *final(self) == (RequirementsStore { requirements: final(self).requirements, ..*old(self) }),
    {
        if req_idx >= self.requirements.len() {
            return false;
        }
        if thread_with(&self.requirements[req_idx].comments, comment_id).is_none() {
            return false;
        }
        let req = &mut self.requirements[req_idx];
        match req.find_comment_mut(&comment_id) {
            Some(q) => {
                let ghost qb = *q;
                q.toggle_reaction(reaction, author);
                proof {
                    assert(reaction_toggled(qb, *q, reaction@, author@));
                }
                true
            },
            None => false,
        }
    }

    /// Adds a user with the next `$USER-NNN` identifier and returns the
    /// identifier; none, with nothing changed, when the name is empty.
    pub fn add_new_user(&mut self, name: String, email: String, handle: String) -> (r: Option<String>)
        requires
            name@.len() > 0 ==> counters_at_most(old(self).meta_counters@, (u32::MAX - 1) as nat),
        ensures
            r is None <==> name@.len() == 0,
            r is None ==> *final(self) == *old(self),
            match r {
                Some(id) => {
                    let n = counter_of(counter_map(old(self).meta_counters@), META_PREFIX_USER@);
                    &&& id@ == meta_id_text(META_PREFIX_USER@, n)
                    &&& counter_map(final(self).meta_counters@) == counter_map(old(self).meta_counters@).insert(
                        META_PREFIX_USER@,
                        n + 1,
                    )
                    &&& final(self).users@.drop_last() == old(self).users@
                    &&& final(self).users@.len() == old(self).users@.len() + 1
                    &&& final(self).users@.last().spec_id == Some(id)
                    &&& final(self).users@.last().name == name
                    &&& final(self).users@.last().email == email
                    &&& final(self).users@.last().handle == handle
                    &&& !final(self).users@.last().archived
                    &&& *final(self) == (RequirementsStore {
                        users: final(self).users,
                        meta_counters: final(self).meta_counters,
                        ..*old(self)
                    })
                },
                None => true,
            },
    {
        if name.unicode_len() == 0 {
            return None;
        }
        Some(self.add_user_with_id(name, email, handle))
    }

    /// Sets name, e-mail and handle of the first user with identifier
    /// `user_id`; false, with nothing changed, when there is none.
    pub fn save_edited_user(&mut self, user_id: u128, name: String, email: String, handle: String) -> (r: bool)
        ensures
            r == exists|i: int| first_user_with_id(old(self).users@, user_id, i),
            r ==> exists|i: int|
                first_user_with_id(old(self).users@, user_id, i) && final(self).users@ == old(self).users@.update(
                    i,
                    final(self).users@[i],
                ) && final(self).users@[i] == (User { name: name, email: email, handle: handle, ..old(self).users@[i] }),
            !r ==> *final(self) == *old(self),
            *final(self) == (RequirementsStore { users: final(self).users, ..*old(self) }),
    {
        match self.user_index(user_id) {
            Some(i) => {
                let u = &mut self.users[i];
                u.name = name;
                u.email = email;
                u.handle = handle;
                true
            },
            None => {
                proof {
                    assert forall|i: int| !first_user_with_id(old(self).users@, user_id, i) by {
                        if 0 <= i < old(self).users@.len() {
                            assert(old(self).users@[i].id != user_id);
                        }
                    }
                }
                false
            },
        }
    }

    /// Makes the relationship that dropping the requirement at `dragged_idx`
    /// onto the one at `drop_target_idx` asks for in the list's perspective:
    /// it is checked first and refused with the check's errors; otherwise
    /// the source's relationships of that kind are replaced by it (in both
    /// directions when the kind has an inverse). Gives the message to show,
    /// as an error when refused; none when the drop asks for nothing.
    pub fn create_relationship_from_drop(
        &mut self,
        filters: &ListFilters,
        dragged_idx: usize,
        drop_target_idx: usize,
    ) -> (r: Option<Result<String, String>>)
        ensures
            *final(self) == (RequirementsStore { requirements: final(self).requirements, ..*old(self) }),
            ({
                let d = drop_result(filters.perspective, filters.perspective_direction, dragged_idx, drop_target_idx);
                let n = old(self).requirements@.len();
                match d {
                    None => r is None && *final(self) == *old(self),
                    Some((si, ti, kind)) => if !(si < n && ti < n) {
                        r is None && *final(self) == *old(self)
                    } else {
                        let s0 = old(self).requirements@;
                        let defs = old(self).relationship_definitions@;
                        let sid = s0[si as int].id;
                        let tid = s0[ti as int].id;
                        let (valid, errors, warnings) = validation_of(s0, defs, sid, kind@, tid);
                        if !valid {
                            (r matches Some(Err(m)) && m@ == "Cannot create relationship: "@ + joined(errors, "; "@))
                                && *final(self) == *old(self)
                        } else if sid == tid {
                            (r matches Some(Err(m)) && m@ == "Failed to set relationship: "@
                                + "Cannot create relationship to self"@) && *final(self) == *old(self)
                        } else {
                            &&& r matches Some(Ok(m)) && m@ == drop_success_text(defs, kind@, warnings)
                            &&& exists|mid: Seq<Requirement>|
                                cleared(
                                    s0,
                                    mid,
                                    first_index(s0, sid),
                                    sid,
                                    kind@,
                                    touched_inverse(kind@, has_inverse(defs, kind@)),
                                ) && added_rel(
                                    mid,
                                    final(self).requirements@,
                                    sid,
                                    kind@,
                                    tid,
                                    touched_inverse(kind@, has_inverse(defs, kind@)),
                                )
                        }
                    },
                }
            }),
    {
        let (source_idx, target_idx, rel_type) = match filters.get_relationship_for_drop(dragged_idx, drop_target_idx) {
            Some(t) => t,
            None => {
                return None;
            },
        };
        if source_idx >= self.requirements.len() || target_idx >= self.requirements.len() {
            return None;
        }
        let source_id = self.requirements[source_idx].id;
        let target_id = self.requirements[target_idx].id;
        proof {
            assert(crate::store::has_id(self.requirements@, source_id));
            assert(crate::store::has_id(self.requirements@, target_id));
        }
        let validation = self.validate_relationship(&source_id, &rel_type, &target_id);
        if !validation.valid {
            let errs = join_texts(&validation.errors, "; ");
            return Some(Err(concat2("Cannot create relationship: ", errs.as_str())));
        }
        let bidirectional = self.get_inverse_type(&rel_type).is_some();
        proof {
            assert(bidirectional == has_inverse(self.relationship_definitions@, rel_type@));
        }
        match self.set_relationship(&source_id, rel_type.duplicate(), &target_id, bidirectional) {
            Ok(()) => {
                let rel_name = match self.get_definition_for_type(&rel_type) {
                    Some(d) => d.display_name.clone(),
                    None => kind_variant_name(&rel_type),
                };
                let mut msg = concat2("Relationship '", rel_name.as_str());
                msg.append("' set");
                if validation.warnings.len() > 0 {
                    let w = join_texts(&validation.warnings, "; ");
                    msg.append(" (Warning: ");
                    msg.append(w.as_str());
                    msg.append(")");
                }
                Some(Ok(msg))
            },
            Err(e) => {
                let m = e.message();
                Some(Err(concat2("Failed to set relationship: ", m.as_str())))
            },
        }
    }
}


/// Whether `i` is the first user of `v` with handle `handle` or e-mail
/// `email`.
pub open spec fn first_user_matching(v: Seq<User>, handle: Seq<char>, email: Seq<char>, i: int) -> bool {
    &&& 0 <= i < v.len()
    &&& (v[i].handle@ == handle || v[i].email@ == email)
    &&& forall|j: int| 0 <= j < i ==> (#[trigger] v[j]).handle@ != handle && v[j].email@ != email
}

impl RequirementsStore {
    /// The store a new project starts from when it copies this one: no
    /// requirements, numbering from 1 with no prefix counters, and, unless
    /// `include_users`, only the current user (the first with handle `handle`
    /// or e-mail `email`), if any.
    pub fn into_project_template(self, include_users: bool, handle: &str, email: &str) -> (r: RequirementsStore)
        ensures
            r == (RequirementsStore {
                requirements: r.requirements,
                next_spec_number: 1,
                prefix_counters: r.prefix_counters,
                users: r.users,
                ..self
            }),
            r.requirements@.len() == 0,
            r.prefix_counters@.len() == 0,
            include_users ==> r.users == self.users,
            !include_users ==> (forall|i: int|
                0 <= i < self.users@.len() ==> (#[trigger] self.users@[i]).handle@ != handle@ && self.users@[i].email@
                    != email@) ==> r.users@.len() == 0,
            !include_users ==> forall|i: int|
                #[trigger] first_user_matching(self.users@, handle@, email@, i) ==> r.users@ == seq![self.users@[i]],
    {
        let mut store = self;
        store.requirements = Vec::new();
        store.next_spec_number = 1;
        store.prefix_counters = Vec::new();
        if !include_users {
            let mut k: usize = 0;
            while k < store.users.len() && !str_eq(store.users[k].handle.as_str(), handle) && !str_eq(
                store.users[k].email.as_str(),
                email,
            )
                invariant
                    store.users == self.users,
                    k <= store.users@.len(),
                    forall|j: int| 0 <= j < k ==> (#[trigger] self.users@[j]).handle@ != handle@ && self.users@[j].email@
                        != email@,
                decreases store.users.len() - k,
            {
                k = k + 1;
            }
            if k < store.users.len() {
                let user = store.users.remove(k);
                let mut kept: Vec<User> = Vec::new();
                kept.push(user);
                store.users = kept;
                proof {
                    assert(first_user_matching(self.users@, handle@, email@, k as int));
                    assert forall|i: int| #[trigger] first_user_matching(self.users@, handle@, email@, i) implies i
                        == k by {
                        if i < k {
                            assert(self.users@[i].handle@ != handle@ && self.users@[i].email@ != email@);
                        } else if k < i {
                            assert(self.users@[k as int].handle@ != handle@ && self.users@[k as int].email@ != email@);
                        }
                    }
                    assert(store.users@ =~= seq![self.users@[k as int]]);
                }
            } else {
                store.users = Vec::new();
                proof {
                    assert forall|i: int| !first_user_matching(self.users@, handle@, email@, i) by {
                        if 0 <= i < self.users@.len() {
                            assert(self.users@[i].handle@ != handle@ && self.users@[i].email@ != email@);
                        }
                    }
                }
            }
        }
        store
    }
}


/// The links of `v` whose identifier is not `id`, in order.
pub open spec fn urls_without(v: Seq<UrlLink>, id: u128) -> Seq<UrlLink>
    decreases v.len(),
{
    if v.len() == 0 {
        Seq::empty()
    } else if v.last().id == id {
        urls_without(v.drop_last(), id)
    } else {
        urls_without(v.drop_last(), id).push(v.last())
    }
}

impl RequirementsStore {
    /// Sets the priority of the requirement at `idx`, recording the change
    /// by `author`; false when there is no requirement at `idx`.
    pub fn change_priority(&mut self, idx: usize, priority: RequirementPriority, author: String) -> (r: bool)
        ensures
            r == (idx < old(self).requirements@.len()),
            !r ==> *final(self) == *old(self),
            *final(self) == (RequirementsStore { requirements: final(self).requirements, ..*old(self) }),
            r ==> {
                let r0 = old(self).requirements@[idx as int];
                let e = final(self).requirements@[idx as int];
                &&& final(self).requirements@ == old(self).requirements@.update(idx as int, e)
                &&& e == (Requirement { priority, history: e.history, modified_at: e.modified_at, ..r0 })
                &&& recorded(
                    r0.history@,
                    e.history@,
                    author@,
                    seq![("priority"@, priority_text(r0.priority), priority_text(priority))],
                )
            },
    {
        if idx >= self.requirements.len() {
            return false;
        }
        let req = &mut self.requirements[idx];
        let old_priority = req.priority;
        req.priority = priority;
        let mut changes: Vec<FieldChange> = Vec::new();
        changes.push(Requirement::field_change("priority", old_priority.display_text(), priority.display_text()));
        proof {
            assert(change_views(changes@) =~= seq![("priority"@, priority_text(old_priority), priority_text(priority))]);
        }
        req.record_change(author, changes);
        true
    }

    /// Sets the status of the requirement at `idx` (its custom status
    /// stays), recording the change by `author`; false when there is no
    /// requirement at `idx`.
    pub fn change_status(&mut self, idx: usize, status: RequirementStatus, author: String) -> (r: bool)
        ensures
            r == (idx < old(self).requirements@.len()),
            !r ==> *final(self) == *old(self),
            *final(self) == (RequirementsStore { requirements: final(self).requirements, ..*old(self) }),
            r ==> {
                let r0 = old(self).requirements@[idx as int];
                let e = final(self).requirements@[idx as int];
                &&& final(self).requirements@ == old(self).requirements@.update(idx as int, e)
                &&& e == (Requirement { status, history: e.history, modified_at: e.modified_at, ..r0 })
                &&& recorded(
                    r0.history@,
                    e.history@,
                    author@,
                    seq![("status"@, status_text(r0.status), status_text(status))],
                )
            },
    {
        if idx >= self.requirements.len() {
            return false;
        }
        let req = &mut self.requirements[idx];
        let old_status = req.status;
        req.status = status;
        let mut changes: Vec<FieldChange> = Vec::new();
        changes.push(Requirement::field_change("status", old_status.display_text(), status.display_text()));
        proof {
            assert(change_views(changes@) =~= seq![("status"@, status_text(old_status), status_text(status))]);
        }
        req.record_change(author, changes);
        true
    }

    /// Removes the links with identifier `url_id` from the selected
    /// requirement (at `selected_idx`); false, with nothing changed, when no
    /// requirement is selected.
    pub fn remove_url_link(&mut self, selected_idx: Option<usize>, url_id: u128) -> (r: bool)
        ensures
            r == (selected_idx matches Some(i) && i < old(self).requirements@.len()),
            !r ==> *final(self) == *old(self),
            *final(self) == (RequirementsStore { requirements: final(self).requirements, ..*old(self) }),
            r ==> {
                let i = selected_idx->0 as int;
                let r0 = old(self).requirements@[i];
                let e = final(self).requirements@[i];
                &&& final(self).requirements@ == old(self).requirements@.update(i, e)
                &&& e == (Requirement { urls: e.urls, ..r0 })
                &&& e.urls@ == urls_without(r0.urls@, url_id)
            },
    {
        let idx = match selected_idx {
            Some(i) => i,
            None => {
                return false;
            },
        };
        if idx >= self.requirements.len() {
            return false;
        }
        let req = &mut self.requirements[idx];
        let mut kept: Vec<UrlLink> = Vec::new();
        let ghost urls0 = req.urls@;
        let ghost req0 = *req;
        let n = req.urls.len();
        let mut i: usize = 0;
        proof {
            assert(urls_without(urls0.take(0), url_id) =~= Seq::<UrlLink>::empty());
        }
        while req.urls.len() > 0
            invariant
                req.urls@ == urls0.skip(i as int),
                *req == (Requirement { urls: req.urls, ..req0 }),
                n == urls0.len(),
                i + req.urls@.len() == n,
                kept@ == urls_without(urls0.take(i as int), url_id),
            decreases req.urls.len(),
        {
            let u = req.urls.remove(0);
            proof {
                let t = urls0.take(i as int + 1);
                assert(t.drop_last() =~= urls0.take(i as int));
                assert(t.last() == urls0[i as int]);
                assert(req.urls@ =~= urls0.skip(i as int + 1));
            }
            if u.id != url_id {
                kept.push(u);
            }
            i = i + 1;
        }
        proof {
            assert(urls0.take(n as int) =~= urls0);
        }
        req.urls = kept;
        true
    }
}


impl RequirementsStore {
    /// Flips the archive mark of the first user with identifier `id`; false,
    /// with nothing changed, when there is none.
    pub fn toggle_user_archive(&mut self, id: u128) -> (r: bool)
        ensures
            r == exists|i: int| first_user_with_id(old(self).users@, id, i),
            !r ==> *final(self) == *old(self),
            *final(self) == (RequirementsStore { users: final(self).users, ..*old(self) }),
            r ==> exists|i: int|
                first_user_with_id(old(self).users@, id, i) && final(self).users@ == old(self).users@.update(
                    i,
                    final(self).users@[i],
                ) && final(self).users@[i] == (User { archived: !old(self).users@[i].archived, ..old(self).users@[i] }),
    {
        match self.user_index(id) {
            Some(i) => {
                let u = &mut self.users[i];
                u.archived = !u.archived;
                true
            },
            None => {
                proof {
                    assert forall|i: int| !first_user_with_id(old(self).users@, id, i) by {
                        if 0 <= i < old(self).users@.len() {
                            assert(old(self).users@[i].id != id);
                        }
                    }
                }
                false
            },
        }
    }

    /// Removes the relationship of kind `rel_type` from `req_id` to
    /// `target_id`, and the inverse one back when the kind has an inverse
    /// (built in, named by its definition, or symmetric); the error is the
    /// message to show.
    pub fn remove_relationship_with_inverse(&mut self, req_id: &u128, rel_type: &RelationshipType, target_id: &u128) -> (r:
        Result<(), String>)
        ensures
            *final(self) == (RequirementsStore { requirements: final(self).requirements, ..*old(self) }),
            r is Err ==> *final(self) == *old(self),
            !crate::store::has_id(old(self).requirements@, *req_id) ==> (r matches Err(m) && m@
                == "Failed to remove relationship: "@ + "Source requirement not found: "@ + crate::clock::uuid_text(
                *req_id,
            )),
            forall|si: int| #[trigger]
                crate::store::first_with_id(old(self).requirements@, *req_id, si) ==> {
                    let rels = old(self).requirements@[si].relationships@;
                    &&& !crate::store::has_rel(rels, *target_id, rel_type@) ==> (r matches Err(m) && m@
                        == "Failed to remove relationship: "@ + "Relationship '"@ + crate::model::rel_kind_text(rel_type@)
                        + "' to "@ + crate::clock::uuid_text(*target_id) + " not found"@)
                    &&& crate::store::has_rel(rels, *target_id, rel_type@) ==> r is Ok && crate::store::removed_rel(
                        old(self).requirements@,
                        final(self).requirements@,
                        si,
                        *req_id,
                        rel_type@,
                        *target_id,
                        touched_inverse(rel_type@, has_inverse(old(self).relationship_definitions@, rel_type@)),
                    )
                },
    {
        let bidirectional = self.get_inverse_type(rel_type).is_some();
        proof {
            assert(bidirectional == has_inverse(self.relationship_definitions@, rel_type@));
        }
        match self.remove_relationship(req_id, rel_type, target_id, bidirectional) {
            Ok(()) => Ok(()),
            Err(e) => {
                let m = e.message();
                let msg = concat2("Failed to remove relationship: ", m.as_str());
                Err(msg)
            },
        }
    }
}

} // verus!
