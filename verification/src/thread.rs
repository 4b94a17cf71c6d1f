//! Comment threads as trees: finding a comment among the replies at any
//! depth, answering it, and removing it.
use vstd::prelude::*;
use crate::clock::current_time;
use crate::comment::Comment;
use crate::requirement::Requirement;
use crate::store::StoreError;

verus! {

/// Whether thread `c` (the comment and its replies at any depth) holds a
/// comment with identifier `id`.
pub open spec fn in_thread(c: Comment, id: u128) -> bool
    decreases c, 1int, 0int,
{
    c.id == id || in_replies(c, id, c.replies@.len() as int)
}

/// Whether one of the first `n` replies of `c` holds, in its thread, a
/// comment with identifier `id`.
pub open spec fn in_replies(c: Comment, id: u128, n: int) -> bool
    decreases c, 0int, n,
{
    if n <= 0 || n > c.replies@.len() {
        false
    } else {
        proof {
            assert(decreases_to!(c => c.replies));
            assert(decreases_to!(c.replies => c.replies@));
            assert(decreases_to!(c.replies@ => c.replies@[n - 1]));
        }
        in_replies(c, id, n - 1) || in_thread(c.replies@[n - 1], id)
    }
}

/// Whether reply `i` of `c` is the first whose thread holds a comment with
/// identifier `id`.
pub open spec fn first_reply_with(c: Comment, id: u128, i: int) -> bool {
    &&& 0 <= i < c.replies@.len()
    &&& in_thread(c.replies@[i], id)
    &&& forall|j: int| 0 <= j < i ==> !in_thread(#[trigger] c.replies@[j], id)
}

/// Whether `d` is thread `c` after the first comment with identifier `id`
/// (taking a comment before its replies, and replies in order) was changed
/// from `q` into `q_new`, the rest unchanged.
pub open spec fn changed_at(c: Comment, d: Comment, id: u128, q: Comment, q_new: Comment) -> bool
    decreases c,
{
    if c.id == id {
        q == c && d == q_new
    } else {
        let i = choose|i: int| first_reply_with(c, id, i);
        if first_reply_with(c, id, i) {
            proof {
                assert(decreases_to!(c => c.replies));
                assert(decreases_to!(c.replies => c.replies@));
                assert(decreases_to!(c.replies@ => c.replies@[i]));
            }
            &&& d == Comment { replies: d.replies, ..c }
            &&& d.replies@.len() == c.replies@.len()
            &&& forall|j: int| 0 <= j < c.replies@.len() && j != i ==> #[trigger] d.replies@[j] == c.replies@[j]
            &&& changed_at(c.replies@[i], d.replies@[i], id, q, q_new)
        } else {
            false
        }
    }
}

proof fn lemma_in_replies(c: Comment, id: u128, n: int)
    requires
        0 <= n <= c.replies@.len(),
    ensures
        in_replies(c, id, n) <==> exists|i: int| 0 <= i < n && in_thread(#[trigger] c.replies@[i], id),
    decreases n,
{
    if n > 0 {
        lemma_in_replies(c, id, n - 1);
    }
}

proof fn lemma_first_reply_unique(c: Comment, id: u128, i: int, j: int)
    requires
        first_reply_with(c, id, i),
        first_reply_with(c, id, j),
    ensures
        i == j,
{
    if i < j {
        assert(!in_thread(c.replies@[i], id));
    } else if j < i {
        assert(!in_thread(c.replies@[j], id));
    }
}

impl Comment {
    /// Whether this thread holds a comment with identifier `id`.
    pub fn holds(&self, id: u128) -> (r: bool)
        ensures
            r == in_thread(*self, id),
        decreases self, 1int,
    {
        if self.id == id {
            return true;
        }
        proof {
            lemma_in_replies(*self, id, self.replies@.len() as int);
        }
        match self.reply_holding(id) {
            Some(i) => {
                proof {
                    assert(in_thread(self.replies@[i as int], id));
                }
                true
            },
            None => false,
        }
    }

    /// The first reply whose thread holds a comment with identifier `id`.
    fn reply_holding(&self, id: u128) -> (r: Option<usize>)
        ensures
            match r {
                Some(i) => first_reply_with(*self, id, i as int),
                None => !in_replies(*self, id, self.replies@.len() as int),
            },
        decreases self, 0int,
    {
        let mut i: usize = 0;
        while i < self.replies.len()
            invariant
                i <= self.replies@.len(),
                forall|j: int| 0 <= j < i ==> !in_thread(#[trigger] self.replies@[j], id),
            decreases self.replies.len() - i,
        {
            proof {
                assert(decreases_to!(self => self.replies));
                assert(decreases_to!(self.replies => self.replies@));
                assert(decreases_to!(self.replies@ => self.replies@[i as int]));
            }
            if self.replies[i].holds(id) {
                return Some(i);
            }
            i = i + 1;
        }
        proof {
            lemma_in_replies(*self, id, self.replies@.len() as int);
        }
        None
    }

    /// The first comment of this thread with identifier `id` (a comment
    /// before its replies, replies in order), to change in place.
    pub fn find_comment_mut(&mut self, id: &u128) -> (r: Option<&mut Comment>)
        ensures
            match r {
                Some(q) => in_thread(*old(self), *id) && changed_at(*old(self), *final(self), *id, *q, *final(q)),
                None => !in_thread(*old(self), *id) && *final(self) == *old(self),
            },
        decreases *old(self),
    {
        if self.id == *id {
            return Some(self);
        }
        proof {
            lemma_in_replies(*self, *id, self.replies@.len() as int);
        }
        match self.reply_holding(*id) {
            Some(i) => {
                proof {
                    assert(decreases_to!(*old(self) => old(self).replies));
                    assert(decreases_to!(old(self).replies => old(self).replies@));
                    assert(decreases_to!(old(self).replies@ => old(self).replies@[i as int]));
                    assert(in_thread(self.replies@[i as int], *id));
                    assert forall|j: int| #[trigger] first_reply_with(*old(self), *id, j) implies j == i by {
                        lemma_first_reply_unique(*old(self), *id, i as int, j);
                    }
                }
                self.replies[i].find_comment_mut(id)
            },
            None => None,
        }
    }
}

/// Whether a reply of `c`, at any depth, has identifier `id`.
pub open spec fn below(c: Comment, id: u128) -> bool {
    in_replies(c, id, c.replies@.len() as int)
}

/// Whether reply `i` of `c` is the first that itself has identifier `id`.
pub open spec fn first_child_with_id(c: Comment, id: u128, i: int) -> bool {
    &&& 0 <= i < c.replies@.len()
    &&& c.replies@[i].id == id
    &&& forall|j: int| 0 <= j < i ==> (#[trigger] c.replies@[j]).id != id
}

/// Whether reply `i` of `c` is the first with a reply, at any depth, of
/// identifier `id`.
pub open spec fn first_reply_below(c: Comment, id: u128, i: int) -> bool {
    &&& 0 <= i < c.replies@.len()
    &&& below(c.replies@[i], id)
    &&& forall|j: int| 0 <= j < i ==> !below(#[trigger] c.replies@[j], id)
}

/// Whether `d` is `c` after a reply with identifier `id` was removed: the
/// first direct reply with that identifier, else (recursively) one below the
/// first reply that has it among its own replies.
pub open spec fn removed_below(c: Comment, d: Comment, id: u128) -> bool
    decreases c,
{
    let k = choose|k: int| first_child_with_id(c, id, k);
    let i = choose|i: int| first_reply_below(c, id, i);
    if first_child_with_id(c, id, k) {
        d == Comment { replies: d.replies, ..c } && d.replies@ == c.replies@.remove(k)
    } else if first_reply_below(c, id, i) {
        proof {
            assert(decreases_to!(c => c.replies));
            assert(decreases_to!(c.replies => c.replies@));
            assert(decreases_to!(c.replies@ => c.replies@[i]));
        }
        &&& d == Comment { replies: d.replies, ..c }
        &&& d.replies@.len() == c.replies@.len()
        &&& forall|j: int| 0 <= j < c.replies@.len() && j != i ==> #[trigger] d.replies@[j] == c.replies@[j]
        &&& removed_below(c.replies@[i], d.replies@[i], id)
    } else {
        false
    }
}

/// Whether `q_new` is comment `q` with `reply` appended to its replies.
pub open spec fn with_reply(q: Comment, q_new: Comment, reply: Comment) -> bool {
    q_new == Comment { replies: q_new.replies, ..q } && q_new.replies@ == q.replies@.push(reply)
}

/// Whether comment `i` of `s` is the first whose thread holds a comment with
/// identifier `id`.
pub open spec fn first_thread_with(s: Seq<Comment>, id: u128, i: int) -> bool {
    &&& 0 <= i < s.len()
    &&& in_thread(s[i], id)
    &&& forall|j: int| 0 <= j < i ==> !in_thread(#[trigger] s[j], id)
}

/// Whether some thread of `s` holds a comment with identifier `id`.
pub open spec fn in_threads(s: Seq<Comment>, id: u128) -> bool {
    exists|i: int| 0 <= i < s.len() && in_thread(#[trigger] s[i], id)
}

proof fn lemma_first_child_unique(c: Comment, id: u128, i: int, j: int)
    requires
        first_child_with_id(c, id, i),
        first_child_with_id(c, id, j),
    ensures
        i == j,
{
    if i < j {
        assert(c.replies@[i].id != id);
    } else if j < i {
        assert(c.replies@[j].id != id);
    }
}

proof fn lemma_first_below_unique(c: Comment, id: u128, i: int, j: int)
    requires
        first_reply_below(c, id, i),
        first_reply_below(c, id, j),
    ensures
        i == j,
{
    if i < j {
        assert(!below(c.replies@[i], id));
    } else if j < i {
        assert(!below(c.replies@[j], id));
    }
}

fn child_with_id(v: &Vec<Comment>, id: u128) -> (r: Option<usize>)
    ensures
        match r {
            Some(i) => 0 <= i < v@.len() && v@[i as int].id == id && forall|j: int| 0 <= j < i ==> (#[trigger] v@[j]).id != id,
            None => forall|j: int| 0 <= j < v@.len() ==> (#[trigger] v@[j]).id != id,
        },
{
    let mut i: usize = 0;
    while i < v.len()
        invariant
            i <= v@.len(),
            forall|j: int| 0 <= j < i ==> (#[trigger] v@[j]).id != id,
        decreases v.len() - i,
    {
        if v[i].id == id {
            return Some(i);
        }
        i = i + 1;
    }
    None
}

pub(crate) fn thread_with(v: &Vec<Comment>, id: u128) -> (r: Option<usize>)
    ensures
        match r {
            Some(i) => first_thread_with(v@, id, i as int),
            None => !in_threads(v@, id),
        },
{
    let mut i: usize = 0;
    while i < v.len()
        invariant
            i <= v@.len(),
            forall|j: int| 0 <= j < i ==> !in_thread(#[trigger] v@[j], id),
        decreases v.len() - i,
    {
        if v[i].holds(id) {
            return Some(i);
        }
        i = i + 1;
    }
    None
}

fn thread_below(v: &Vec<Comment>, id: u128) -> (r: Option<usize>)
    ensures
        match r {
            Some(i) => 0 <= i < v@.len() && below(v@[i as int], id) && forall|j: int| 0 <= j < i ==> !below(#[trigger] v@[j], id),
            None => forall|j: int| 0 <= j < v@.len() ==> !below(#[trigger] v@[j], id),
        },
{
    let mut i: usize = 0;
    while i < v.len()
        invariant
            i <= v@.len(),
            forall|j: int| 0 <= j < i ==> !below(#[trigger] v@[j], id),
        decreases v.len() - i,
    {
        proof {
            lemma_in_replies(v@[i as int], id, v@[i as int].replies@.len() as int);
        }
        match v[i].reply_holding(id) {
            Some(j) => {
                proof {
                    assert(in_thread(v@[i as int].replies@[j as int], id));
                }
                return Some(i);
            },
            None => {},
        }
        i = i + 1;
    }
    None
}

impl Comment {
    /// Removes a reply with identifier `target_id` from the replies of
    /// `comment` at any depth: a direct reply first, else one below the first
    /// reply that has it; whether one was removed.
    fn remove_reply_recursive(comment: &mut Comment, target_id: &u128) -> (removed: bool)
        ensures
            removed == below(*old(comment), *target_id),
            removed ==> removed_below(*old(comment), *final(comment), *target_id),
            !removed ==> *final(comment) == *old(comment),
        decreases *old(comment),
    {
        let id = *target_id;
        proof {
            lemma_in_replies(*comment, id, comment.replies@.len() as int);
        }
        match child_with_id(&comment.replies, id) {
            Some(k) => {
                proof {
                    assert(first_child_with_id(*old(comment), id, k as int));
                    assert forall|x: int| #[trigger] first_child_with_id(*old(comment), id, x) implies x == k by {
                        lemma_first_child_unique(*old(comment), id, k as int, x);
                    }
                    assert(in_thread(comment.replies@[k as int], id));
                }
                comment.replies.remove(k);
                true
            },
            None => {
                proof {
                    assert forall|x: int| !first_child_with_id(*old(comment), id, x) by {
                        if first_child_with_id(*old(comment), id, x) {
                            assert(old(comment).replies@[x].id == id);
                        }
                    }
                }
                match thread_below(&comment.replies, id) {
                    Some(i) => {
                        proof {
                            assert(first_reply_below(*old(comment), id, i as int));
                            assert forall|x: int| #[trigger] first_reply_below(*old(comment), id, x) implies x == i by {
                                lemma_first_below_unique(*old(comment), id, i as int, x);
                            }
                            assert(decreases_to!(*old(comment) => old(comment).replies));
                            assert(decreases_to!(old(comment).replies => old(comment).replies@));
                            assert(decreases_to!(old(comment).replies@ => old(comment).replies@[i as int]));
                            lemma_in_replies(comment.replies@[i as int], id, comment.replies@[i as int].replies@.len() as int);
                            assert(in_thread(comment.replies@[i as int], id));
                        }
                        let done = Comment::remove_reply_recursive(&mut comment.replies[i], target_id);
                        done
                    },
                    None => {
                        proof {
                            assert forall|j: int| 0 <= j < comment.replies@.len() implies !in_thread(#[trigger] comment.replies@[j], id) by {
                                assert(comment.replies@[j].id != id);
                                assert(!below(comment.replies@[j], id));
                            }
                        }
                        false
                    },
                }
            },
        }
    }
}

/// A reply appended where `changed_at` says can be found in the thread
/// afterwards.
pub proof fn lemma_reply_reachable(c: Comment, d: Comment, id: u128, q: Comment, q_new: Comment, reply: Comment)
    requires
        changed_at(c, d, id, q, q_new),
        with_reply(q, q_new, reply),
    ensures
        in_thread(d, reply.id),
    decreases c,
{
    if c.id == id {
        let n = d.replies@.len() as int;
        assert(d.replies@[n - 1] == reply);
        lemma_in_replies(d, reply.id, n);
    } else {
        let i = choose|i: int| first_reply_with(c, id, i);
        assert(decreases_to!(c => c.replies));
        assert(decreases_to!(c.replies => c.replies@));
        assert(decreases_to!(c.replies@ => c.replies@[i]));
        lemma_reply_reachable(c.replies@[i], d.replies@[i], id, q, q_new, reply);
        lemma_in_replies(d, reply.id, d.replies@.len() as int);
    }
}

/// Whether threads `t` are threads `s` with the comment `id` removed: the
/// first top-level comment with that identifier, else the reply that
/// `remove_reply_recursive` removes in the first thread that has it below
/// its top.
pub open spec fn comment_removed(s: Seq<Comment>, t: Seq<Comment>, id: u128) -> bool {
    ||| exists|k: int|
        0 <= k < s.len() && s[k].id == id && (forall|j: int| 0 <= j < k ==> (#[trigger] s[j]).id != id) && t
            == s.remove(k)
    ||| (forall|j: int| 0 <= j < s.len() ==> (#[trigger] s[j]).id != id) && exists|i: int|
        0 <= i < s.len() && below(s[i], id) && (forall|j: int| 0 <= j < i ==> !below(#[trigger] s[j], id)) && t
            == s.update(i, t[i]) && removed_below(s[i], t[i], id)
}

impl Requirement {
    /// The first comment with identifier `comment_id`: in the first thread
    /// that holds one, a comment before its replies and replies in order; to
    /// change in place.
    pub fn find_comment_mut(&mut self, comment_id: &u128) -> (r: Option<&mut Comment>)
        ensures
            match r {
                Some(q) => exists|i: int|
                    first_thread_with(old(self).comments@, *comment_id, i) && final(self).comments@ == old(
                        self,
                    ).comments@.update(i, final(self).comments@[i]) && changed_at(
                        old(self).comments@[i],
                        final(self).comments@[i],
                        *comment_id,
                        *q,
                        *final(q),
                    ),
                None => !in_threads(old(self).comments@, *comment_id) && final(self).comments@ == old(
                    self,
                ).comments@,
            },
            *final(self) == (Requirement { comments: final(self).comments, ..*old(self) }),
    {
        match thread_with(&self.comments, *comment_id) {
            Some(i) => self.comments[i].find_comment_mut(comment_id),
            None => None,
        }
    }

    /// Appends `reply` to the replies of the comment with identifier
    /// `parent_id` (found as `find_comment_mut` finds it) and marks the
    /// requirement modified now; refused when no comment has that
    /// identifier.
    pub fn add_reply(&mut self, parent_id: u128, reply: Comment) -> (r: Result<(), StoreError>)
        ensures
            r is Ok <==> in_threads(old(self).comments@, parent_id),
            r is Err ==> r == Err::<(), StoreError>(StoreError::ParentCommentNotFound) && *final(self) == *old(self),
            r is Ok ==> exists|i: int, q: Comment, q_new: Comment|
                first_thread_with(old(self).comments@, parent_id, i) && final(self).comments@ == old(
                    self,
                ).comments@.update(i, final(self).comments@[i]) && changed_at(
                    old(self).comments@[i],
                    final(self).comments@[i],
                    parent_id,
                    q,
                    q_new,
                ) && with_reply(q, q_new, reply),
            r is Ok ==> in_threads(final(self).comments@, reply.id),
            r is Ok ==> *final(self) == (Requirement {
                comments: final(self).comments,
                modified_at: final(self).modified_at,
                ..*old(self)
            }),
    {
        match thread_with(&self.comments, parent_id) {
            Some(i) => {
                let found = self.comments[i].find_comment_mut(&parent_id);
                let ghost rid = reply.id;
                let ghost reply_v = reply;
                let ghost mut qb = reply;
                let ghost mut qa = reply;
                match found {
                    Some(q) => {
                        proof {
                            qb = *q;
                        }
                        q.add_reply(reply);
                        proof {
                            qa = *q;
                        }
                    },
                    None => {},
                }
                self.modified_at = current_time();
                proof {
                    lemma_reply_reachable(old(self).comments@[i as int], self.comments@[i as int], parent_id, qb, qa, reply_v);
                    assert(in_thread(self.comments@[i as int], rid));
                }
                Ok(())
            },
            None => Err(StoreError::ParentCommentNotFound),
        }
    }

    /// Removes the comment with identifier `comment_id`: the first top-level
    /// one, else one among the replies of the first thread that has it
    /// there (as `remove_reply_recursive` finds it); marks the requirement
    /// modified now. Refused when no comment has that identifier.
    pub fn delete_comment(&mut self, comment_id: &u128) -> (r: Result<(), StoreError>)
        ensures
            r is Ok <==> in_threads(old(self).comments@, *comment_id),
            r is Err ==> r == Err::<(), StoreError>(StoreError::CommentNotFound) && *final(self) == *old(self),
            r is Ok ==> *final(self) == (Requirement {
                comments: final(self).comments,
                modified_at: final(self).modified_at,
                ..*old(self)
            }),
            r is Ok ==> comment_removed(old(self).comments@, final(self).comments@, *comment_id),
    {
        let id = *comment_id;
        match child_with_id(&self.comments, id) {
            Some(k) => {
                proof {
                    assert(in_thread(self.comments@[k as int], id));
                }
                self.comments.remove(k);
                self.modified_at = current_time();
                return Ok(());
            },
            None => {},
        }
        match thread_below(&self.comments, id) {
            Some(i) => {
                proof {
                    lemma_in_replies(self.comments@[i as int], id, self.comments@[i as int].replies@.len() as int);
                    assert(in_thread(self.comments@[i as int], id));
                }
                let _ = Comment::remove_reply_recursive(&mut self.comments[i], comment_id);
                self.modified_at = current_time();
                Ok(())
            },
            None => {
                proof {
                    assert forall|j: int| 0 <= j < self.comments@.len() implies !in_thread(#[trigger] self.comments@[j], id) by {
                        assert(self.comments@[j].id != id);
                        assert(!below(self.comments@[j], id));
                    }
                }
                Err(StoreError::CommentNotFound)
            },
        }
    }
}

} // verus!
