//! Threaded comments on requirements, with reactions.
use vstd::prelude::*;
use crate::clock::{clock_reading, current_time, fresh_uuid, Timestamp};
use crate::text::{owned, str_eq};

verus! {

/// A reaction put on a comment by someone.
#[derive(Debug, Clone)]
pub struct CommentReaction {
    /// Key of the reaction (a `ReactionDefinition` name)
    pub reaction: String,
    /// Who reacted
    pub author: String,
    /// When
    pub added_at: Timestamp,
}

impl CommentReaction {
    /// A new reaction, stamped with the current time.
    pub fn new(reaction: &str, author: &str) -> (r: Self)
        ensures
            r.reaction@ == reaction@,
            r.author@ == author@,
    {
        CommentReaction { reaction: owned(reaction), author: owned(author), added_at: current_time() }
    }
}

/// A comment with its replies.
#[derive(Debug)]
pub struct Comment {
    /// Identifier
    pub id: u128,
    /// Author
    pub author: String,
    /// Text
    pub content: String,
    /// When it was written
    pub created_at: Timestamp,
    /// When it was last changed
    pub modified_at: Timestamp,
    /// The comment it answers (none for a top-level comment)
    pub parent_id: Option<u128>,
    /// Replies to it
    pub replies: Vec<Comment>,
    /// Reactions on it
    pub reactions: Vec<CommentReaction>,
}

/// Whether reaction `r` is `reaction` put by `author`.
pub open spec fn is_reaction_by(r: CommentReaction, reaction: Seq<char>, author: Seq<char>) -> bool {
    r.reaction@ == reaction && r.author@ == author
}

/// Whether `s` holds `reaction` by `author`.
pub open spec fn has_reaction_by(s: Seq<CommentReaction>, reaction: Seq<char>, author: Seq<char>) -> bool {
    exists|i: int| 0 <= i < s.len() && is_reaction_by(#[trigger] s[i], reaction, author)
}

/// `s` without the reactions `reaction` by `author`, in order.
pub open spec fn without_reaction(s: Seq<CommentReaction>, reaction: Seq<char>, author: Seq<char>) -> Seq<
    CommentReaction,
>
    decreases s.len(),
{
    if s.len() == 0 {
        s
    } else if is_reaction_by(s.last(), reaction, author) {
        without_reaction(s.drop_last(), reaction, author)
    } else {
        without_reaction(s.drop_last(), reaction, author).push(s.last())
    }
}

/// The number of reactions in `s` with key `reaction`.
pub open spec fn reaction_count(s: Seq<CommentReaction>, reaction: Seq<char>) -> nat
    decreases s.len(),
{
    if s.len() == 0 {
        0
    } else {
        reaction_count(s.drop_last(), reaction) + if s.last().reaction@ == reaction { 1nat } else { 0nat }
    }
}

proof fn lemma_without_reaction_len(s: Seq<CommentReaction>, reaction: Seq<char>, author: Seq<char>)
    ensures
        without_reaction(s, reaction, author).len() <= s.len(),
        without_reaction(s, reaction, author).len() == s.len() <==> !has_reaction_by(s, reaction, author),
    decreases s.len(),
{
    if s.len() > 0 {
        lemma_without_reaction_len(s.drop_last(), reaction, author);
        if has_reaction_by(s.drop_last(), reaction, author) {
            let i = choose|i: int| 0 <= i < s.drop_last().len() && is_reaction_by(#[trigger] s.drop_last()[i], reaction, author);
            assert(is_reaction_by(s[i], reaction, author));
        }
        if has_reaction_by(s, reaction, author) && !is_reaction_by(s.last(), reaction, author) {
            let i = choose|i: int| 0 <= i < s.len() && is_reaction_by(#[trigger] s[i], reaction, author);
            assert(s.drop_last()[i] == s[i]);
        }
        if is_reaction_by(s.last(), reaction, author) {
            assert(is_reaction_by(s[s.len() - 1], reaction, author));
        }
    }
}

/// Whether a reaction key occurs in `keys`.
pub open spec fn key_listed(keys: Seq<(String, usize)>, k: Seq<char>) -> bool {
    exists|i: int| 0 <= i < keys.len() && (#[trigger] keys[i]).0@ == k
}

/// Whether `counts` tallies the reactions `s`: one entry per distinct key (in
/// no particular order), each with its number of reactions.
pub open spec fn tallies(counts: Seq<(String, usize)>, s: Seq<CommentReaction>) -> bool {
    &&& forall|i: int, j: int| 0 <= i < j < counts.len() ==> (#[trigger] counts[i]).0@ != (#[trigger] counts[j]).0@
    &&& forall|i: int| 0 <= i < counts.len() ==> (#[trigger] counts[i]).1 == reaction_count(s, counts[i].0@)
    &&& forall|i: int| 0 <= i < s.len() ==> key_listed(counts, (#[trigger] s[i]).reaction@)
    &&& forall|i: int| 0 <= i < counts.len() ==> (#[trigger] counts[i]).1 > 0
}

proof fn lemma_count_push(s: Seq<CommentReaction>, r: CommentReaction, k: Seq<char>)
    ensures
        reaction_count(s.push(r), k) == reaction_count(s, k) + if r.reaction@ == k { 1nat } else { 0nat },
{
    assert(s.push(r).drop_last() =~= s);
}

proof fn lemma_count_le(s: Seq<CommentReaction>, k: Seq<char>)
    ensures
        reaction_count(s, k) <= s.len(),
    decreases s.len(),
{
    if s.len() > 0 {
        lemma_count_le(s.drop_last(), k);
    }
}

impl Comment {
    /// A new top-level comment with a fresh identifier, created and modified
    /// now.
    pub fn new(author: String, content: String) -> (r: Self)
        ensures
            r.author == author,
            r.content == content,
            r.created_at == r.modified_at,
            r.parent_id is None,
            r.replies@.len() == 0,
            r.reactions@.len() == 0,
    {
        let now = current_time();
        Comment {
            id: fresh_uuid(),
            author,
            content,
            created_at: now,
            modified_at: now,
            parent_id: None,
            replies: Vec::new(),
            reactions: Vec::new(),
        }
    }

    /// A new reply to the comment `parent_id`, with a fresh identifier.
    pub fn new_reply(author: String, content: String, parent_id: u128) -> (r: Self)
        ensures
            r.author == author,
            r.content == content,
            r.created_at == r.modified_at,
            r.parent_id == Some(parent_id),
            r.replies@.len() == 0,
            r.reactions@.len() == 0,
    {
        let now = current_time();
        Comment {
            id: fresh_uuid(),
            author,
            content,
            created_at: now,
            modified_at: now,
            parent_id: Some(parent_id),
            replies: Vec::new(),
            reactions: Vec::new(),
        }
    }

    /// Whether `author` has put the reaction `reaction` on this comment.
    pub fn has_reaction(&self, reaction: &str, author: &str) -> (r: bool)
        ensures
            r == has_reaction_by(self.reactions@, reaction@, author@),
    {
        let mut i: usize = 0;
        while i < self.reactions.len()
            invariant
                i <= self.reactions@.len(),
                forall|j: int| 0 <= j < i ==> !is_reaction_by(#[trigger] self.reactions@[j], reaction@, author@),
            decreases self.reactions.len() - i,
        {
            if str_eq(self.reactions[i].reaction.as_str(), reaction)
                && str_eq(self.reactions[i].author.as_str(), author) {
                proof {
                    assert(is_reaction_by(self.reactions@[i as int], reaction@, author@));
                }
                return true;
            }
            i = i + 1;
        }
        false
    }

    /// Adds the reaction `reaction` by `author` unless that author already
    /// has it; returns whether it was added.
    pub fn add_reaction(&mut self, reaction: &str, author: &str) -> (added: bool)
        ensures
            added == !has_reaction_by(old(self).reactions@, reaction@, author@),
            !added ==> *final(self) == *old(self),
            added ==> final(self).reactions@.len() == old(self).reactions@.len() + 1,
            added ==> final(self).reactions@.drop_last() == old(self).reactions@,
            added ==> is_reaction_by(final(self).reactions@.last(), reaction@, author@),
            final(self).id == old(self).id,
            final(self).author == old(self).author,
            final(self).content == old(self).content,
            final(self).created_at == old(self).created_at,
            final(self).modified_at == old(self).modified_at,
            final(self).parent_id == old(self).parent_id,
            final(self).replies == old(self).replies,
    {
        if self.has_reaction(reaction, author) {
            return false;
        }
        self.reactions.push(CommentReaction::new(reaction, author));
        proof {
            assert(self.reactions@.drop_last() =~= old(self).reactions@);
        }
        true
    }

    /// Removes every reaction `reaction` by `author`; returns whether there
    /// was one.
    pub fn remove_reaction(&mut self, reaction: &str, author: &str) -> (removed: bool)
        ensures
            removed == has_reaction_by(old(self).reactions@, reaction@, author@),
            final(self).reactions@ == without_reaction(old(self).reactions@, reaction@, author@),
            final(self).id == old(self).id,
            final(self).author == old(self).author,
            final(self).content == old(self).content,
            final(self).created_at == old(self).created_at,
            final(self).modified_at == old(self).modified_at,
            final(self).parent_id == old(self).parent_id,
            final(self).replies == old(self).replies,
    {
        let initial_len = self.reactions.len();
        let ghost orig = old(self).reactions@;
        let ghost mut k: int = 0;
        let mut i: usize = 0;
        while i < self.reactions.len()
            invariant
                0 <= k <= orig.len(),
                self.reactions@ == without_reaction(orig.take(k), reaction@, author@) + orig.skip(k),
                i == without_reaction(orig.take(k), reaction@, author@).len(),
                initial_len == orig.len(),
                self.id == old(self).id,
                self.author == old(self).author,
                self.content == old(self).content,
                self.created_at == old(self).created_at,
                self.modified_at == old(self).modified_at,
                self.parent_id == old(self).parent_id,
                self.replies == old(self).replies,
            decreases orig.len() - k,
        {
            proof {
                assert(orig.take(k + 1).drop_last() =~= orig.take(k));
                assert(self.reactions@[i as int] == orig[k]);
                assert(orig.take(k + 1).last() == orig[k]);
            }
            let matches = str_eq(self.reactions[i].reaction.as_str(), reaction)
                && str_eq(self.reactions[i].author.as_str(), author);
            let ghost before = self.reactions@;
            if matches {
                self.reactions.remove(i);
                proof {
                    assert(self.reactions@ =~= without_reaction(orig.take(k + 1), reaction@, author@) + orig.skip(k + 1));
                }
            } else {
                i = i + 1;
                proof {
                    assert(before =~= without_reaction(orig.take(k + 1), reaction@, author@) + orig.skip(k + 1));
                }
            }
            proof {
                k = k + 1;
            }
        }
        proof {
            if k < orig.len() {
                assert(self.reactions@.len() > i);
            }
            assert(orig.take(orig.len() as int) =~= orig);
            assert(orig.skip(orig.len() as int) =~= Seq::<CommentReaction>::empty());
            assert(self.reactions@ =~= without_reaction(orig, reaction@, author@));
            lemma_without_reaction_len(orig, reaction@, author@);
        }
        self.reactions.len() < initial_len
    }

    /// Removes the reaction `reaction` by `author` if present, adds it
    /// otherwise; returns whether it is present afterwards.
    pub fn toggle_reaction(&mut self, reaction: &str, author: &str) -> (present: bool)
        ensures
            present == !has_reaction_by(old(self).reactions@, reaction@, author@),
            present == has_reaction_by(final(self).reactions@, reaction@, author@),
            !present ==> final(self).reactions@ == without_reaction(old(self).reactions@, reaction@, author@),
            present ==> final(self).reactions@.drop_last() == old(self).reactions@,
            present ==> is_reaction_by(final(self).reactions@.last(), reaction@, author@),
            final(self).id == old(self).id,
            final(self).content == old(self).content,
            final(self).replies == old(self).replies,
    {
        if self.remove_reaction(reaction, author) {
            proof {
                lemma_without_reaction_absent(old(self).reactions@, reaction@, author@);
            }
            false
        } else {
            proof {
                lemma_without_reaction_len(old(self).reactions@, reaction@, author@);
                lemma_without_reaction_same(old(self).reactions@, reaction@, author@);
            }
            self.add_reaction(reaction, author);
            proof {
                assert(is_reaction_by(self.reactions@[self.reactions@.len() - 1], reaction@, author@));
            }
            true
        }
    }

    /// How many reactions of each key the comment has: one entry per key
    /// present.
    pub fn reaction_counts(&self) -> (counts: Vec<(String, usize)>)
        ensures
            tallies(counts@, self.reactions@),
    {
        let mut counts: Vec<(String, usize)> = Vec::new();
        let mut i: usize = 0;
        while i < self.reactions.len()
            invariant
                i <= self.reactions@.len(),
                tallies(counts@, self.reactions@.take(i as int)),
            decreases self.reactions.len() - i,
        {
            let ghost pre = self.reactions@.take(i as int);
            let ghost r = self.reactions@[i as int];
            proof {
                assert(self.reactions@.take(i as int + 1) =~= pre.push(r));
                lemma_count_le(pre, r.reaction@);
            }
            let key = self.reactions[i].reaction.as_str();
            let mut j: usize = 0;
            while j < counts.len() && !str_eq(counts[j].0.as_str(), key)
                invariant
                    j <= counts@.len(),
                    forall|k: int| 0 <= k < j ==> (#[trigger] counts@[k]).0@ != key@,
                decreases counts.len() - j,
            {
                j = j + 1;
            }
            let found = j < counts.len();
            let ghost before = counts@;
            if found {
                let c = counts[j].1;
                proof {
                    lemma_count_le(pre, counts@[j as int].0@);
                }
                let name = counts[j].0.clone();
                counts.set(j, (name, c + 1));
                proof {
                    assert forall|k: int| 0 <= k < counts@.len() implies (#[trigger] counts@[k]).1
                        == reaction_count(pre.push(r), counts@[k].0@) by {
                        lemma_count_push(pre, r, counts@[k].0@);
                        if k != j {
                            assert(counts@[k] == before[k]);
                        }
                    }
                    assert forall|k: int| 0 <= k < pre.push(r).len() implies key_listed(counts@, (#[trigger] pre.push(r)[k]).reaction@) by {
                        if k < pre.len() {
                            assert(pre.push(r)[k] == pre[k]);
                            let w = choose|w: int| 0 <= w < before.len() && (#[trigger] before[w]).0@ == pre[k].reaction@;
                            assert(counts@[w].0@ == before[w].0@);
                        } else {
                            assert(counts@[j as int].0@ == r.reaction@);
                        }
                    }
                    assert forall|a: int, b: int| 0 <= a < b < counts@.len() implies (#[trigger] counts@[a]).0@ != (#[trigger] counts@[b]).0@ by {
                        assert(counts@[a].0@ == before[a].0@);
                        assert(counts@[b].0@ == before[b].0@);
                    }
                }
            } else {
                counts.push((self.reactions[i].reaction.clone(), 1));
                proof {
                    assert forall|k: int| 0 <= k < counts@.len() implies (#[trigger] counts@[k]).1
                        == reaction_count(pre.push(r), counts@[k].0@) by {
                        lemma_count_push(pre, r, counts@[k].0@);
                        if k < before.len() {
                            assert(counts@[k] == before[k]);
                        } else {
                            // the key is new: it did not occur before
                            if reaction_count(pre, r.reaction@) > 0 {
                                lemma_count_pos(pre, r.reaction@);
                                let w = choose|w: int| 0 <= w < pre.len() && (#[trigger] pre[w]).reaction@ == r.reaction@;
                                assert(key_listed(before, pre[w].reaction@));
                                let v = choose|v: int| 0 <= v < before.len() && (#[trigger] before[v]).0@ == pre[w].reaction@;
                                assert(before[v].0@ != key@);
                                assert(false);
                            }
                        }
                    }
                    assert forall|k: int| 0 <= k < pre.push(r).len() implies key_listed(counts@, (#[trigger] pre.push(r)[k]).reaction@) by {
                        if k < pre.len() {
                            assert(pre.push(r)[k] == pre[k]);
                            let w = choose|w: int| 0 <= w < before.len() && (#[trigger] before[w]).0@ == pre[k].reaction@;
                            assert(counts@[w] == before[w]);
                        } else {
                            assert(counts@[before.len() as int].0@ == r.reaction@);
                        }
                    }
                    assert forall|a: int, b: int| 0 <= a < b < counts@.len() implies (#[trigger] counts@[a]).0@ != (#[trigger] counts@[b]).0@ by {
                        assert(counts@[a] == before[a]);
                        if b < before.len() {
                            assert(counts@[b] == before[b]);
                        } else {
                            assert(counts@[b].0@ == key@);
                            assert(before[a].0@ != key@);
                        }
                    }
                }
            }
            i = i + 1;
        }
        proof {
            assert(self.reactions@.take(self.reactions@.len() as int) =~= self.reactions@);
        }
        counts
    }

    /// Adds a reply at the end of this comment's replies.
    pub fn add_reply(&mut self, reply: Comment)
        ensures
            *final(self) == (Comment { replies: final(self).replies, ..*old(self) }),
            final(self).replies@ == old(self).replies@.push(reply),
    {
        self.replies.push(reply);
    }

    /// Marks the comment as modified now: its modification time becomes the
    /// clock's current reading.
    pub fn touch(&mut self)
        ensures
            *final(self) == (Comment { modified_at: final(self).modified_at, ..*old(self) }),
            clock_reading(final(self).modified_at),
    {
        self.modified_at = current_time();
    }
}

proof fn lemma_without_reaction_same(s: Seq<CommentReaction>, reaction: Seq<char>, author: Seq<char>)
    requires
        !has_reaction_by(s, reaction, author),
    ensures
        without_reaction(s, reaction, author) == s,
    decreases s.len(),
{
    if s.len() > 0 {
        assert(!is_reaction_by(s[s.len() - 1], reaction, author));
        assert forall|i: int| 0 <= i < s.drop_last().len() implies !is_reaction_by(#[trigger] s.drop_last()[i], reaction, author) by {
            assert(s.drop_last()[i] == s[i]);
        }
        lemma_without_reaction_same(s.drop_last(), reaction, author);
        assert(s.drop_last().push(s.last()) =~= s);
    }
}

proof fn lemma_count_pos(s: Seq<CommentReaction>, k: Seq<char>)
    requires
        reaction_count(s, k) > 0,
    ensures
        exists|w: int| 0 <= w < s.len() && (#[trigger] s[w]).reaction@ == k,
    decreases s.len(),
{
    if s.last().reaction@ == k {
        assert(s[s.len() - 1].reaction@ == k);
    } else {
        lemma_count_pos(s.drop_last(), k);
        let w = choose|w: int| 0 <= w < s.drop_last().len() && (#[trigger] s.drop_last()[w]).reaction@ == k;
        assert(s[w] == s.drop_last()[w]);
    }
}

proof fn lemma_without_reaction_absent(s: Seq<CommentReaction>, reaction: Seq<char>, author: Seq<char>)
    ensures
        !has_reaction_by(without_reaction(s, reaction, author), reaction, author),
    decreases s.len(),
{
    if s.len() > 0 {
        lemma_without_reaction_absent(s.drop_last(), reaction, author);
        let w = without_reaction(s.drop_last(), reaction, author);
        if !is_reaction_by(s.last(), reaction, author) {
            assert forall|i: int| 0 <= i < w.push(s.last()).len() implies !is_reaction_by(
                #[trigger] w.push(s.last())[i],
                reaction,
                author,
            ) by {
                if i < w.len() {
                    assert(w.push(s.last())[i] == w[i]);
                }
            }
        }
    }
}

/// Toggling a reaction that is absent, then toggling it again, gives back
/// the reactions as they were.
pub proof fn lemma_toggle_twice_restores(
    s0: Seq<CommentReaction>,
    s1: Seq<CommentReaction>,
    s2: Seq<CommentReaction>,
    reaction: Seq<char>,
    author: Seq<char>,
)
    requires
        !has_reaction_by(s0, reaction, author),
        s1.drop_last() == s0,
        s1.len() == s0.len() + 1,
        is_reaction_by(s1.last(), reaction, author),
        s2 == without_reaction(s1, reaction, author),
    ensures
        s2 == s0,
{
    assert(s1.drop_last() == s0);
    lemma_without_reaction_same(s0, reaction, author);
}

} // verus!
