//! The store: every poll and every vote, and the rules that hold between them.
//!
//! A store is sound when no two polls and no two votes share an id, every vote answers a
//! poll that is there and carries that poll's question, and each poll's two counts are the
//! numbers of its votes that say yes and that say no.

use crate::poll::{Poll, PollView};
use crate::tally::{
    lemma_tally_covers_turnout, lemma_tally_push, lemma_tally_remove, lemma_tally_same_answers,
    lemma_tally_unanswered, lemma_tally_update, lemma_tally_without_poll,
    lemma_without_poll_keeps, placed_elsewhere, spec_tally_delta, tally, tally_delta, turnout,
    without_poll,
};
use crate::vote::{Vote, VoteChoice, VoteView};
use vstd::prelude::*;

verus! {

/// Why the store refused a change that the answers themselves did not rule out.
#[derive(Debug, Clone, Copy, PartialEq, Eq, Structural)]
pub enum StoreError {
    /// A poll or a vote with that id is already there.
    DuplicateId,
    /// No poll has that id.
    UnknownPoll,
    /// No vote has that id.
    UnknownVote,
    /// The vote handed in is not the vote as the store holds it.
    StaleVote,
    /// A count of the poll cannot go higher.
    TallyOverflow,
    /// The poll would close later than a timestamp can say.
    TimestampOverflow,
    /// The poll or vote handed in is not sound.
    InvalidRecord,
}

/// `polls` with the counts of poll `poll_id` moved by `yes` and by `no`.
pub open spec fn counted(polls: Seq<PollView>, poll_id: u128, yes: int, no: int) -> Seq<PollView> {
    Seq::new(
        polls.len(),
        |i: int|
            if polls[i].id == poll_id {
                PollView {
                    positive_votes: (polls[i].positive_votes + yes) as i16,
                    negative_votes: (polls[i].negative_votes + no) as i16,
                    ..polls[i]
                }
            } else {
                polls[i]
            },
    )
}

/// `votes` with `question` on each vote that answers poll `poll_id`.
pub open spec fn asking(votes: Seq<VoteView>, poll_id: u128, question: Seq<char>) -> Seq<VoteView> {
    Seq::new(
        votes.len(),
        |j: int|
            if votes[j].poll_id == poll_id {
                VoteView { poll_question: question, ..votes[j] }
            } else {
                votes[j]
            },
    )
}

/// One change to the votes of a store.
pub enum VoteStep {
    /// This vote is cast.
    Cast(VoteView),
    /// The vote at this place takes this choice and this comment.
    Change(int, VoteChoice, Seq<char>),
    /// The vote at this place is deleted.
    Remove(int),
}

/// What a store holds, as plain values: the polls and the votes, each in the order in which
/// they came.
pub struct StoreView {
    pub polls: Seq<PollView>,
    pub votes: Seq<VoteView>,
}

impl StoreView {
    /// Whether a poll has this id.
    pub open spec fn has_poll(self, id: u128) -> bool {
        exists|i: int| 0 <= i < self.polls.len() && (#[trigger] self.polls[i]).id == id
    }

    /// Whether a vote has this id.
    pub open spec fn has_vote(self, id: u128) -> bool {
        exists|j: int| 0 <= j < self.votes.len() && (#[trigger] self.votes[j]).id == id
    }

    /// Where the poll with this id stands, if there is one.
    pub open spec fn poll_index(self, id: u128) -> int {
        choose|i: int| 0 <= i < self.polls.len() && (#[trigger] self.polls[i]).id == id
    }

    /// Where the vote with this id stands, if there is one.
    pub open spec fn vote_index(self, id: u128) -> int {
        choose|j: int| 0 <= j < self.votes.len() && (#[trigger] self.votes[j]).id == id
    }

    /// Whether the store is sound.
    pub open spec fn wf(self) -> bool {
        &&& forall|i: int, j: int|
            0 <= i < j < self.polls.len() ==> (#[trigger] self.polls[i]).id
                != (#[trigger] self.polls[j]).id
        &&& forall|i: int, j: int|
            0 <= i < j < self.votes.len() ==> (#[trigger] self.votes[i]).id
                != (#[trigger] self.votes[j]).id
        &&& forall|i: int| 0 <= i < self.polls.len() ==> (#[trigger] self.polls[i]).wf()
        &&& forall|j: int| 0 <= j < self.votes.len() ==> (#[trigger] self.votes[j]).wf()
        &&& forall|j: int|
            0 <= j < self.votes.len() ==> self.has_poll((#[trigger] self.votes[j]).poll_id)
        &&& forall|i: int, j: int|
            0 <= i < self.polls.len() && 0 <= j < self.votes.len() && (#[trigger] self.votes[j]).poll_id
                == (#[trigger] self.polls[i]).id ==> self.votes[j].poll_question
                == self.polls[i].question
        &&& forall|i: int|
            0 <= i < self.polls.len() ==> (#[trigger] self.polls[i]).positive_votes == tally(
                self.votes,
                self.polls[i].id,
                VoteChoice::Yes,
            )
        &&& forall|i: int|
            0 <= i < self.polls.len() ==> (#[trigger] self.polls[i]).negative_votes == tally(
                self.votes,
                self.polls[i].id,
                VoteChoice::No,
            )
    }

    /// Whether the two counts of each poll add up to the number of votes that answer it.
    pub open spec fn counts_cover_votes(self) -> bool {
        forall|i: int|
            0 <= i < self.polls.len() ==> (#[trigger] self.polls[i]).positive_votes
                + self.polls[i].negative_votes == turnout(self.votes, self.polls[i].id)
    }

    /// Why a poll cannot be taken in, if it cannot: it is not sound or already answered, or its
    /// id is taken.
    pub open spec fn poll_refusal(self, p: PollView) -> Option<StoreError> {
        if !p.wf() || p.positive_votes != 0 || p.negative_votes != 0 {
            Some(StoreError::InvalidRecord)
        } else if self.has_poll(p.id) {
            Some(StoreError::DuplicateId)
        } else {
            None
        }
    }

    /// Why a vote cannot be taken in, if it cannot: it is not sound, its id is taken, it
    /// answers no poll that is there, or that poll's count is full.
    pub open spec fn vote_refusal(self, v: VoteView) -> Option<StoreError> {
        if !v.wf() {
            Some(StoreError::InvalidRecord)
        } else if self.has_vote(v.id) {
            Some(StoreError::DuplicateId)
        } else if !self.has_poll(v.poll_id) {
            Some(StoreError::UnknownPoll)
        } else if tally(self.votes, v.poll_id, v.choice) >= i16::MAX {
            Some(StoreError::TallyOverflow)
        } else {
            None
        }
    }

    /// The vote `v` as the store keeps it: with the question of the poll it answers.
    pub open spec fn joined(self, v: VoteView) -> VoteView {
        VoteView { poll_question: self.polls[self.poll_index(v.poll_id)].question, ..v }
    }

    /// The store with one more poll.
    pub open spec fn with_poll(self, p: PollView) -> StoreView {
        StoreView { polls: self.polls.push(p), votes: self.votes }
    }

    /// The store with one more vote, counted on the poll it answers.
    pub open spec fn with_vote(self, v: VoteView) -> StoreView {
        StoreView {
            polls: counted(
                self.polls,
                v.poll_id,
                spec_tally_delta(None, Some(v.choice)).0,
                spec_tally_delta(None, Some(v.choice)).1,
            ),
            votes: self.votes.push(v),
        }
    }

    /// The store with poll `i` replaced by `p`, whose question goes onto the poll's votes.
    pub open spec fn with_poll_edited(self, i: int, p: PollView) -> StoreView {
        StoreView { polls: self.polls.update(i, p), votes: asking(self.votes, p.id, p.question) }
    }

    /// The store without poll `i` and without the votes that answer it.
    pub open spec fn without_poll_at(self, i: int) -> StoreView {
        StoreView {
            polls: self.polls.remove(i),
            votes: without_poll(self.votes, self.polls[i].id),
        }
    }

    /// The store with vote `j` saying `choice` and carrying `comment`; its poll's counts
    /// follow the answer.
    pub open spec fn with_vote_changed(
        self,
        j: int,
        choice: VoteChoice,
        comment: Seq<char>,
    ) -> StoreView {
        let before = self.votes[j];
        StoreView {
            polls: counted(
                self.polls,
                before.poll_id,
                spec_tally_delta(Some(before.choice), Some(choice)).0,
                spec_tally_delta(Some(before.choice), Some(choice)).1,
            ),
            votes: self.votes.update(j, VoteView { choice: choice, comment: comment, ..before }),
        }
    }

    /// Whether `step` can be taken: a vote is cast if the store takes it in as it is, with
    /// its poll's question on it; a vote that is there changes if the comment has at most 100
    /// characters and the count it moves to is not full; a vote that is there can be deleted.
    pub open spec fn admits(self, step: VoteStep) -> bool {
        match step {
            VoteStep::Cast(v) => self.vote_refusal(v) is None && v == self.joined(v),
            VoteStep::Change(j, choice, comment) => {
                &&& 0 <= j < self.votes.len()
                &&& comment.len() <= 100
                &&& choice != self.votes[j].choice ==> tally(
                    self.votes,
                    self.votes[j].poll_id,
                    choice,
                ) < i16::MAX
            },
            VoteStep::Remove(j) => 0 <= j < self.votes.len(),
        }
    }

    /// The store once `step` is taken.
    pub open spec fn after(self, step: VoteStep) -> StoreView {
        match step {
            VoteStep::Cast(v) => self.with_vote(v),
            VoteStep::Change(j, choice, comment) => self.with_vote_changed(j, choice, comment),
            VoteStep::Remove(j) => self.without_vote_at(j),
        }
    }

    /// The store once `steps` are taken, one after the other.
    pub open spec fn after_all(self, steps: Seq<VoteStep>) -> StoreView
        decreases steps.len(),
    {
        if steps.len() == 0 {
            self
        } else {
            self.after_all(steps.drop_last()).after(steps.last())
        }
    }

    /// Whether `steps` can be taken one after the other.
    pub open spec fn admits_all(self, steps: Seq<VoteStep>) -> bool
        decreases steps.len(),
    {
        steps.len() == 0 || (self.admits_all(steps.drop_last()) && self.after_all(
            steps.drop_last(),
        ).admits(steps.last()))
    }

    /// The store without vote `j`, which its poll no longer counts.
    pub open spec fn without_vote_at(self, j: int) -> StoreView {
        let gone = self.votes[j];
        StoreView {
            polls: counted(
                self.polls,
                gone.poll_id,
                spec_tally_delta(Some(gone.choice), None).0,
                spec_tally_delta(Some(gone.choice), None).1,
            ),
            votes: self.votes.remove(j),
        }
    }
}

/// In a sound store each id is found at one place only.
pub proof fn lemma_index_is_unique(s: StoreView)
    requires
        s.wf(),
    ensures
        forall|i: int| 0 <= i < s.polls.len() ==> s.poll_index((#[trigger] s.polls[i]).id) == i,
        forall|j: int| 0 <= j < s.votes.len() ==> s.vote_index((#[trigger] s.votes[j]).id) == j,
{
    assert forall|i: int| 0 <= i < s.polls.len() implies s.poll_index((#[trigger] s.polls[i]).id)
        == i by {
        let k = s.poll_index(s.polls[i].id);
        assert(0 <= k < s.polls.len() && s.polls[k].id == s.polls[i].id);
        if k < i {
            assert(s.polls[k].id != s.polls[i].id);
        } else if i < k {
            assert(s.polls[i].id != s.polls[k].id);
        }
    }
    assert forall|j: int| 0 <= j < s.votes.len() implies s.vote_index((#[trigger] s.votes[j]).id)
        == j by {
        let k = s.vote_index(s.votes[j].id);
        assert(0 <= k < s.votes.len() && s.votes[k].id == s.votes[j].id);
        if k < j {
            assert(s.votes[k].id != s.votes[j].id);
        } else if j < k {
            assert(s.votes[j].id != s.votes[k].id);
        }
    }
}

/// In a sound store the two counts of a poll add up to the number of votes that answer it.
pub proof fn lemma_counts_cover_votes(s: StoreView, i: int)
    requires
        s.wf(),
        0 <= i < s.polls.len(),
    ensures
        s.polls[i].positive_votes + s.polls[i].negative_votes == turnout(s.votes, s.polls[i].id),
{
    lemma_tally_covers_turnout(s.votes, s.polls[i].id);
}

/// In a sound store the two counts of every poll add up to the number of votes that answer
/// it.
pub proof fn lemma_sound_counts_cover_votes(s: StoreView)
    requires
        s.wf(),
    ensures
        s.counts_cover_votes(),
{
    assert forall|i: int| 0 <= i < s.polls.len() implies (#[trigger] s.polls[i]).positive_votes
        + s.polls[i].negative_votes == turnout(s.votes, s.polls[i].id) by {
        lemma_counts_cover_votes(s, i);
    }
}

/// A new poll that nobody has answered yet keeps the store sound.
pub proof fn lemma_with_poll_keeps_sound(s: StoreView, p: PollView)
    requires
        s.wf(),
        p.wf(),
        p.positive_votes == 0,
        p.negative_votes == 0,
        !s.has_poll(p.id),
    ensures
        s.with_poll(p).wf(),
{
    let t = s.with_poll(p);
    assert forall|j: int| 0 <= j < t.votes.len() implies t.has_poll(
        (#[trigger] t.votes[j]).poll_id,
    ) by {
        assert(s.has_poll(s.votes[j].poll_id));
        let i = s.poll_index(s.votes[j].poll_id);
        assert(t.polls[i].id == t.votes[j].poll_id);
    }
    assert forall|j: int| 0 <= j < s.votes.len() implies (#[trigger] s.votes[j]).poll_id
        != p.id by {
        assert(s.has_poll(s.votes[j].poll_id));
    }
    lemma_tally_unanswered(s.votes, p.id, VoteChoice::Yes);
    lemma_tally_unanswered(s.votes, p.id, VoteChoice::No);
    assert forall|i: int, j: int|
        0 <= i < t.polls.len() && 0 <= j < t.votes.len() && (#[trigger] t.votes[j]).poll_id
            == (#[trigger] t.polls[i]).id implies t.votes[j].poll_question
        == t.polls[i].question by {
        if i < s.polls.len() {
            assert(t.polls[i] == s.polls[i]);
        }
    }
    assert forall|i: int| 0 <= i < t.polls.len() implies (#[trigger] t.polls[i]).positive_votes
        == tally(t.votes, t.polls[i].id, VoteChoice::Yes) by {
        if i < s.polls.len() {
            assert(t.polls[i] == s.polls[i]);
        }
    }
    assert forall|i: int| 0 <= i < t.polls.len() implies (#[trigger] t.polls[i]).negative_votes
        == tally(t.votes, t.polls[i].id, VoteChoice::No) by {
        if i < s.polls.len() {
            assert(t.polls[i] == s.polls[i]);
        }
    }
    assert forall|i: int, j: int| 0 <= i < j < t.polls.len() implies (#[trigger] t.polls[i]).id
        != (#[trigger] t.polls[j]).id by {
        assert(t.polls[i] == s.polls[i]);
        if j < s.polls.len() {
            assert(t.polls[j] == s.polls[j]);
        }
    }
    assert forall|i: int| 0 <= i < t.polls.len() implies (#[trigger] t.polls[i]).wf() by {
        if i < s.polls.len() {
            assert(t.polls[i] == s.polls[i]);
        }
    }
}

/// A new vote on a poll that is there, counted on that poll, keeps the store sound.
pub proof fn lemma_with_vote_keeps_sound(s: StoreView, v: VoteView)
    requires
        s.wf(),
        v.wf(),
        !s.has_vote(v.id),
        s.has_poll(v.poll_id),
        v.poll_question == s.polls[s.poll_index(v.poll_id)].question,
        tally(s.votes, v.poll_id, v.choice) < i16::MAX,
    ensures
        s.with_vote(v).wf(),
{
    let t = s.with_vote(v);
    let k = s.poll_index(v.poll_id);
    lemma_index_is_unique(s);
    assert forall|i: int| 0 <= i < t.polls.len() implies (#[trigger] t.polls[i]).positive_votes
        == tally(t.votes, t.polls[i].id, VoteChoice::Yes) && t.polls[i].negative_votes == tally(
        t.votes,
        t.polls[i].id,
        VoteChoice::No,
    ) && t.polls[i].wf() by {
        assert(s.polls[i].wf());
        lemma_tally_push(s.votes, v, s.polls[i].id, VoteChoice::Yes);
        lemma_tally_push(s.votes, v, s.polls[i].id, VoteChoice::No);
    }
    assert forall|j: int| 0 <= j < t.votes.len() implies t.has_poll(
        (#[trigger] t.votes[j]).poll_id,
    ) by {
        let id = t.votes[j].poll_id;
        if j < s.votes.len() {
            assert(s.has_poll(s.votes[j].poll_id));
        }
        let i = s.poll_index(id);
        assert(t.polls[i].id == id);
    }
    assert forall|i: int, j: int|
        0 <= i < t.polls.len() && 0 <= j < t.votes.len() && (#[trigger] t.votes[j]).poll_id
            == (#[trigger] t.polls[i]).id implies t.votes[j].poll_question
        == t.polls[i].question by {
        assert(s.polls[i].id == t.polls[i].id);
        if j < s.votes.len() {
            assert(s.votes[j] == t.votes[j]);
        }
    }
    assert forall|i: int, j: int| 0 <= i < j < t.polls.len() implies (#[trigger] t.polls[i]).id
        != (#[trigger] t.polls[j]).id by {
        assert(s.polls[i].id != s.polls[j].id);
    }
    assert forall|i: int, j: int| 0 <= i < j < t.votes.len() implies (#[trigger] t.votes[i]).id
        != (#[trigger] t.votes[j]).id by {
        assert(t.votes[i] == s.votes[i]);
        if j < s.votes.len() {
            assert(t.votes[j] == s.votes[j]);
        }
    }
    assert forall|j: int| 0 <= j < t.votes.len() implies (#[trigger] t.votes[j]).wf() by {
        if j < s.votes.len() {
            assert(t.votes[j] == s.votes[j]);
        }
    }
}

/// Rewriting a poll, its id and its counts kept, keeps the store sound.
pub proof fn lemma_with_poll_edited_keeps_sound(s: StoreView, i: int, p: PollView)
    requires
        s.wf(),
        0 <= i < s.polls.len(),
        p.wf(),
        p.id == s.polls[i].id,
        p.positive_votes == s.polls[i].positive_votes,
        p.negative_votes == s.polls[i].negative_votes,
    ensures
        s.with_poll_edited(i, p).wf(),
{
    let t = s.with_poll_edited(i, p);
    assert forall|k: int| 0 <= k < t.polls.len() implies (#[trigger] t.polls[k]).positive_votes
        == tally(t.votes, t.polls[k].id, VoteChoice::Yes) && t.polls[k].negative_votes == tally(
        t.votes,
        t.polls[k].id,
        VoteChoice::No,
    ) && t.polls[k].wf() && t.polls[k].id == s.polls[k].id by {
        assert(s.polls[k].wf());
        lemma_tally_same_answers(s.votes, t.votes, s.polls[k].id, VoteChoice::Yes);
        lemma_tally_same_answers(s.votes, t.votes, s.polls[k].id, VoteChoice::No);
    }
    assert forall|j: int| 0 <= j < t.votes.len() implies t.has_poll(
        (#[trigger] t.votes[j]).poll_id,
    ) && t.votes[j].wf() by {
        assert(s.has_poll(s.votes[j].poll_id));
        assert(s.votes[j].wf());
        let k = s.poll_index(s.votes[j].poll_id);
        assert(t.polls[k].id == t.votes[j].poll_id);
    }
    assert forall|k: int, j: int|
        0 <= k < t.polls.len() && 0 <= j < t.votes.len() && (#[trigger] t.votes[j]).poll_id
            == (#[trigger] t.polls[k]).id implies t.votes[j].poll_question
        == t.polls[k].question by {
        assert(s.votes[j].poll_id == s.polls[k].id);
        if k != i {
            if k < i {
                assert(s.polls[k].id != s.polls[i].id);
            } else {
                assert(s.polls[i].id != s.polls[k].id);
            }
        }
    }
    assert forall|a: int, b: int| 0 <= a < b < t.polls.len() implies (#[trigger] t.polls[a]).id
        != (#[trigger] t.polls[b]).id by {
        assert(s.polls[a].id != s.polls[b].id);
    }
    assert forall|a: int, b: int| 0 <= a < b < t.votes.len() implies (#[trigger] t.votes[a]).id
        != (#[trigger] t.votes[b]).id by {
        assert(s.votes[a].id != s.votes[b].id);
    }
}

/// Changing what a vote says and its comment, with its poll's counts following, keeps the
/// store sound.
pub proof fn lemma_with_vote_changed_keeps_sound(
    s: StoreView,
    j: int,
    choice: VoteChoice,
    comment: Seq<char>,
)
    requires
        s.wf(),
        0 <= j < s.votes.len(),
        comment.len() <= 100,
        choice != s.votes[j].choice ==> tally(s.votes, s.votes[j].poll_id, choice) < i16::MAX,
    ensures
        s.with_vote_changed(j, choice, comment).wf(),
{
    let t = s.with_vote_changed(j, choice, comment);
    let before = s.votes[j];
    assert(before.wf());
    assert forall|i: int| 0 <= i < t.polls.len() implies (#[trigger] t.polls[i]).positive_votes
        == tally(t.votes, t.polls[i].id, VoteChoice::Yes) && t.polls[i].negative_votes == tally(
        t.votes,
        t.polls[i].id,
        VoteChoice::No,
    ) && t.polls[i].wf() && t.polls[i].id == s.polls[i].id && t.polls[i].question
        == s.polls[i].question by {
        assert(s.polls[i].wf());
        lemma_tally_update(s.votes, j, t.votes[j], s.polls[i].id, VoteChoice::Yes);
        lemma_tally_update(s.votes, j, t.votes[j], s.polls[i].id, VoteChoice::No);
    }
    assert forall|k: int| 0 <= k < t.votes.len() implies t.has_poll(
        (#[trigger] t.votes[k]).poll_id,
    ) && t.votes[k].wf() by {
        assert(s.has_poll(s.votes[k].poll_id));
        assert(s.votes[k].wf());
        let i = s.poll_index(s.votes[k].poll_id);
        assert(t.polls[i].id == t.votes[k].poll_id);
    }
    assert forall|i: int, k: int|
        0 <= i < t.polls.len() && 0 <= k < t.votes.len() && (#[trigger] t.votes[k]).poll_id
            == (#[trigger] t.polls[i]).id implies t.votes[k].poll_question
        == t.polls[i].question by {
        assert(s.votes[k].poll_id == s.polls[i].id);
    }
    assert forall|a: int, b: int| 0 <= a < b < t.polls.len() implies (#[trigger] t.polls[a]).id
        != (#[trigger] t.polls[b]).id by {
        assert(s.polls[a].id != s.polls[b].id);
    }
    assert forall|a: int, b: int| 0 <= a < b < t.votes.len() implies (#[trigger] t.votes[a]).id
        != (#[trigger] t.votes[b]).id by {
        assert(s.votes[a].id != s.votes[b].id);
    }
}

/// Taking a vote out, with its poll no longer counting it, keeps the store sound.
pub proof fn lemma_without_vote_at_keeps_sound(s: StoreView, j: int)
    requires
        s.wf(),
        0 <= j < s.votes.len(),
    ensures
        s.without_vote_at(j).wf(),
{
    let t = s.without_vote_at(j);
    let gone = s.votes[j];
    assert forall|i: int| 0 <= i < t.polls.len() implies (#[trigger] t.polls[i]).positive_votes
        == tally(t.votes, t.polls[i].id, VoteChoice::Yes) && t.polls[i].negative_votes == tally(
        t.votes,
        t.polls[i].id,
        VoteChoice::No,
    ) && t.polls[i].wf() && t.polls[i].id == s.polls[i].id && t.polls[i].question
        == s.polls[i].question by {
        assert(s.polls[i].wf());
        lemma_tally_remove(s.votes, j, s.polls[i].id, VoteChoice::Yes);
        lemma_tally_remove(s.votes, j, s.polls[i].id, VoteChoice::No);
    }
    assert forall|k: int| 0 <= k < t.votes.len() implies t.has_poll(
        (#[trigger] t.votes[k]).poll_id,
    ) && t.votes[k].wf() by {
        let m = if k < j {
            k
        } else {
            k + 1
        };
        assert(t.votes[k] == s.votes[m]);
        assert(s.has_poll(s.votes[m].poll_id));
        assert(s.votes[m].wf());
        let i = s.poll_index(s.votes[m].poll_id);
        assert(t.polls[i].id == t.votes[k].poll_id);
    }
    assert forall|i: int, k: int|
        0 <= i < t.polls.len() && 0 <= k < t.votes.len() && (#[trigger] t.votes[k]).poll_id
            == (#[trigger] t.polls[i]).id implies t.votes[k].poll_question
        == t.polls[i].question by {
        let m = if k < j {
            k
        } else {
            k + 1
        };
        assert(t.votes[k] == s.votes[m]);
        assert(s.votes[m].poll_id == s.polls[i].id);
    }
    assert forall|a: int, b: int| 0 <= a < b < t.polls.len() implies (#[trigger] t.polls[a]).id
        != (#[trigger] t.polls[b]).id by {
        assert(s.polls[a].id != s.polls[b].id);
    }
    assert forall|a: int, b: int| 0 <= a < b < t.votes.len() implies (#[trigger] t.votes[a]).id
        != (#[trigger] t.votes[b]).id by {
        let ma = if a < j {
            a
        } else {
            a + 1
        };
        let mb = if b < j {
            b
        } else {
            b + 1
        };
        assert(t.votes[a] == s.votes[ma]);
        assert(t.votes[b] == s.votes[mb]);
        assert(s.votes[ma].id != s.votes[mb].id);
    }
}

/// Taking a poll out together with the votes that answer it keeps the store sound.
pub proof fn lemma_without_poll_at_keeps_sound(s: StoreView, i: int)
    requires
        s.wf(),
        0 <= i < s.polls.len(),
    ensures
        s.without_poll_at(i).wf(),
{
    let t = s.without_poll_at(i);
    let gone = s.polls[i].id;
    lemma_without_poll_keeps(s.votes, gone);
    assert forall|k: int| 0 <= k < t.polls.len() implies (#[trigger] t.polls[k]).positive_votes
        == tally(t.votes, t.polls[k].id, VoteChoice::Yes) && t.polls[k].negative_votes == tally(
        t.votes,
        t.polls[k].id,
        VoteChoice::No,
    ) && t.polls[k].wf() by {
        let m = if k < i {
            k
        } else {
            k + 1
        };
        assert(t.polls[k] == s.polls[m]);
        assert(s.polls[m].wf());
        if m < i {
            assert(s.polls[m].id != s.polls[i].id);
        } else {
            assert(s.polls[i].id != s.polls[m].id);
        }
        lemma_tally_without_poll(s.votes, gone, s.polls[m].id, VoteChoice::Yes);
        lemma_tally_without_poll(s.votes, gone, s.polls[m].id, VoteChoice::No);
    }
    assert forall|j: int| 0 <= j < t.votes.len() implies t.has_poll(
        (#[trigger] t.votes[j]).poll_id,
    ) && t.votes[j].wf() by {
        assert(s.votes.contains(t.votes[j]));
        let n = choose|n: int| 0 <= n < s.votes.len() && s.votes[n] == t.votes[j];
        assert(s.votes[n].wf());
        assert(s.has_poll(s.votes[n].poll_id));
        let m = s.poll_index(s.votes[n].poll_id);
        assert(m != i);
        let k = if m < i {
            m
        } else {
            m - 1
        };
        assert(t.polls[k] == s.polls[m]);
    }
    assert forall|k: int, j: int|
        0 <= k < t.polls.len() && 0 <= j < t.votes.len() && (#[trigger] t.votes[j]).poll_id
            == (#[trigger] t.polls[k]).id implies t.votes[j].poll_question
        == t.polls[k].question by {
        let m = if k < i {
            k
        } else {
            k + 1
        };
        assert(t.polls[k] == s.polls[m]);
        assert(s.votes.contains(t.votes[j]));
        let n = choose|n: int| 0 <= n < s.votes.len() && s.votes[n] == t.votes[j];
        assert(s.votes[n].poll_id == s.polls[m].id);
    }
    assert forall|a: int, b: int| 0 <= a < b < t.polls.len() implies (#[trigger] t.polls[a]).id
        != (#[trigger] t.polls[b]).id by {
        let ma = if a < i {
            a
        } else {
            a + 1
        };
        let mb = if b < i {
            b
        } else {
            b + 1
        };
        assert(t.polls[a] == s.polls[ma]);
        assert(t.polls[b] == s.polls[mb]);
        assert(s.polls[ma].id != s.polls[mb].id);
    }
}

/// Whatever votes are cast, changed and deleted in a sound store, in whatever order, the
/// store stays sound, and the two counts of each poll add up to the number of votes that
/// answer it.
pub proof fn lemma_counts_cover_votes_after_steps(s: StoreView, steps: Seq<VoteStep>)
    requires
        s.wf(),
        s.admits_all(steps),
    ensures
        s.after_all(steps).wf(),
        s.after_all(steps).polls.len() == s.polls.len(),
        forall|i: int|
            0 <= i < s.polls.len() ==> (#[trigger] s.after_all(steps).polls[i]).positive_votes
                + s.after_all(steps).polls[i].negative_votes == turnout(
                s.after_all(steps).votes,
                s.after_all(steps).polls[i].id,
            ),
    decreases steps.len(),
{
    let end = s.after_all(steps);
    if steps.len() > 0 {
        let before = s.after_all(steps.drop_last());
        lemma_counts_cover_votes_after_steps(s, steps.drop_last());
        match steps.last() {
            VoteStep::Cast(v) => {
                lemma_with_vote_keeps_sound(before, v);
            },
            VoteStep::Change(j, choice, comment) => {
                lemma_with_vote_changed_keeps_sound(before, j, choice, comment);
            },
            VoteStep::Remove(j) => {
                lemma_without_vote_at_keeps_sound(before, j);
            },
        }
    }
    assert forall|i: int| 0 <= i < s.polls.len() implies (#[trigger] end.polls[i]).positive_votes
        + end.polls[i].negative_votes == turnout(end.votes, end.polls[i].id) by {
        lemma_counts_cover_votes(end, i);
    }
}

/// The polls of a list, as plain values.
pub open spec fn poll_views(polls: Seq<Poll>) -> Seq<PollView> {
    polls.map_values(|p: Poll| p@)
}

/// The votes of a list, as plain values.
pub open spec fn vote_views(votes: Seq<Vote>) -> Seq<VoteView> {
    votes.map_values(|v: Vote| v@)
}

/// Every poll and every vote.
pub struct Store {
    polls: Vec<Poll>,
    votes: Vec<Vote>,
}

impl View for Store {
    type V = StoreView;

    closed spec fn view(&self) -> StoreView {
        StoreView { polls: poll_views(self.polls@), votes: vote_views(self.votes@) }
    }
}

impl Store {
    /// Whether the store is sound.
    pub open spec fn wf(&self) -> bool {
        self@.wf()
    }

    /// A store with nothing in it.
    pub fn new() -> (s: Store)
        ensures
            s.wf(),
            s@ == (StoreView { polls: Seq::empty(), votes: Seq::empty() }),
    {
        let s = Store { polls: Vec::new(), votes: Vec::new() };
        assert(s@.polls =~= Seq::<PollView>::empty());
        assert(s@.votes =~= Seq::<VoteView>::empty());
        s
    }

    /// How many polls there are.
    pub fn poll_count(&self) -> (n: usize)
        ensures
            n == self@.polls.len(),
    {
        self.polls.len()
    }

    /// How many votes there are.
    pub fn vote_count(&self) -> (n: usize)
        ensures
            n == self@.votes.len(),
    {
        self.votes.len()
    }

    /// Where the poll with this id stands.
    pub fn find_poll(&self, id: u128) -> (r: Option<usize>)
        ensures
            match r {
                Some(i) => i < self@.polls.len() && self@.polls[i as int].id == id,
                None => !self@.has_poll(id),
            },
    {
        let mut i: usize = 0;
        while i < self.polls.len()
            invariant
                i <= self.polls.len(),
                forall|k: int| 0 <= k < i ==> (#[trigger] self@.polls[k]).id != id,
            decreases self.polls.len() - i,
        {
            if self.polls[i].id == id {
                return Some(i);
            }
            i += 1;
        }
        None
    }

    /// Where the vote with this id stands.
    pub fn find_vote(&self, id: u128) -> (r: Option<usize>)
        ensures
            match r {
                Some(j) => j < self@.votes.len() && self@.votes[j as int].id == id,
                None => !self@.has_vote(id),
            },
    {
        let mut j: usize = 0;
        while j < self.votes.len()
            invariant
                j <= self.votes.len(),
                forall|k: int| 0 <= k < j ==> (#[trigger] self@.votes[k]).id != id,
            decreases self.votes.len() - j,
        {
            if self.votes[j].id == id {
                return Some(j);
            }
            j += 1;
        }
        None
    }

    /// Moves the two counts of poll `k`.
    fn move_counts(&mut self, k: usize, yes: i16, no: i16)
        requires
            k < old(self)@.polls.len(),
            0 <= old(self)@.polls[k as int].positive_votes + yes <= i16::MAX,
            0 <= old(self)@.polls[k as int].negative_votes + no <= i16::MAX,
        ensures
            final(self)@.votes == old(self)@.votes,
            final(self)@.polls == old(self)@.polls.update(
                k as int,
                PollView {
                    positive_votes: (old(self)@.polls[k as int].positive_votes + yes) as i16,
                    negative_votes: (old(self)@.polls[k as int].negative_votes + no) as i16,
                    ..old(self)@.polls[k as int]
                },
            ),
    {
        let mut p = self.polls[k].duplicate();
        p.positive_votes = p.positive_votes + yes;
        p.negative_votes = p.negative_votes + no;
        let ghost moved = p@;
        self.polls.set(k, p);
        assert(self@.polls =~= old(self)@.polls.update(k as int, moved));
    }

    /// Takes in a poll that nobody has answered yet.
    pub fn insert_poll(&mut self, poll: Poll) -> (r: Result<(), StoreError>)
        requires
            old(self).wf(),
        ensures
            final(self).wf(),
            match old(self)@.poll_refusal(poll@) {
                Some(e) => r == Err::<(), StoreError>(e) && final(self)@ == old(self)@,
                None => r is Ok && final(self)@ == old(self)@.with_poll(poll@),
            },
    {
        if !poll.is_valid() || poll.positive_votes != 0 || poll.negative_votes != 0 {
            return Err(StoreError::InvalidRecord);
        }
        if self.find_poll(poll.id).is_some() {
            return Err(StoreError::DuplicateId);
        }
        let ghost p = poll@;
        self.polls.push(poll);
        proof {
            assert(self@.polls =~= old(self)@.polls.push(p));
            lemma_with_poll_keeps_sound(old(self)@, p);
        }
        Ok(())
    }

    /// Takes in a vote and counts it on the poll it answers, whose question it is given.
    pub fn insert_vote(&mut self, vote: Vote) -> (r: Result<(), StoreError>)
        requires
            old(self).wf(),
        ensures
            final(self).wf(),
            match old(self)@.vote_refusal(vote@) {
                Some(e) => r == Err::<(), StoreError>(e) && final(self)@ == old(self)@,
                None => r is Ok && final(self)@ == old(self)@.with_vote(
                    old(self)@.joined(vote@),
                ),
            },
    {
        if !vote.is_valid() {
            return Err(StoreError::InvalidRecord);
        }
        if self.find_vote(vote.id).is_some() {
            return Err(StoreError::DuplicateId);
        }
        let k: usize = match self.find_poll(vote.poll_id) {
            Some(k) => k,
            None => {
                return Err(StoreError::UnknownPoll);
            },
        };
        proof {
            lemma_index_is_unique(self@);
        }
        let full: bool = match vote.choice {
            VoteChoice::Yes => self.polls[k].positive_votes == i16::MAX,
            VoteChoice::No => self.polls[k].negative_votes == i16::MAX,
        };
        if full {
            return Err(StoreError::TallyOverflow);
        }
        let (yes, no) = tally_delta(None, Some(vote.choice));
        let kept = Vote {
            id: vote.id,
            choice: vote.choice,
            comment: vote.comment,
            voting_power: vote.voting_power,
            create_date: vote.create_date,
            poll_id: vote.poll_id,
            poll_question: self.polls[k].question.clone(),
        };
        let ghost v = kept@;
        assert(v == old(self)@.joined(vote@));
        self.votes.push(kept);
        assert(self@.votes =~= old(self)@.votes.push(v));
        self.move_counts(k, yes, no);
        proof {
            assert(old(self)@.polls[k as int].wf());
            assert(self@.polls =~= old(self)@.with_vote(v).polls);
            lemma_with_vote_keeps_sound(old(self)@, v);
        }
        Ok(())
    }

    /// A copy of poll `i`.
    pub(crate) fn poll_at(&self, i: usize) -> (r: Poll)
        requires
            i < self@.polls.len(),
        ensures
            r@ == self@.polls[i as int],
    {
        self.polls[i].duplicate()
    }

    /// A copy of vote `j`.
    pub(crate) fn vote_at(&self, j: usize) -> (r: Vote)
        requires
            j < self@.votes.len(),
        ensures
            r@ == self@.votes[j as int],
    {
        self.votes[j].duplicate()
    }

    /// Puts `p` in the place of poll `i`, and its question onto the votes of that poll.
    pub(crate) fn rewrite_poll(&mut self, i: usize, p: Poll)
        requires
            old(self).wf(),
            i < old(self)@.polls.len(),
            p@.wf(),
            p@.id == old(self)@.polls[i as int].id,
            p@.positive_votes == old(self)@.polls[i as int].positive_votes,
            p@.negative_votes == old(self)@.polls[i as int].negative_votes,
        ensures
            final(self).wf(),
            final(self)@ == old(self)@.with_poll_edited(i as int, p@),
    {
        let ghost before = self@;
        let ghost pv = p@;
        let id: u128 = p.id;
        let question: String = p.question.clone();
        self.polls.set(i, p);
        assert(self@.polls =~= before.polls.update(i as int, pv));
        let mut j: usize = 0;
        while j < self.votes.len()
            invariant
                j <= self.votes.len(),
                i < before.polls.len(),
                self@.votes.len() == before.votes.len(),
                self@.polls == before.polls.update(i as int, pv),
                question@ == pv.question,
                id == pv.id,
                forall|k: int|
                    0 <= k < before.votes.len() ==> #[trigger] self@.votes[k] == if k < j {
                        asking(before.votes, id, pv.question)[k]
                    } else {
                        before.votes[k]
                    },
            decreases self.votes.len() - j,
        {
            let ghost earlier = self@.votes;
            assert(earlier[j as int] == before.votes[j as int]);
            if self.votes[j].poll_id == id {
                let mut v = self.votes[j].duplicate();
                v.poll_question = question.clone();
                let ghost asked = v@;
                self.votes.set(j, v);
                assert(self@.votes =~= earlier.update(j as int, asked));
            }
            assert(self@.polls =~= before.polls.update(i as int, pv));
            assert forall|k: int| 0 <= k < before.votes.len() implies #[trigger] self@.votes[k]
                == if k < j + 1 {
                asking(before.votes, id, pv.question)[k]
            } else {
                before.votes[k]
            } by {
                if k != j {
                    assert(self@.votes[k] == earlier[k]);
                }
            }
            j += 1;
        }
        proof {
            assert(self@.votes =~= asking(before.votes, pv.id, pv.question));
            lemma_with_poll_edited_keeps_sound(before, i as int, pv);
        }
    }

    /// Takes poll `i` out, together with the votes that answer it.
    pub(crate) fn remove_poll(&mut self, i: usize) -> (r: Poll)
        requires
            old(self).wf(),
            i < old(self)@.polls.len(),
        ensures
            final(self).wf(),
            r@ == old(self)@.polls[i as int],
            final(self)@ == old(self)@.without_poll_at(i as int),
    {
        let ghost before = self@;
        let gone = self.polls.remove(i);
        assert(self@.polls =~= before.polls.remove(i as int));
        let mut kept: Vec<Vote> = Vec::new();
        let mut j: usize = 0;
        assert(before.votes.take(0) =~= Seq::<VoteView>::empty());
        assert(vote_views(kept@) =~= Seq::<VoteView>::empty());
        proof {
            reveal(Seq::filter);
        }
        while j < self.votes.len()
            invariant
                j <= self.votes.len(),
                self@.votes == before.votes,
                vote_views(kept@) == without_poll(before.votes.take(j as int), gone.id),
            decreases self.votes.len() - j,
        {
            proof {
                let seen = before.votes.take(j as int);
                assert(before.votes.take(j + 1) =~= seen.push(before.votes[j as int]));
                seen.lemma_filter_push(before.votes[j as int], placed_elsewhere(gone.id));
            }
            if self.votes[j].poll_id != gone.id {
                let ghost earlier = kept@;
                let copy = self.votes[j].duplicate();
                kept.push(copy);
                assert(vote_views(kept@) =~= vote_views(earlier).push(copy@));
            }
            j += 1;
        }
        assert(before.votes.take(j as int) =~= before.votes);
        self.votes = kept;
        proof {
            assert(self@.polls =~= before.polls.remove(i as int));
            lemma_without_poll_at_keeps_sound(before, i as int);
        }
        gone
    }

    /// Makes vote `j` say `choice`, gives it `comment` if there is one, and has its poll's
    /// counts follow.
    pub(crate) fn change_vote(&mut self, j: usize, choice: VoteChoice, comment: Option<String>) -> (r:
        Result<(), StoreError>)
        requires
            old(self).wf(),
            j < old(self)@.votes.len(),
            comment matches Some(c) ==> c@.len() <= 100,
        ensures
            final(self).wf(),
            ({
                let before = old(self)@.votes[j as int];
                let text = match comment {
                    Some(c) => c@,
                    None => before.comment,
                };
                if choice != before.choice && tally(old(self)@.votes, before.poll_id, choice)
                    >= i16::MAX {
                    r == Err::<(), StoreError>(StoreError::TallyOverflow) && final(self)@ == old(
                        self,
                    )@
                } else {
                    r is Ok && final(self)@ == old(self)@.with_vote_changed(j as int, choice, text)
                }
            }),
    {
        let ghost before = self@;
        proof {
            lemma_index_is_unique(before);
            assert(before.has_poll(before.votes[j as int].poll_id));
            assert(before.votes[j as int].wf());
        }
        let held: VoteChoice = self.votes[j].choice;
        let k: usize = match self.find_poll(self.votes[j].poll_id) {
            Some(k) => k,
            None => {
                return Err(StoreError::UnknownPoll);
            },
        };
        assert(before.polls[k as int].wf());
        let full: bool = match choice {
            VoteChoice::Yes => held != VoteChoice::Yes && self.polls[k].positive_votes == i16::MAX,
            VoteChoice::No => held != VoteChoice::No && self.polls[k].negative_votes == i16::MAX,
        };
        if full {
            return Err(StoreError::TallyOverflow);
        }
        let (yes, no) = tally_delta(Some(held), Some(choice));
        let mut v = self.votes[j].duplicate();
        v.choice = choice;
        match comment {
            Some(c) => {
                v.comment = c;
            },
            None => {},
        }
        let ghost changed = v@;
        proof {
            lemma_tally_remove(before.votes, j as int, before.votes[j as int].poll_id, held);
        }
        self.votes.set(j, v);
        assert(self@.votes =~= before.votes.update(j as int, changed));
        self.move_counts(k, yes, no);
        proof {
            assert(self@.polls =~= before.with_vote_changed(
                j as int,
                choice,
                changed.comment,
            ).polls);
            lemma_with_vote_changed_keeps_sound(before, j as int, choice, changed.comment);
        }
        Ok(())
    }

    /// Takes vote `j` out; its poll no longer counts it.
    pub(crate) fn remove_vote(&mut self, j: usize) -> (r: Vote)
        requires
            old(self).wf(),
            j < old(self)@.votes.len(),
        ensures
            final(self).wf(),
            r@ == old(self)@.votes[j as int],
            final(self)@ == old(self)@.without_vote_at(j as int),
    {
        let ghost before = self@;
        proof {
            lemma_index_is_unique(before);
            assert(before.has_poll(before.votes[j as int].poll_id));
            lemma_tally_remove(
                before.votes,
                j as int,
                before.votes[j as int].poll_id,
                before.votes[j as int].choice,
            );
        }
        let gone = self.votes.remove(j);
        assert(self@.votes =~= before.votes.remove(j as int));
        let found = self.find_poll(gone.poll_id);
        if let Some(k) = found {
            assert(before.polls[k as int].wf());
            let (yes, no) = tally_delta(Some(gone.choice), None);
            self.move_counts(k, yes, no);
        }
        proof {
            assert(self@.polls =~= before.without_vote_at(j as int).polls);
            lemma_without_vote_at_keeps_sound(before, j as int);
        }
        gone
    }

    /// A copy of the poll with this id, if there is one.
    pub fn poll_with_id(&self, id: u128) -> (r: Option<Poll>)
        requires
            self.wf(),
        ensures
            match r {
                Some(p) => self@.has_poll(id) && p@ == self@.polls[self@.poll_index(id)],
                None => !self@.has_poll(id),
            },
    {
        proof {
            lemma_index_is_unique(self@);
        }
        match self.find_poll(id) {
            Some(i) => Some(self.polls[i].duplicate()),
            None => None,
        }
    }

    /// A copy of the vote with this id, if there is one.
    pub fn vote_with_id(&self, id: u128) -> (r: Option<Vote>)
        requires
            self.wf(),
        ensures
            match r {
                Some(v) => self@.has_vote(id) && v@ == self@.votes[self@.vote_index(id)],
                None => !self@.has_vote(id),
            },
    {
        proof {
            lemma_index_is_unique(self@);
        }
        match self.find_vote(id) {
            Some(j) => Some(self.votes[j].duplicate()),
            None => None,
        }
    }

    /// A copy of every poll, in the order in which they came.
    pub fn polls(&self) -> (r: Vec<Poll>)
        ensures
            poll_views(r@) == self@.polls,
    {
        let mut r: Vec<Poll> = Vec::new();
        let mut i: usize = 0;
        while i < self.polls.len()
            invariant
                i <= self.polls.len(),
                poll_views(r@) == self@.polls.take(i as int),
            decreases self.polls.len() - i,
        {
            let ghost before = r@;
            let copy = self.polls[i].duplicate();
            r.push(copy);
            assert(poll_views(r@) =~= poll_views(before).push(copy@));
            assert(self@.polls.take(i + 1) =~= self@.polls.take(i as int).push(
                self@.polls[i as int],
            ));
            i += 1;
        }
        assert(self@.polls.take(i as int) =~= self@.polls);
        r
    }

    /// A copy of every vote, in the order in which they came.
    pub fn votes(&self) -> (r: Vec<Vote>)
        ensures
            vote_views(r@) == self@.votes,
    {
        let mut r: Vec<Vote> = Vec::new();
        let mut j: usize = 0;
        while j < self.votes.len()
            invariant
                j <= self.votes.len(),
                vote_views(r@) == self@.votes.take(j as int),
            decreases self.votes.len() - j,
        {
            let ghost before = r@;
            let copy = self.votes[j].duplicate();
            r.push(copy);
            assert(vote_views(r@) =~= vote_views(before).push(copy@));
            assert(self@.votes.take(j + 1) =~= self@.votes.take(j as int).push(
                self@.votes[j as int],
            ));
            j += 1;
        }
        assert(self@.votes.take(j as int) =~= self@.votes);
        r
    }
}

} // verus!
