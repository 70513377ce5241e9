//! Rows: polls and votes as the two tables keep them, and the way from one to the other.
//!
//! A row holds an id as text, a duration as its number of days, and a choice as the letter
//! `y` or `n`.

use crate::ident::{id_read, id_text, read_id, write_id};
use crate::poll::{Poll, PollDuration, PollView};
use crate::store::{
    lemma_index_is_unique, lemma_with_poll_keeps_sound, lemma_with_vote_keeps_sound, Store,
    StoreError, StoreView,
};
use crate::vote::{Vote, VoteChoice, VoteView};
use vstd::prelude::*;

verus! {

/// A poll as its table keeps it.
#[derive(Debug, Clone, PartialEq)]
pub struct PollRow {
    pub id: String,
    pub question: String,
    pub poll_duration: i64,
    pub create_date: i64,
    pub expiration_date: i64,
    pub positive_votes: i16,
    pub negative_votes: i16,
}

/// A vote as its table keeps it, next to the question of its poll.
#[derive(Debug, Clone, PartialEq)]
pub struct VoteRow {
    pub id: String,
    pub choice: String,
    pub comment: Option<String>,
    pub voting_power: i16,
    pub create_date: i64,
    pub poll_id: String,
    pub poll_question: String,
}

/// What can be wrong with a row.
#[derive(Debug, Clone, Copy, PartialEq, Eq, Structural)]
pub enum RowError {
    /// An id is no id.
    InvalidId,
    /// The duration is neither 7 nor 30 days.
    InvalidDuration,
    /// The choice is neither `y` nor `n`.
    InvalidChoice,
}

/// Whether `row` is the row that stands for the poll `p`.
pub open spec fn writes_poll(row: PollRow, p: PollView) -> bool {
    &&& row.id@ == id_text(p.id)
    &&& row.question@ == p.question
    &&& row.poll_duration == p.poll_duration.spec_days()
    &&& row.create_date == p.create_date
    &&& row.expiration_date == p.expiration_date
    &&& row.positive_votes == p.positive_votes
    &&& row.negative_votes == p.negative_votes
}

/// Whether `row` is the row that stands for the vote `v`.
pub open spec fn writes_vote(row: VoteRow, v: VoteView) -> bool {
    &&& row.id@ == id_text(v.id)
    &&& row.choice@ == v.choice.spec_token()
    &&& row.comment matches Some(comment) && comment@ == v.comment
    &&& row.voting_power == v.voting_power
    &&& row.create_date == v.create_date
    &&& row.poll_id@ == id_text(v.poll_id)
    &&& row.poll_question@ == v.poll_question
}

/// The comment of a row; a row without one has the empty comment.
pub open spec fn comment_of(row: VoteRow) -> Seq<char> {
    match row.comment {
        Some(comment) => comment@,
        None => Seq::empty(),
    }
}

/// The poll that a row stands for. The id is judged first, then the duration.
pub open spec fn poll_of_row(row: PollRow) -> Result<PollView, RowError> {
    match id_read(row.id@) {
        None => Err(RowError::InvalidId),
        Some(id) => match PollDuration::of_days(row.poll_duration as int) {
            None => Err(RowError::InvalidDuration),
            Some(duration) => Ok(
                PollView {
                    id: id,
                    question: row.question@,
                    poll_duration: duration,
                    create_date: row.create_date,
                    expiration_date: row.expiration_date,
                    positive_votes: row.positive_votes,
                    negative_votes: row.negative_votes,
                },
            ),
        },
    }
}

/// The vote that a row stands for. The vote's id is judged first, then the choice, then the
/// id of the poll.
pub open spec fn vote_of_row(row: VoteRow) -> Result<VoteView, RowError> {
    match id_read(row.id@) {
        None => Err(RowError::InvalidId),
        Some(id) => match VoteChoice::of_answer(row.choice@) {
            None => Err(RowError::InvalidChoice),
            Some(choice) => match id_read(row.poll_id@) {
                None => Err(RowError::InvalidId),
                Some(poll_id) => Ok(
                    VoteView {
                        id: id,
                        choice: choice,
                        comment: comment_of(row),
                        voting_power: row.voting_power,
                        create_date: row.create_date,
                        poll_id: poll_id,
                        poll_question: row.poll_question@,
                    },
                ),
            },
        },
    }
}

/// Writes a poll as a row.
pub fn encode_poll(poll: &Poll) -> (row: PollRow)
    ensures
        writes_poll(row, poll@),
{
    PollRow {
        id: write_id(poll.id),
        question: poll.question.clone(),
        poll_duration: poll.poll_duration.days() as i64,
        create_date: poll.create_date,
        expiration_date: poll.expiration_date,
        positive_votes: poll.positive_votes,
        negative_votes: poll.negative_votes,
    }
}

/// Reads a poll from a row. A row that was written for a poll is read back as that poll.
pub fn decode_poll(row: &PollRow) -> (r: Result<Poll, RowError>)
    ensures
        match poll_of_row(*row) {
            Ok(p) => r matches Ok(q) && q@ == p,
            Err(e) => r == Err::<Poll, RowError>(e),
        },
        forall|p: PollView| writes_poll(*row, p) ==> (r matches Ok(q) && q@ == p),
{
    let id = match read_id(row.id.as_str()) {
        Some(id) => id,
        None => {
            return Err(RowError::InvalidId);
        },
    };
    let duration = match PollDuration::from_days(row.poll_duration) {
        Some(duration) => duration,
        None => {
            return Err(RowError::InvalidDuration);
        },
    };
    Ok(
        Poll {
            id: id,
            question: row.question.clone(),
            poll_duration: duration,
            create_date: row.create_date,
            expiration_date: row.expiration_date,
            positive_votes: row.positive_votes,
            negative_votes: row.negative_votes,
        },
    )
}

/// Writes a vote as a row.
pub fn encode_vote(vote: &Vote) -> (row: VoteRow)
    ensures
        writes_vote(row, vote@),
{
    VoteRow {
        id: write_id(vote.id),
        choice: vote.choice.token().to_owned(),
        comment: Some(vote.comment.clone()),
        voting_power: vote.voting_power,
        create_date: vote.create_date,
        poll_id: write_id(vote.poll_id),
        poll_question: vote.poll_question.clone(),
    }
}

/// Reads a vote from a row. A row that was written for a vote is read back as that vote.
pub fn decode_vote(row: &VoteRow) -> (r: Result<Vote, RowError>)
    ensures
        match vote_of_row(*row) {
            Ok(v) => r matches Ok(w) && w@ == v,
            Err(e) => r == Err::<Vote, RowError>(e),
        },
        forall|v: VoteView| writes_vote(*row, v) ==> (r matches Ok(w) && w@ == v),
{
    let id = match read_id(row.id.as_str()) {
        Some(id) => id,
        None => {
            return Err(RowError::InvalidId);
        },
    };
    let choice = match VoteChoice::parse(row.choice.as_str()) {
        Some(choice) => choice,
        None => {
            return Err(RowError::InvalidChoice);
        },
    };
    let poll_id = match read_id(row.poll_id.as_str()) {
        Some(poll_id) => poll_id,
        None => {
            return Err(RowError::InvalidId);
        },
    };
    let comment = match &row.comment {
        Some(comment) => comment.clone(),
        None => String::new(),
    };
    proof {
        assert(VoteChoice::Yes.spec_token()[0] == 'y');
        assert(VoteChoice::No.spec_token()[0] == 'n');
    }
    Ok(
        Vote {
            id: id,
            choice: choice,
            comment: comment,
            voting_power: row.voting_power,
            create_date: row.create_date,
            poll_id: poll_id,
            poll_question: row.poll_question.clone(),
        },
    )
}

/// Why the rows of the two tables do not make a store.
#[derive(Debug, Clone, Copy, PartialEq, Eq, Structural)]
pub enum LoadError {
    /// A row stands for nothing.
    Row(RowError),
    /// The store refused what a row stands for.
    Store(StoreError),
}

/// The store `s` once it has taken in the polls of `rows`, one after the other, each with
/// no answers counted; the first row that cannot be read or kept ends it.
pub open spec fn taking_polls(s: StoreView, rows: Seq<PollRow>) -> Result<StoreView, LoadError>
    decreases rows.len(),
{
    if rows.len() == 0 {
        Ok(s)
    } else {
        match taking_polls(s, rows.drop_last()) {
            Err(e) => Err(e),
            Ok(t) => match poll_of_row(rows.last()) {
                Err(e) => Err(LoadError::Row(e)),
                Ok(p) => match t.poll_refusal(p.unanswered()) {
                    Some(e) => Err(LoadError::Store(e)),
                    None => Ok(t.with_poll(p.unanswered())),
                },
            },
        }
    }
}

/// The store `s` once it has taken in the votes of `rows`, one after the other, each
/// counted on its poll and given that poll's question; the first row that cannot be read
/// or kept ends it.
pub open spec fn taking_votes(s: StoreView, rows: Seq<VoteRow>) -> Result<StoreView, LoadError>
    decreases rows.len(),
{
    if rows.len() == 0 {
        Ok(s)
    } else {
        match taking_votes(s, rows.drop_last()) {
            Err(e) => Err(e),
            Ok(t) => match vote_of_row(rows.last()) {
                Err(e) => Err(LoadError::Row(e)),
                Ok(v) => match t.vote_refusal(v) {
                    Some(e) => Err(LoadError::Store(e)),
                    None => Ok(t.with_vote(t.joined(v))),
                },
            },
        }
    }
}

/// The store that the rows of the two tables make: the polls first, then the votes. The
/// counts are those of the votes, whatever the rows of the polls say.
pub open spec fn stored(polls: Seq<PollRow>, votes: Seq<VoteRow>) -> Result<StoreView, LoadError> {
    match taking_polls(StoreView { polls: Seq::empty(), votes: Seq::empty() }, polls) {
        Err(e) => Err(e),
        Ok(s) => taking_votes(s, votes),
    }
}

/// Once a row has ended it, the rows after it change nothing.
pub proof fn lemma_taking_polls_ends(s: StoreView, rows: Seq<PollRow>, k: int)
    requires
        0 <= k <= rows.len(),
        taking_polls(s, rows.take(k)) is Err,
    ensures
        taking_polls(s, rows) == taking_polls(s, rows.take(k)),
    decreases rows.len() - k,
{
    if k < rows.len() {
        assert(rows.take(k + 1).drop_last() =~= rows.take(k));
        lemma_taking_polls_ends(s, rows, k + 1);
    } else {
        assert(rows.take(k) =~= rows);
    }
}

/// Once a row has ended it, the rows after it change nothing.
pub proof fn lemma_taking_votes_ends(s: StoreView, rows: Seq<VoteRow>, k: int)
    requires
        0 <= k <= rows.len(),
        taking_votes(s, rows.take(k)) is Err,
    ensures
        taking_votes(s, rows) == taking_votes(s, rows.take(k)),
    decreases rows.len() - k,
{
    if k < rows.len() {
        assert(rows.take(k + 1).drop_last() =~= rows.take(k));
        lemma_taking_votes_ends(s, rows, k + 1);
    } else {
        assert(rows.take(k) =~= rows);
    }
}

/// Whether two polls are the same, counts aside.
pub open spec fn same_but_counts(a: PollView, b: PollView) -> bool {
    a.unanswered() == b.unanswered()
}

/// Where taking in polls goes through, the store is sound again; it holds what it held and,
/// after that, the poll of each row in order, with no answers counted.
pub proof fn lemma_taking_polls_holds_the_rows(s: StoreView, rows: Seq<PollRow>)
    requires
        s.wf(),
        taking_polls(s, rows) is Ok,
    ensures
        ({
            let t = taking_polls(s, rows)->Ok_0;
            &&& t.wf()
            &&& t.votes == s.votes
            &&& t.polls.len() == s.polls.len() + rows.len()
            &&& forall|i: int| 0 <= i < s.polls.len() ==> t.polls[i] == s.polls[i]
            &&& forall|i: int|
                0 <= i < rows.len() ==> ((#[trigger] poll_of_row(rows[i])) matches Ok(p)
                    && t.polls[s.polls.len() + i] == p.unanswered())
        }),
    decreases rows.len(),
{
    if rows.len() > 0 {
        let before = taking_polls(s, rows.drop_last())->Ok_0;
        let p = poll_of_row(rows.last())->Ok_0;
        lemma_taking_polls_holds_the_rows(s, rows.drop_last());
        lemma_with_poll_keeps_sound(before, p.unanswered());
        let t = taking_polls(s, rows)->Ok_0;
        assert(t == before.with_poll(p.unanswered()));
        assert forall|i: int| 0 <= i < rows.len() implies (#[trigger] poll_of_row(
            rows[i],
        )) matches Ok(q) && t.polls[s.polls.len() + i] == q.unanswered() by {
            if i < rows.len() - 1 {
                assert(rows.drop_last()[i] == rows[i]);
                assert(t.polls[s.polls.len() + i] == before.polls[s.polls.len() + i]);
            }
        }
    }
}

/// Where taking in votes goes through, the store is sound again; its polls are those it
/// held, counts aside; it holds the votes it held and, after them, the vote of each row in
/// order, with the question of the poll it answers.
pub proof fn lemma_taking_votes_holds_the_rows(s: StoreView, rows: Seq<VoteRow>)
    requires
        s.wf(),
        taking_votes(s, rows) is Ok,
    ensures
        ({
            let t = taking_votes(s, rows)->Ok_0;
            &&& t.wf()
            &&& t.polls.len() == s.polls.len()
            &&& forall|i: int|
                0 <= i < s.polls.len() ==> same_but_counts(#[trigger] t.polls[i], s.polls[i])
            &&& t.votes.len() == s.votes.len() + rows.len()
            &&& forall|j: int| 0 <= j < s.votes.len() ==> t.votes[j] == s.votes[j]
            &&& forall|j: int|
                0 <= j < rows.len() ==> ((#[trigger] vote_of_row(rows[j])) matches Ok(v)
                    && t.votes[s.votes.len() + j] == t.joined(v))
        }),
    decreases rows.len(),
{
    if rows.len() > 0 {
        let before = taking_votes(s, rows.drop_last())->Ok_0;
        let v = vote_of_row(rows.last())->Ok_0;
        lemma_taking_votes_holds_the_rows(s, rows.drop_last());
        lemma_index_is_unique(before);
        lemma_with_vote_keeps_sound(before, before.joined(v));
        let t = taking_votes(s, rows)->Ok_0;
        assert(t == before.with_vote(before.joined(v)));
        lemma_index_is_unique(t);
        assert forall|i: int| 0 <= i < s.polls.len() implies same_but_counts(
            #[trigger] t.polls[i],
            s.polls[i],
        ) by {
            assert(same_but_counts(before.polls[i], s.polls[i]));
        }
        assert forall|id: u128| #[trigger] before.has_poll(id) implies t.polls[t.poll_index(
            id,
        )].question == before.polls[before.poll_index(id)].question by {
            let k = before.poll_index(id);
            assert(t.polls[k].id == id);
        }
        assert forall|j: int| 0 <= j < rows.len() implies (#[trigger] vote_of_row(
            rows[j],
        )) matches Ok(w) && t.votes[s.votes.len() + j] == t.joined(w) by {
            if j < rows.len() - 1 {
                assert(rows.drop_last()[j] == rows[j]);
                let w = vote_of_row(rows[j])->Ok_0;
                assert(t.votes[s.votes.len() + j] == before.votes[s.votes.len() + j]);
                assert(before.has_poll(before.votes[s.votes.len() + j].poll_id));
            } else {
                assert(before.has_poll(v.poll_id));
            }
        }
    }
}

/// The store that rows make holds the poll of each row and the vote of each row, in order;
/// each vote carries the question of its poll, and the counts of each poll are those of
/// the votes.
pub proof fn lemma_stored_holds_the_rows(polls: Seq<PollRow>, votes: Seq<VoteRow>)
    requires
        stored(polls, votes) is Ok,
    ensures
        ({
            let s = stored(polls, votes)->Ok_0;
            &&& s.wf()
            &&& s.polls.len() == polls.len()
            &&& s.votes.len() == votes.len()
            &&& forall|i: int|
                0 <= i < polls.len() ==> ((#[trigger] poll_of_row(polls[i])) matches Ok(p)
                    && same_but_counts(s.polls[i], p))
            &&& forall|j: int|
                0 <= j < votes.len() ==> ((#[trigger] vote_of_row(votes[j])) matches Ok(v)
                    && s.votes[j] == s.joined(v))
        }),
{
    let empty = StoreView { polls: Seq::empty(), votes: Seq::empty() };
    let filled = taking_polls(empty, polls)->Ok_0;
    lemma_taking_polls_holds_the_rows(empty, polls);
    lemma_taking_votes_holds_the_rows(filled, votes);
    let s = stored(polls, votes)->Ok_0;
    assert forall|i: int| 0 <= i < polls.len() implies (#[trigger] poll_of_row(
        polls[i],
    )) matches Ok(p) && same_but_counts(s.polls[i], p) by {
        assert(same_but_counts(s.polls[i], filled.polls[i]));
    }
}

/// Makes a store of the rows of the two tables.
pub fn read_store(polls: &Vec<PollRow>, votes: &Vec<VoteRow>) -> (r: Result<Store, LoadError>)
    ensures
        match stored(polls@, votes@) {
            Ok(s) => r matches Ok(store) && store@ == s && store.wf(),
            Err(e) => r matches Err(x) && x == e,
        },
{
    let mut store = Store::new();
    let ghost empty = store@;
    let mut i: usize = 0;
    assert(polls@.take(0) =~= Seq::<PollRow>::empty());
    while i < polls.len()
        invariant
            i <= polls.len(),
            store.wf(),
            empty == (StoreView { polls: Seq::empty(), votes: Seq::empty() }),
            taking_polls(empty, polls@.take(i as int)) == Ok::<StoreView, LoadError>(store@),
        decreases polls.len() - i,
    {
        proof {
            assert(polls@.take(i + 1).drop_last() =~= polls@.take(i as int));
            assert(polls@.take(i + 1).last() == polls@[i as int]);
        }
        let read = match decode_poll(&polls[i]) {
            Ok(read) => read,
            Err(e) => {
                proof {
                    lemma_taking_polls_ends(empty, polls@, i + 1);
                }
                return Err(LoadError::Row(e));
            },
        };
        let poll = Poll {
            id: read.id,
            question: read.question,
            poll_duration: read.poll_duration,
            create_date: read.create_date,
            expiration_date: read.expiration_date,
            positive_votes: 0,
            negative_votes: 0,
        };
        match store.insert_poll(poll) {
            Ok(()) => {},
            Err(e) => {
                proof {
                    lemma_taking_polls_ends(empty, polls@, i + 1);
                }
                return Err(LoadError::Store(e));
            },
        }
        i += 1;
    }
    assert(polls@.take(i as int) =~= polls@);
    let ghost filled = store@;
    let mut j: usize = 0;
    assert(votes@.take(0) =~= Seq::<VoteRow>::empty());
    while j < votes.len()
        invariant
            j <= votes.len(),
            store.wf(),
            taking_polls(empty, polls@) == Ok::<StoreView, LoadError>(filled),
            empty == (StoreView { polls: Seq::empty(), votes: Seq::empty() }),
            taking_votes(filled, votes@.take(j as int)) == Ok::<StoreView, LoadError>(store@),
        decreases votes.len() - j,
    {
        proof {
            assert(votes@.take(j + 1).drop_last() =~= votes@.take(j as int));
            assert(votes@.take(j + 1).last() == votes@[j as int]);
        }
        let vote = match decode_vote(&votes[j]) {
            Ok(vote) => vote,
            Err(e) => {
                proof {
                    lemma_taking_votes_ends(filled, votes@, j + 1);
                }
                return Err(LoadError::Row(e));
            },
        };
        match store.insert_vote(vote) {
            Ok(()) => {},
            Err(e) => {
                proof {
                    lemma_taking_votes_ends(filled, votes@, j + 1);
                }
                return Err(LoadError::Store(e));
            },
        }
        j += 1;
    }
    assert(votes@.take(j as int) =~= votes@);
    Ok(store)
}

} // verus!
