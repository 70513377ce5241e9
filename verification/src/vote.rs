//! Votes: one answer to one poll, and what is wrong with an answer that cannot become one.

use crate::clock::current_timestamp;
use crate::ident::fresh_id;
use crate::store::{
    lemma_index_is_unique, lemma_sound_counts_cover_votes, vote_views, Store, StoreError,
};
use crate::tally::{
    lemma_tally_unanswered, lemma_turnout_push, lemma_turnout_remove, lemma_turnout_update, tally,
    turnout,
};
use crate::text::{affirms, lemma_trimmed_is_no_longer, parse_yes_no, trim, trimmed};
use vstd::prelude::*;

verus! {

/// The most characters a comment may have.
pub const MAX_COMMENT_CHARS: usize = 100;

/// The weight every vote carries.
pub const VOTING_POWER: i16 = 1;

/// The answer a vote gives.
#[derive(Debug, Clone, Copy, PartialEq, Eq, Structural)]
pub enum VoteChoice {
    Yes,
    No,
}

impl VoteChoice {
    /// The letter that stands for the choice: `y` or `n`.
    pub open spec fn spec_token(self) -> Seq<char> {
        match self {
            VoteChoice::Yes => seq!['y'],
            VoteChoice::No => seq!['n'],
        }
    }

    /// The choice that an answer makes: exactly `y` or exactly `n`.
    pub open spec fn of_answer(answer: Seq<char>) -> Option<VoteChoice> {
        match affirms(answer) {
            Some(true) => Some(VoteChoice::Yes),
            Some(false) => Some(VoteChoice::No),
            None => None,
        }
    }

    /// The word shown for the choice: `Yes` or `No`.
    pub open spec fn spec_label(self) -> Seq<char> {
        match self {
            VoteChoice::Yes => seq!['Y', 'e', 's'],
            VoteChoice::No => seq!['N', 'o'],
        }
    }

    /// The letter that stands for the choice, as it is kept in a table; read as an answer,
    /// it makes this choice.
    pub fn token(&self) -> (r: &'static str)
        ensures
            r@ == self.spec_token(),
            Self::of_answer(r@) == Some(*self),
    {
        proof {
            reveal_strlit("y");
            reveal_strlit("n");
            assert("y"@ =~= seq!['y']);
            assert("n"@ =~= seq!['n']);
            assert("n"@[0] != "y"@[0]);
        }
        match self {
            VoteChoice::Yes => "y",
            VoteChoice::No => "n",
        }
    }

    /// Reads the answer to "yes or no?".
    pub fn parse(answer: &str) -> (r: Option<VoteChoice>)
        ensures
            r == Self::of_answer(answer@),
    {
        match parse_yes_no(answer) {
            Some(true) => Some(VoteChoice::Yes),
            Some(false) => Some(VoteChoice::No),
            None => None,
        }
    }

    /// The word shown for the choice.
    pub fn label(&self) -> (r: String)
        ensures
            r@ == self.spec_label(),
    {
        proof {
            reveal_strlit("Yes");
            reveal_strlit("No");
            assert("Yes"@ =~= seq!['Y', 'e', 's']);
            assert("No"@ =~= seq!['N', 'o']);
        }
        match self {
            VoteChoice::Yes => "Yes".to_owned(),
            VoteChoice::No => "No".to_owned(),
        }
    }
}

/// A vote as it is listed: the answer, an optional comment, and the poll it answers together
/// with that poll's question.
#[derive(Debug, Clone, PartialEq)]
pub struct Vote {
    pub id: u128,
    pub choice: VoteChoice,
    pub comment: String,
    pub voting_power: i16,
    pub create_date: i64,
    pub poll_id: u128,
    pub poll_question: String,
}

/// What a vote holds, as plain values.
pub struct VoteView {
    pub id: u128,
    pub choice: VoteChoice,
    pub comment: Seq<char>,
    pub voting_power: i16,
    pub create_date: i64,
    pub poll_id: u128,
    pub poll_question: Seq<char>,
}

impl View for Vote {
    type V = VoteView;

    open spec fn view(&self) -> VoteView {
        VoteView {
            id: self.id,
            choice: self.choice,
            comment: self.comment@,
            voting_power: self.voting_power,
            create_date: self.create_date,
            poll_id: self.poll_id,
            poll_question: self.poll_question@,
        }
    }
}

impl VoteView {
    /// A vote is sound when its comment has at most 100 characters and it weighs 1.
    pub open spec fn wf(self) -> bool {
        &&& self.comment.len() <= 100
        &&& self.voting_power == 1
    }
}

impl Vote {
    /// Checks that the vote is sound.
    pub fn is_valid(&self) -> (r: bool)
        ensures
            r == self@.wf(),
    {
        self.comment.as_str().unicode_len() <= MAX_COMMENT_CHARS && self.voting_power
            == VOTING_POWER
    }

    /// A second copy of the vote.
    pub fn duplicate(&self) -> (r: Vote)
        ensures
            r@ == self@,
    {
        Vote {
            id: self.id,
            choice: self.choice,
            comment: self.comment.clone(),
            voting_power: self.voting_power,
            create_date: self.create_date,
            poll_id: self.poll_id,
            poll_question: self.poll_question.clone(),
        }
    }
}

/// What can be wrong with the answers given to an operation on votes.
#[derive(Debug, Clone, Copy, PartialEq, Eq, Structural)]
pub enum VoteFault {
    /// The answer is neither `y` nor `n`.
    InvalidChoice,
    /// The comment has more than 100 characters.
    CommentTooLong,
}

impl VoteFault {
    /// The sentence that reports the fault to the user.
    pub open spec fn spec_message(self) -> Seq<char> {
        match self {
            VoteFault::InvalidChoice => "Invalid Vote."@,
            VoteFault::CommentTooLong => "Comment is too long. Comment only can have up to 100 chars."@,
        }
    }

    /// The sentence that reports the fault to the user.
    pub fn message(self) -> (r: &'static str)
        ensures
            r@ == self.spec_message(),
    {
        match self {
            VoteFault::InvalidChoice => "Invalid Vote.",
            VoteFault::CommentTooLong => "Comment is too long. Comment only can have up to 100 chars.",
        }
    }
}

/// An answer that was refused, with the sentence that says why.
#[derive(Debug, PartialEq)]
pub struct ValidationError {
    pub details: String,
}

impl ValidationError {
    /// The error that reports `msg`.
    pub fn new(msg: &str) -> (e: ValidationError)
        ensures
            e.details@ == msg@,
    {
        ValidationError { details: msg.to_owned() }
    }

    /// The sentence that says why.
    pub fn message(&self) -> (r: String)
        ensures
            r@ == self.details@,
    {
        self.details.clone()
    }
}

/// Why an operation on votes did not go through.
#[derive(Debug, PartialEq)]
pub enum VoteError {
    /// An answer was refused.
    Validation(ValidationError),
    /// The store refused the change.
    Store(StoreError),
}

/// Whether `r` reports `fault`.
pub open spec fn refuses(r: Result<Vote, VoteError>, fault: VoteFault) -> bool {
    r matches Err(VoteError::Validation(e)) && e.details@ == fault.spec_message()
}

/// Whether `r` reports that the store refused the change, for the reason `e`.
pub open spec fn fails_with(r: Result<Vote, VoteError>, e: StoreError) -> bool {
    r == Err::<Vote, VoteError>(VoteError::Store(e))
}

/// The error that reports `fault`.
fn refusal(fault: VoteFault) -> (e: VoteError)
    ensures
        e matches VoteError::Validation(v) && v.details@ == fault.spec_message(),
{
    VoteError::Validation(ValidationError::new(fault.message()))
}

/// What is wrong with the answers given to cast a vote, if anything; the choice is judged
/// first and must be `y` or `n` as it stands; the comment is measured as it stands.
pub open spec fn casting_fault(vote: Seq<char>, comment: Seq<char>) -> Option<VoteFault> {
    if VoteChoice::of_answer(vote) is None {
        Some(VoteFault::InvalidChoice)
    } else if comment.len() > 100 {
        Some(VoteFault::CommentTooLong)
    } else {
        None
    }
}

/// What is wrong with the answers given to edit a vote, if anything; the comment is judged
/// first and measured as it stands; the choice must be `y` or `n` as it stands.
pub open spec fn editing_fault(new_choice: Seq<char>, new_comment: Seq<char>) -> Option<VoteFault> {
    if new_comment.len() > 100 {
        Some(VoteFault::CommentTooLong)
    } else if VoteChoice::of_answer(new_choice) is None {
        Some(VoteFault::InvalidChoice)
    } else {
        None
    }
}

/// The vote that is cast at `now` under `id` on poll `poll_id`, before the store gives it
/// the poll's question. The comment is kept without the blanks at its ends.
pub open spec fn cast(id: u128, poll_id: u128, vote: Seq<char>, comment: Seq<char>, now: i64) -> VoteView {
    VoteView {
        id: id,
        choice: VoteChoice::of_answer(vote)->0,
        comment: trimmed(comment),
        voting_power: 1,
        create_date: now,
        poll_id: poll_id,
        poll_question: Seq::empty(),
    }
}

/// The comment a vote carries after an edit: the new one without the blanks at its ends, or
/// the one it had where nothing is left of the new one.
pub open spec fn edited_comment(held: Seq<char>, new_comment: Seq<char>) -> Seq<char> {
    if trimmed(new_comment).len() == 0 {
        held
    } else {
        trimmed(new_comment)
    }
}

/// Whether a vote handed in is out of date: it does not say what the store holds, or names
/// another poll.
pub open spec fn is_stale(held: VoteView, choice: VoteChoice, poll_id: u128) -> bool {
    choice != held.choice || poll_id != held.poll_id
}

/// Judges the answers given to cast a vote, the choice first. Sound answers are handed
/// back as what they ask for: the choice, and the comment without the blanks at its ends.
pub fn check_casting(vote: &str, comment: &str) -> (r: Result<(VoteChoice, String), VoteFault>)
    ensures
        match casting_fault(vote@, comment@) {
            Some(fault) => r == Err::<(VoteChoice, String), VoteFault>(fault),
            None => r matches Ok(asked) && Some(asked.0) == VoteChoice::of_answer(vote@)
                && asked.1@ == trimmed(comment@),
        },
{
    let choice = match VoteChoice::parse(vote) {
        Some(choice) => choice,
        None => {
            return Err(VoteFault::InvalidChoice);
        },
    };
    if comment.unicode_len() > MAX_COMMENT_CHARS {
        return Err(VoteFault::CommentTooLong);
    }
    Ok((choice, trim(comment)))
}

/// Keeps the vote that is cast at `now` under `id` with a choice and a comment that were
/// judged before, and counts it on its poll.
fn cast_vote(
    store: &mut Store,
    poll_id: u128,
    choice: VoteChoice,
    comment: String,
    id: u128,
    now: i64,
) -> (r: Result<Vote, VoteError>)
    requires
        old(store).wf(),
        comment@.len() <= 100,
    ensures
        final(store).wf(),
        final(store)@.counts_cover_votes(),
        ({
            let v = VoteView {
                id: id,
                choice: choice,
                comment: comment@,
                voting_power: 1,
                create_date: now,
                poll_id: poll_id,
                poll_question: Seq::empty(),
            };
            if old(store)@.has_vote(id) {
                fails_with(r, StoreError::DuplicateId) && final(store)@ == old(store)@
            } else if !old(store)@.has_poll(poll_id) {
                fails_with(r, StoreError::UnknownPoll) && final(store)@ == old(store)@
            } else if tally(old(store)@.votes, poll_id, choice) >= i16::MAX {
                fails_with(r, StoreError::TallyOverflow) && final(store)@ == old(store)@
            } else {
                &&& r matches Ok(made)
                &&& made@ == old(store)@.joined(v)
                &&& final(store)@ == old(store)@.with_vote(made@)
                &&& turnout(final(store)@.votes, poll_id) == turnout(old(store)@.votes, poll_id)
                    + 1
            }
        }),
{
    let cast = Vote {
        id: id,
        choice: choice,
        comment: comment,
        voting_power: VOTING_POWER,
        create_date: now,
        poll_id: poll_id,
        poll_question: String::new(),
    };
    let ghost before = store@;
    let outcome = store.insert_vote(cast);
    proof {
        lemma_sound_counts_cover_votes(store@);
    }
    match outcome {
        Ok(()) => {
            let last: usize = store.vote_count() - 1;
            let made = store.vote_at(last);
            proof {
                lemma_turnout_push(before.votes, made@, poll_id);
            }
            Ok(made)
        },
        Err(e) => Err(VoteError::Store(e)),
    }
}

/// Every vote, in the order in which they came, each with the question of its poll.
pub fn get_votes(store: &Store) -> (r: Vec<Vote>)
    ensures
        vote_views(r@) == store@.votes,
{
    store.votes()
}

/// Casts the vote that is made at `now` under `id`, and counts it on its poll.
///
/// The answers are judged first. A sound vote is refused if `id` is taken, if no poll has
/// the id `poll_id`, or if that poll's count cannot go higher.
pub fn create_vote_at(
    store: &mut Store,
    poll_id: u128,
    vote: &str,
    comment: String,
    id: u128,
    now: i64,
) -> (r: Result<Vote, VoteError>)
    requires
        old(store).wf(),
    ensures
        final(store).wf(),
        match casting_fault(vote@, comment@) {
            Some(fault) => refuses(r, fault) && final(store)@ == old(store)@,
            None => {
                let v = cast(id, poll_id, vote@, comment@, now);
                if old(store)@.has_vote(id) {
                    fails_with(r, StoreError::DuplicateId) && final(store)@ == old(store)@
                } else if !old(store)@.has_poll(poll_id) {
                    fails_with(r, StoreError::UnknownPoll) && final(store)@ == old(store)@
                } else if tally(old(store)@.votes, poll_id, v.choice) >= i16::MAX {
                    fails_with(r, StoreError::TallyOverflow) && final(store)@ == old(store)@
                } else {
                    &&& r matches Ok(made)
                    &&& made@ == old(store)@.joined(v)
                    &&& final(store)@ == old(store)@.with_vote(made@)
                    &&& turnout(final(store)@.votes, poll_id) == turnout(
                        old(store)@.votes,
                        poll_id,
                    ) + 1
                }
            },
        },
        final(store)@.counts_cover_votes(),
{
    proof {
        lemma_sound_counts_cover_votes(store@);
    }
    match check_casting(vote, comment.as_str()) {
        Ok((choice, kept)) => {
            proof {
                lemma_trimmed_is_no_longer(comment@);
            }
            cast_vote(store, poll_id, choice, kept, id, now)
        },
        Err(fault) => Err(refusal(fault)),
    }
}

/// Casts a vote now, under a new id, and counts it on its poll.
///
/// The answers are judged first, and they alone decide whether they are refused: the id
/// is drawn and the clock is read for sound answers only. A sound vote is cast unless the
/// new id is taken, no poll has the id `poll_id`, or that poll's count cannot go higher.
/// In a store without votes no id is taken and no count is full: there a sound vote on a
/// poll that is there is always cast. Whatever comes of it, the two counts of every poll
/// add up to its votes.
pub fn create_vote(store: &mut Store, poll_id: u128, vote: &str, comment: String) -> (r: Result<
    Vote,
    VoteError,
>)
    requires
        old(store).wf(),
    ensures
        final(store).wf(),
        casting_fault(vote@, comment@) matches Some(fault) ==> refuses(r, fault) && final(store)@
            == old(store)@,
        casting_fault(vote@, comment@) is None ==> match r {
            Ok(made) => {
                &&& made@ == old(store)@.joined(
                    cast(made.id, poll_id, vote@, comment@, made.create_date),
                )
                &&& !old(store)@.has_vote(made.id)
                &&& old(store)@.has_poll(poll_id)
                &&& tally(old(store)@.votes, poll_id, made.choice) < i16::MAX
                &&& final(store)@ == old(store)@.with_vote(made@)
                &&& turnout(final(store)@.votes, poll_id) == turnout(old(store)@.votes, poll_id)
                    + 1
            },
            Err(e) => {
                &&& final(store)@ == old(store)@
                &&& (e == VoteError::Store(StoreError::DuplicateId) && old(store)@.votes.len()
                    > 0) || (e == VoteError::Store(StoreError::UnknownPoll) && !old(
                    store,
                )@.has_poll(poll_id)) || (e == VoteError::Store(StoreError::TallyOverflow)
                    && old(store)@.has_poll(poll_id) && tally(
                    old(store)@.votes,
                    poll_id,
                    VoteChoice::of_answer(vote@)->0,
                ) >= i16::MAX)
            },
        },
        casting_fault(vote@, comment@) is None && old(store)@.votes.len() == 0 ==> (if old(
            store,
        )@.has_poll(poll_id) {
            r is Ok
        } else {
            fails_with(r, StoreError::UnknownPoll)
        }),
        final(store)@.counts_cover_votes(),
{
    proof {
        lemma_sound_counts_cover_votes(store@);
    }
    match check_casting(vote, comment.as_str()) {
        Ok((choice, kept)) => {
            proof {
                lemma_trimmed_is_no_longer(comment@);
                if store@.votes.len() == 0 {
                    lemma_tally_unanswered(store@.votes, poll_id, choice);
                }
            }
            let id = fresh_id();
            let now = current_timestamp();
            cast_vote(store, poll_id, choice, kept, id, now)
        },
        Err(fault) => Err(refusal(fault)),
    }
}

/// Edits the vote that `selected_vote` names, which `current_vote` shows as the caller
/// knows it.
///
/// The vote takes the new choice, and the new comment unless nothing is left of it once
/// the blanks are cut. Where the choice changes, its poll counts one less for the old
/// choice and one more for the new. Every poll has as many votes as before, and its two
/// counts add up to them. Hands back `selected_vote` as it came in.
pub fn edit_vote(
    store: &mut Store,
    current_vote: &Vote,
    selected_vote: &Vote,
    new_choice: String,
    new_comment: String,
) -> (r: Result<Vote, VoteError>)
    requires
        old(store).wf(),
    ensures
        final(store).wf(),
        match editing_fault(new_choice@, new_comment@) {
            Some(fault) => refuses(r, fault) && final(store)@ == old(store)@,
            None => if !old(store)@.has_vote(selected_vote.id) {
                fails_with(r, StoreError::UnknownVote) && final(store)@ == old(store)@
            } else {
                let j = old(store)@.vote_index(selected_vote.id);
                let held = old(store)@.votes[j];
                let choice = VoteChoice::of_answer(new_choice@)->0;
                if is_stale(held, current_vote.choice, selected_vote.poll_id) {
                    fails_with(r, StoreError::StaleVote) && final(store)@ == old(store)@
                } else if choice != held.choice && tally(old(store)@.votes, held.poll_id, choice)
                    >= i16::MAX {
                    fails_with(r, StoreError::TallyOverflow) && final(store)@ == old(store)@
                } else {
                    &&& r matches Ok(shown)
                    &&& shown@ == selected_vote@
                    &&& final(store)@ == old(store)@.with_vote_changed(
                        j,
                        choice,
                        edited_comment(held.comment, new_comment@),
                    )
                }
            },
        },
        final(store)@.counts_cover_votes(),
        forall|poll_id: u128| #[trigger]
            turnout(final(store)@.votes, poll_id) == turnout(old(store)@.votes, poll_id),
{
    proof {
        lemma_sound_counts_cover_votes(store@);
    }
    if new_comment.as_str().unicode_len() > MAX_COMMENT_CHARS {
        return Err(refusal(VoteFault::CommentTooLong));
    }
    let choice = match VoteChoice::parse(new_choice.as_str()) {
        Some(choice) => choice,
        None => {
            return Err(refusal(VoteFault::InvalidChoice));
        },
    };
    let j: usize = match store.find_vote(selected_vote.id) {
        Some(j) => j,
        None => {
            return Err(VoteError::Store(StoreError::UnknownVote));
        },
    };
    proof {
        lemma_index_is_unique(store@);
        lemma_trimmed_is_no_longer(new_comment@);
    }
    let held = store.vote_at(j);
    if current_vote.choice != held.choice || selected_vote.poll_id != held.poll_id {
        return Err(VoteError::Store(StoreError::StaleVote));
    }
    let kept = trim(new_comment.as_str());
    let comment: Option<String> = if kept.as_str().unicode_len() == 0 {
        None
    } else {
        Some(kept)
    };
    let ghost before = store@;
    let outcome = store.change_vote(j, choice, comment);
    proof {
        lemma_sound_counts_cover_votes(store@);
        assert forall|poll_id: u128| #[trigger]
            turnout(store@.votes, poll_id) == turnout(before.votes, poll_id) by {
            if outcome is Ok {
                lemma_turnout_update(before.votes, j as int, store@.votes[j as int], poll_id);
            }
        }
    }
    match outcome {
        Ok(()) => Ok(selected_vote.duplicate()),
        Err(e) => Err(VoteError::Store(e)),
    }
}

/// Deletes the vote that `selected_vote` names; its poll counts one less for what the vote
/// said. Hands back `selected_vote` as it came in.
pub fn delete_vote(store: &mut Store, selected_vote: &Vote) -> (r: Result<Vote, VoteError>)
    requires
        old(store).wf(),
    ensures
        final(store).wf(),
        if !old(store)@.has_vote(selected_vote.id) {
            fails_with(r, StoreError::UnknownVote) && final(store)@ == old(store)@
        } else {
            let j = old(store)@.vote_index(selected_vote.id);
            if is_stale(old(store)@.votes[j], selected_vote.choice, selected_vote.poll_id) {
                fails_with(r, StoreError::StaleVote) && final(store)@ == old(store)@
            } else {
                &&& r matches Ok(shown)
                &&& shown@ == selected_vote@
                &&& final(store)@ == old(store)@.without_vote_at(j)
                &&& !final(store)@.has_vote(selected_vote.id)
                &&& turnout(final(store)@.votes, selected_vote.poll_id) + 1 == turnout(
                    old(store)@.votes,
                    selected_vote.poll_id,
                )
            }
        },
        final(store)@.counts_cover_votes(),
{
    proof {
        lemma_sound_counts_cover_votes(store@);
    }
    let j: usize = match store.find_vote(selected_vote.id) {
        Some(j) => j,
        None => {
            return Err(VoteError::Store(StoreError::UnknownVote));
        },
    };
    proof {
        lemma_index_is_unique(store@);
    }
    let held = store.vote_at(j);
    if selected_vote.choice != held.choice || selected_vote.poll_id != held.poll_id {
        return Err(VoteError::Store(StoreError::StaleVote));
    }
    let ghost before = store@;
    let _ = store.remove_vote(j);
    proof {
        lemma_sound_counts_cover_votes(store@);
        lemma_turnout_remove(before.votes, j as int, selected_vote.poll_id);
    }
    Ok(selected_vote.duplicate())
}

} // verus!
