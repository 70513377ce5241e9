//! Polls: what one holds, how long it runs, and what is wrong with an answer that cannot
//! become one.

use crate::clock::current_timestamp;
use crate::ident::fresh_id;
use crate::store::{poll_views, Store, StoreError};
use crate::tally::lemma_without_poll_keeps;
use crate::text::{
    affirms, lemma_trimmed_is_no_longer, parse_position, parse_yes_no, position, same_text,
    trim, trimmed,
};
use vstd::prelude::*;

verus! {

/// The answer that asks for a poll of one week.
pub const ONE_WEEK_ANSWER: &'static str = "7";

/// The answer that asks for a poll of one month.
pub const ONE_MONTH_ANSWER: &'static str = "30";

/// How long a poll stays open.
#[derive(Debug, Clone, Copy, PartialEq, Eq, Structural)]
pub enum PollDuration {
    OneWeek,
    OneMonth,
}

impl PollDuration {
    /// The length in days.
    pub open spec fn spec_days(self) -> int {
        match self {
            PollDuration::OneWeek => 7,
            PollDuration::OneMonth => 30,
        }
    }

    /// The length in seconds: 86 400 for each day.
    pub open spec fn spec_seconds(self) -> int {
        match self {
            PollDuration::OneWeek => 604800,
            PollDuration::OneMonth => 2592000,
        }
    }

    /// The duration of that many days, if there is one.
    pub open spec fn of_days(days: int) -> Option<PollDuration> {
        if days == 7 {
            Some(PollDuration::OneWeek)
        } else if days == 30 {
            Some(PollDuration::OneMonth)
        } else {
            None
        }
    }

    /// The number of days as a user types it: `7` or `30`.
    pub open spec fn spec_label(self) -> Seq<char> {
        match self {
            PollDuration::OneWeek => seq!['7'],
            PollDuration::OneMonth => seq!['3', '0'],
        }
    }

    /// The duration that an answer asks for: exactly `7` or exactly `30`. Any other answer
    /// asks for none, one with a blank or a sign beside the number too.
    pub open spec fn of_answer(answer: Seq<char>) -> Option<PollDuration> {
        if answer == PollDuration::OneWeek.spec_label() {
            Some(PollDuration::OneWeek)
        } else if answer == PollDuration::OneMonth.spec_label() {
            Some(PollDuration::OneMonth)
        } else {
            None
        }
    }

    /// The length in days, as it is kept in a table.
    pub fn days(&self) -> (r: i8)
        ensures
            r == self.spec_days(),
    {
        match self {
            PollDuration::OneWeek => 7,
            PollDuration::OneMonth => 30,
        }
    }

    /// The length in seconds.
    pub fn seconds(&self) -> (r: i64)
        ensures
            r == self.spec_seconds(),
            r == 86400 * self.spec_days(),
    {
        match self {
            PollDuration::OneWeek => 604800,
            PollDuration::OneMonth => 2592000,
        }
    }

    /// Reads a length in days back from a table.
    pub fn from_days(days: i64) -> (r: Option<PollDuration>)
        ensures
            r == Self::of_days(days as int),
    {
        if days == 7 {
            Some(PollDuration::OneWeek)
        } else if days == 30 {
            Some(PollDuration::OneMonth)
        } else {
            None
        }
    }

    /// Reads the answer to "7 days or 30 days?".
    pub fn parse(answer: &str) -> (r: Option<PollDuration>)
        ensures
            r == Self::of_answer(answer@),
    {
        proof {
            reveal_strlit("7");
            reveal_strlit("30");
            assert("7"@ =~= seq!['7']);
            assert("30"@ =~= seq!['3', '0']);
        }
        if same_text(answer, ONE_WEEK_ANSWER) {
            Some(PollDuration::OneWeek)
        } else if same_text(answer, ONE_MONTH_ANSWER) {
            Some(PollDuration::OneMonth)
        } else {
            None
        }
    }

    /// The number of days as a user types it; read as an answer, it asks for this duration.
    pub fn label(&self) -> (r: String)
        ensures
            r@ == self.spec_label(),
            Self::of_answer(r@) == Some(*self),
    {
        proof {
            reveal_strlit("7");
            reveal_strlit("30");
            assert("7"@ =~= seq!['7']);
            assert("30"@ =~= seq!['3', '0']);
        }
        match self {
            PollDuration::OneWeek => ONE_WEEK_ANSWER.to_owned(),
            PollDuration::OneMonth => ONE_MONTH_ANSWER.to_owned(),
        }
    }
}

/// The most characters a question may have.
pub const MAX_QUESTION_CHARS: usize = 150;

/// A poll as it is kept: a question, the window in which it can be answered, and the two
/// running counts of its answers.
#[derive(Debug, Clone, PartialEq)]
pub struct Poll {
    pub id: u128,
    pub question: String,
    pub poll_duration: PollDuration,
    pub create_date: i64,
    pub expiration_date: i64,
    pub positive_votes: i16,
    pub negative_votes: i16,
}

/// What a poll holds, as plain values.
pub struct PollView {
    pub id: u128,
    pub question: Seq<char>,
    pub poll_duration: PollDuration,
    pub create_date: i64,
    pub expiration_date: i64,
    pub positive_votes: i16,
    pub negative_votes: i16,
}

impl View for Poll {
    type V = PollView;

    open spec fn view(&self) -> PollView {
        PollView {
            id: self.id,
            question: self.question@,
            poll_duration: self.poll_duration,
            create_date: self.create_date,
            expiration_date: self.expiration_date,
            positive_votes: self.positive_votes,
            negative_votes: self.negative_votes,
        }
    }
}

impl PollView {
    /// A poll is sound when its question has between 1 and 150 characters, it closes exactly
    /// its duration after it opened, and neither count is negative.
    pub open spec fn wf(self) -> bool {
        &&& 1 <= self.question.len() <= 150
        &&& self.expiration_date == self.create_date + self.poll_duration.spec_seconds()
        &&& self.positive_votes >= 0
        &&& self.negative_votes >= 0
    }

    /// The same poll with no answers counted.
    pub open spec fn unanswered(self) -> PollView {
        PollView { positive_votes: 0, negative_votes: 0, ..self }
    }
}

impl Poll {
    /// Checks that the poll is sound.
    pub fn is_valid(&self) -> (r: bool)
        ensures
            r == self@.wf(),
    {
        let chars: usize = self.question.as_str().unicode_len();
        let closes: i128 = self.create_date as i128 + self.poll_duration.seconds() as i128;
        1 <= chars && chars <= MAX_QUESTION_CHARS && closes == self.expiration_date as i128
            && self.positive_votes >= 0 && self.negative_votes >= 0
    }

    /// A second copy of the poll.
    pub fn duplicate(&self) -> (r: Poll)
        ensures
            r@ == self@,
    {
        Poll {
            id: self.id,
            question: self.question.clone(),
            poll_duration: self.poll_duration,
            create_date: self.create_date,
            expiration_date: self.expiration_date,
            positive_votes: self.positive_votes,
            negative_votes: self.negative_votes,
        }
    }
}

/// Which operation on polls an answer was given to.
#[derive(Debug, Clone, Copy, PartialEq, Eq, Structural)]
pub enum PollAction {
    Create,
    Edit,
    Delete,
}

/// What can be wrong with the answers given to an operation on polls.
#[derive(Debug, Clone, Copy, PartialEq, Eq, Structural)]
pub enum PollFault {
    /// The question holds nothing but blanks.
    EmptyQuestion,
    /// The question has more than 150 characters.
    QuestionTooLong,
    /// The duration is neither `7` nor `30`.
    InvalidDuration,
    /// The answer to "a new duration?" is neither `y` nor `n`.
    InvalidDurationChoice,
    /// There is no poll to pick from.
    NoPollsAvailable,
    /// The answer picks no poll of the list.
    InvalidSelection,
    /// The user did not confirm.
    OperationCancelled,
}

impl PollFault {
    /// The sentence that reports the fault to the user.
    pub open spec fn spec_message(self, action: PollAction) -> Seq<char> {
        match self {
            PollFault::EmptyQuestion => "Question can't be empty."@,
            PollFault::QuestionTooLong => "Question is too long. Question only can have up to 150 chars."@,
            PollFault::InvalidDuration => match action {
                PollAction::Create => "Invalid input for Poll Duration. Must be 7 or 30."@,
                _ => "Invalid input for Poll Duration. Please enter 7 or 30 Days."@,
            },
            PollFault::InvalidDurationChoice => "Invalid input for choice 2. Please enter 'y' or 'n'."@,
            PollFault::NoPollsAvailable => match action {
                PollAction::Delete => "There are no polls to Delete."@,
                _ => "There are no polls to Edit."@,
            },
            PollFault::InvalidSelection => "Invalid input for selecting Poll. Please enter a valid number."@,
            PollFault::OperationCancelled => "Canceling operation. Not a Valid Confirmation."@,
        }
    }

    /// The sentence that reports the fault to the user.
    pub fn message(self, action: PollAction) -> (r: &'static str)
        ensures
            r@ == self.spec_message(action),
    {
        match self {
            PollFault::EmptyQuestion => "Question can't be empty.",
            PollFault::QuestionTooLong => "Question is too long. Question only can have up to 150 chars.",
            PollFault::InvalidDuration => match action {
                PollAction::Create => "Invalid input for Poll Duration. Must be 7 or 30.",
                _ => "Invalid input for Poll Duration. Please enter 7 or 30 Days.",
            },
            PollFault::InvalidDurationChoice => "Invalid input for choice 2. Please enter 'y' or 'n'.",
            PollFault::NoPollsAvailable => match action {
                PollAction::Delete => "There are no polls to Delete.",
                _ => "There are no polls to Edit.",
            },
            PollFault::InvalidSelection => "Invalid input for selecting Poll. Please enter a valid number.",
            PollFault::OperationCancelled => "Canceling operation. Not a Valid Confirmation.",
        }
    }
}

/// An answer that was refused, with the sentence that says why.
#[derive(Debug, PartialEq)]
pub struct ValidationError {
    pub details: String,
}

impl ValidationError {
    /// The error that reports `msg`.
    pub fn new(msg: &str) -> (e: ValidationError)
        ensures
            e.details@ == msg@,
    {
        ValidationError { details: msg.to_owned() }
    }

    /// The sentence that says why.
    pub fn message(&self) -> (r: String)
        ensures
            r@ == self.details@,
    {
        self.details.clone()
    }
}

/// Why an operation on polls did not go through.
#[derive(Debug, PartialEq)]
pub enum PollError {
    /// An answer was refused.
    Validation(ValidationError),
    /// The store refused the change.
    Store(StoreError),
}

/// Whether `r` reports `fault`, in the words that `action` has for it.
pub open spec fn refuses(r: Result<Poll, PollError>, fault: PollFault, action: PollAction) -> bool {
    r matches Err(PollError::Validation(e)) && e.details@ == fault.spec_message(action)
}

/// Whether `r` reports that the store refused the change, for the reason `e`.
pub open spec fn fails_with(r: Result<Poll, PollError>, e: StoreError) -> bool {
    r == Err::<Poll, PollError>(PollError::Store(e))
}

/// The error that reports `fault`.
fn refusal(fault: PollFault, action: PollAction) -> (e: PollError)
    ensures
        e matches PollError::Validation(v) && v.details@ == fault.spec_message(action),
{
    PollError::Validation(ValidationError::new(fault.message(action)))
}

/// What is wrong with a question, if anything: it is empty once the blanks at its ends are
/// cut, or it has more than 150 characters as it stands.
pub open spec fn question_fault(question: Seq<char>) -> Option<PollFault> {
    if trimmed(question).len() == 0 {
        Some(PollFault::EmptyQuestion)
    } else if question.len() > 150 {
        Some(PollFault::QuestionTooLong)
    } else {
        None
    }
}

/// What is wrong with the answers given to make a poll, if anything; the question is judged
/// first. The duration must be `7` or `30` as it stands.
pub open spec fn creation_fault(question: Seq<char>, input_days: Seq<char>) -> Option<PollFault> {
    if question_fault(question) is Some {
        question_fault(question)
    } else if PollDuration::of_answer(input_days) is None {
        Some(PollFault::InvalidDuration)
    } else {
        None
    }
}

/// The poll that opens at `now` with this id, question and duration.
pub open spec fn opened(id: u128, question: Seq<char>, duration: PollDuration, now: i64) -> PollView {
    PollView {
        id: id,
        question: trimmed(question),
        poll_duration: duration,
        create_date: now,
        expiration_date: (now + duration.spec_seconds()) as i64,
        positive_votes: 0,
        negative_votes: 0,
    }
}

/// What is wrong with the answers given to edit one of `polls` polls, if anything. They are
/// judged in this order: which poll, the question, whether to set a new duration, the
/// duration. The answer to "a new duration?" must be `y` or `n` as it stands, and the
/// duration `7` or `30` as it stands; in the answer that picks the poll, blanks around the
/// number are passed over.
pub open spec fn edit_fault(
    polls: nat,
    choice1: Seq<char>,
    choice2: Seq<char>,
    new_question: Seq<char>,
    input_days: Seq<char>,
) -> Option<PollFault> {
    if polls == 0 {
        Some(PollFault::NoPollsAvailable)
    } else if position(choice1, polls) is None {
        Some(PollFault::InvalidSelection)
    } else if question_fault(new_question) is Some {
        question_fault(new_question)
    } else {
        match affirms(choice2) {
            Some(false) => None,
            Some(true) => if PollDuration::of_answer(input_days) is None {
                Some(PollFault::InvalidDuration)
            } else {
                None
            },
            None => Some(PollFault::InvalidDurationChoice),
        }
    }
}

/// The poll `before` after an edit at `now`: it has the new question; with a new duration it
/// opens again at `now`, else it keeps its duration and its dates. Id and counts stay.
pub open spec fn edited(
    before: PollView,
    choice2: Seq<char>,
    new_question: Seq<char>,
    input_days: Seq<char>,
    now: i64,
) -> PollView {
    if affirms(choice2) == Some(true) {
        let duration = PollDuration::of_answer(input_days)->0;
        PollView {
            question: trimmed(new_question),
            poll_duration: duration,
            create_date: now,
            expiration_date: (now + duration.spec_seconds()) as i64,
            ..before
        }
    } else {
        PollView { question: trimmed(new_question), ..before }
    }
}

/// What is wrong with the answers given to delete one of `polls` polls, if anything. Any
/// confirmation but `y` as it stands cancels the deletion.
pub open spec fn deletion_fault(polls: nat, choice: Seq<char>, confirmation: Seq<char>) -> Option<
    PollFault,
> {
    if polls == 0 {
        Some(PollFault::NoPollsAvailable)
    } else if position(choice, polls) is None {
        Some(PollFault::InvalidSelection)
    } else if affirms(confirmation) != Some(true) {
        Some(PollFault::OperationCancelled)
    } else {
        None
    }
}

/// Judges a question and hands it back without the blanks at its ends.
pub fn check_question(question: &str) -> (r: Result<String, PollFault>)
    ensures
        match question_fault(question@) {
            Some(fault) => r == Err::<String, PollFault>(fault),
            None => r matches Ok(kept) && kept@ == trimmed(question@),
        },
{
    let kept = trim(question);
    if kept.as_str().unicode_len() == 0 {
        Err(PollFault::EmptyQuestion)
    } else if question.unicode_len() > MAX_QUESTION_CHARS {
        Err(PollFault::QuestionTooLong)
    } else {
        Ok(kept)
    }
}

/// Judges the answers given to make a poll, the question first. Sound answers are handed
/// back as what they ask for: the question without the blanks at its ends, and the
/// duration.
pub fn check_creation(question: &str, input_days: &str) -> (r: Result<
    (String, PollDuration),
    PollFault,
>)
    ensures
        match creation_fault(question@, input_days@) {
            Some(fault) => r == Err::<(String, PollDuration), PollFault>(fault),
            None => r matches Ok(asked) && asked.0@ == trimmed(question@) && Some(asked.1)
                == PollDuration::of_answer(input_days@),
        },
{
    let kept = match check_question(question) {
        Ok(kept) => kept,
        Err(fault) => {
            return Err(fault);
        },
    };
    match PollDuration::parse(input_days) {
        Some(duration) => Ok((kept, duration)),
        None => Err(PollFault::InvalidDuration),
    }
}

/// What a judged edit asks for: the place of the poll, its new question, and the new
/// duration if one is asked for.
pub open spec fn edit_asked(
    polls: nat,
    choice1: Seq<char>,
    choice2: Seq<char>,
    new_question: Seq<char>,
    input_days: Seq<char>,
) -> (nat, Seq<char>, Option<PollDuration>) {
    (
        position(choice1, polls)->0,
        trimmed(new_question),
        if affirms(choice2) == Some(true) {
            PollDuration::of_answer(input_days)
        } else {
            None
        },
    )
}

/// Judges the answers given to edit one of `polls` polls, in this order: which poll, the
/// question, whether to set a new duration, the duration. Sound answers are handed back as
/// what they ask for.
pub fn check_edit(
    polls: usize,
    choice1: &str,
    choice2: &str,
    new_question: &str,
    input_days: &str,
) -> (r: Result<(usize, String, Option<PollDuration>), PollFault>)
    ensures
        match edit_fault(polls as nat, choice1@, choice2@, new_question@, input_days@) {
            Some(fault) => r == Err::<(usize, String, Option<PollDuration>), PollFault>(fault),
            None => {
                let asked = edit_asked(
                    polls as nat,
                    choice1@,
                    choice2@,
                    new_question@,
                    input_days@,
                );
                &&& r matches Ok(found)
                &&& found.0 == asked.0
                &&& found.0 < polls
                &&& found.1@ == asked.1
                &&& found.2 == asked.2
            },
        },
{
    if polls == 0 {
        return Err(PollFault::NoPollsAvailable);
    }
    let i: usize = match parse_position(choice1, polls) {
        Some(i) => i,
        None => {
            return Err(PollFault::InvalidSelection);
        },
    };
    let kept = match check_question(new_question) {
        Ok(kept) => kept,
        Err(fault) => {
            return Err(fault);
        },
    };
    match parse_yes_no(choice2) {
        Some(false) => Ok((i, kept, None)),
        Some(true) => match PollDuration::parse(input_days) {
            Some(duration) => Ok((i, kept, Some(duration))),
            None => Err(PollFault::InvalidDuration),
        },
        None => Err(PollFault::InvalidDurationChoice),
    }
}

/// Keeps the poll that opens at `now` under `id` with a question and a duration that were
/// judged before.
fn open_poll(store: &mut Store, question: String, duration: PollDuration, id: u128, now: i64) -> (r:
    Result<Poll, PollError>)
    requires
        old(store).wf(),
        1 <= question@.len() <= 150,
    ensures
        final(store).wf(),
        ({
            let p = PollView {
                id: id,
                question: question@,
                poll_duration: duration,
                create_date: now,
                expiration_date: (now + duration.spec_seconds()) as i64,
                positive_votes: 0,
                negative_votes: 0,
            };
            if now + duration.spec_seconds() > i64::MAX {
                fails_with(r, StoreError::TimestampOverflow) && final(store)@ == old(store)@
            } else if old(store)@.has_poll(id) {
                fails_with(r, StoreError::DuplicateId) && final(store)@ == old(store)@
            } else {
                r matches Ok(made) && made@ == p && final(store)@ == old(store)@.with_poll(p)
            }
        }),
{
    let seconds: i64 = duration.seconds();
    if now > i64::MAX - seconds {
        return Err(PollError::Store(StoreError::TimestampOverflow));
    }
    let poll = Poll {
        id: id,
        question: question,
        poll_duration: duration,
        create_date: now,
        expiration_date: now + seconds,
        positive_votes: 0,
        negative_votes: 0,
    };
    let made = poll.duplicate();
    match store.insert_poll(poll) {
        Ok(()) => Ok(made),
        Err(e) => Err(PollError::Store(e)),
    }
}

/// Puts a judged edit into the store: poll `i` gets `question`; with a duration it opens
/// again at `now`, else it keeps its duration and its dates.
fn rewrite_poll(
    store: &mut Store,
    i: usize,
    question: String,
    duration: Option<PollDuration>,
    now: i64,
) -> (r: Result<Poll, PollError>)
    requires
        old(store).wf(),
        i < old(store)@.polls.len(),
        1 <= question@.len() <= 150,
    ensures
        final(store).wf(),
        ({
            let before = old(store)@.polls[i as int];
            match duration {
                None => {
                    let p = PollView { question: question@, ..before };
                    r matches Ok(made) && made@ == p && final(store)@ == old(store)@.with_poll_edited(
                        i as int,
                        p,
                    )
                },
                Some(d) => {
                    let p = PollView {
                        question: question@,
                        poll_duration: d,
                        create_date: now,
                        expiration_date: (now + d.spec_seconds()) as i64,
                        ..before
                    };
                    if now + d.spec_seconds() > i64::MAX {
                        fails_with(r, StoreError::TimestampOverflow) && final(store)@ == old(
                            store,
                        )@
                    } else {
                        r matches Ok(made) && made@ == p && final(store)@ == old(
                            store,
                        )@.with_poll_edited(i as int, p)
                    }
                },
            }
        }),
{
    let before = store.poll_at(i);
    assert(store@.polls[i as int].wf());
    let poll = match duration {
        None => Poll {
            id: before.id,
            question: question,
            poll_duration: before.poll_duration,
            create_date: before.create_date,
            expiration_date: before.expiration_date,
            positive_votes: before.positive_votes,
            negative_votes: before.negative_votes,
        },
        Some(d) => {
            let seconds: i64 = d.seconds();
            if now > i64::MAX - seconds {
                return Err(PollError::Store(StoreError::TimestampOverflow));
            }
            Poll {
                id: before.id,
                question: question,
                poll_duration: d,
                create_date: now,
                expiration_date: now + seconds,
                positive_votes: before.positive_votes,
                negative_votes: before.negative_votes,
            }
        },
    };
    let made = poll.duplicate();
    store.rewrite_poll(i, poll);
    Ok(made)
}

/// A poll that opens at a time that leaves room for its duration closes exactly its
/// duration after it opens: 604 800 seconds for one week, 2 592 000 for one month.
pub proof fn lemma_opened_poll_closes_on_time(
    id: u128,
    question: Seq<char>,
    duration: PollDuration,
    now: i64,
)
    requires
        now + duration.spec_seconds() <= i64::MAX,
    ensures
        opened(id, question, duration, now).create_date == now,
        opened(id, question, duration, now).create_date + duration.spec_seconds() == opened(
            id,
            question,
            duration,
            now,
        ).expiration_date,
        PollDuration::OneWeek.spec_seconds() == 604800,
        PollDuration::OneMonth.spec_seconds() == 2592000,
        question_fault(question) is None ==> opened(id, question, duration, now).wf(),
{
    lemma_trimmed_is_no_longer(question);
}

/// Every poll, in the order in which they came.
pub fn get_polls(store: &Store) -> (r: Vec<Poll>)
    ensures
        poll_views(r@) == store@.polls,
{
    store.polls()
}

/// Makes the poll that opens at `now` under `id`, and keeps it.
///
/// The answers are judged first. A sound poll is refused if it would close later than a
/// timestamp can say, or if `id` is taken.
pub fn create_poll_at(
    store: &mut Store,
    question: String,
    input_days: String,
    id: u128,
    now: i64,
) -> (r: Result<Poll, PollError>)
    requires
        old(store).wf(),
    ensures
        final(store).wf(),
        match creation_fault(question@, input_days@) {
            Some(fault) => refuses(r, fault, PollAction::Create) && final(store)@ == old(store)@,
            None => {
                let p = opened(id, question@, PollDuration::of_answer(input_days@)->0, now);
                if now + p.poll_duration.spec_seconds() > i64::MAX {
                    fails_with(r, StoreError::TimestampOverflow) && final(store)@ == old(store)@
                } else if old(store)@.has_poll(id) {
                    fails_with(r, StoreError::DuplicateId) && final(store)@ == old(store)@
                } else {
                    r matches Ok(made) && made@ == p && final(store)@ == old(store)@.with_poll(p)
                }
            },
        },
{
    match check_creation(question.as_str(), input_days.as_str()) {
        Ok((kept, duration)) => {
            proof {
                lemma_trimmed_is_no_longer(question@);
            }
            open_poll(store, kept, duration, id, now)
        },
        Err(fault) => Err(refusal(fault, PollAction::Create)),
    }
}

/// Makes a poll that opens now, under a new id, and keeps it.
///
/// The answers are judged first, and they alone decide whether they are refused: the id
/// is drawn and the clock is read for sound answers only. Of those a poll is made unless
/// the clock stands too late for it to close, or the new id is taken, which it cannot be
/// in a store without polls.
pub fn create_poll(store: &mut Store, question: String, input_days: String) -> (r: Result<
    Poll,
    PollError,
>)
    requires
        old(store).wf(),
    ensures
        final(store).wf(),
        creation_fault(question@, input_days@) matches Some(fault) ==> refuses(
            r,
            fault,
            PollAction::Create,
        ) && final(store)@ == old(store)@,
        creation_fault(question@, input_days@) is None ==> match r {
            Ok(p) => {
                &&& p@ == opened(
                    p.id,
                    question@,
                    PollDuration::of_answer(input_days@)->0,
                    p.create_date,
                )
                &&& p.create_date + p.poll_duration.spec_seconds() == p.expiration_date
                &&& !old(store)@.has_poll(p.id)
                &&& final(store)@ == old(store)@.with_poll(p@)
            },
            Err(e) => {
                &&& e == PollError::Store(StoreError::TimestampOverflow) || (e
                    == PollError::Store(StoreError::DuplicateId) && old(store)@.polls.len() > 0)
                &&& final(store)@ == old(store)@
            },
        },
{
    match check_creation(question.as_str(), input_days.as_str()) {
        Ok((kept, duration)) => {
            proof {
                lemma_trimmed_is_no_longer(question@);
            }
            let id = fresh_id();
            let now = current_timestamp();
            open_poll(store, kept, duration, id, now)
        },
        Err(fault) => Err(refusal(fault, PollAction::Create)),
    }
}

/// Edits the poll that `choice1` picks, as of `now`.
///
/// The poll gets the new question. With `choice2` saying `n` it keeps its duration and its
/// dates; with `y` it opens again at `now` for the duration that `input_days` asks for. Id
/// and counts stay as they are.
pub fn edit_poll_at(
    store: &mut Store,
    choice1: String,
    choice2: String,
    new_question: String,
    input_days: String,
    now: i64,
) -> (r: Result<Poll, PollError>)
    requires
        old(store).wf(),
    ensures
        final(store).wf(),
        match edit_fault(
            old(store)@.polls.len(),
            choice1@,
            choice2@,
            new_question@,
            input_days@,
        ) {
            Some(fault) => refuses(r, fault, PollAction::Edit) && final(store)@ == old(store)@,
            None => {
                let i = position(choice1@, old(store)@.polls.len())->0 as int;
                let p = edited(old(store)@.polls[i], choice2@, new_question@, input_days@, now);
                if affirms(choice2@) == Some(true) && now + p.poll_duration.spec_seconds()
                    > i64::MAX {
                    fails_with(r, StoreError::TimestampOverflow) && final(store)@ == old(store)@
                } else {
                    r matches Ok(made) && made@ == p && final(store)@ == old(store)@.with_poll_edited(i, p)
                }
            },
        },
{
    let count: usize = store.poll_count();
    match check_edit(
        count,
        choice1.as_str(),
        choice2.as_str(),
        new_question.as_str(),
        input_days.as_str(),
    ) {
        Ok((i, kept, duration)) => {
            proof {
                lemma_trimmed_is_no_longer(new_question@);
            }
            rewrite_poll(store, i, kept, duration, now)
        },
        Err(fault) => Err(refusal(fault, PollAction::Edit)),
    }
}

/// Edits the poll that `choice1` picks, as of now.
///
/// The answers are judged first, and they alone decide whether they are refused. With
/// `choice2` saying `n` the clock is not read and the edit goes through: the poll keeps its
/// duration and its dates. With `y` the clock is read once all answers are found sound,
/// and the poll opens again at the time it says, unless that is too late for it to close.
pub fn edit_poll(
    store: &mut Store,
    choice1: String,
    choice2: String,
    new_question: String,
    input_days: String,
) -> (r: Result<Poll, PollError>)
    requires
        old(store).wf(),
    ensures
        final(store).wf(),
        edit_fault(old(store)@.polls.len(), choice1@, choice2@, new_question@, input_days@)
            matches Some(fault) ==> refuses(r, fault, PollAction::Edit) && final(store)@ == old(store)@,
        edit_fault(old(store)@.polls.len(), choice1@, choice2@, new_question@, input_days@)
            is None ==> ({
            let i = position(choice1@, old(store)@.polls.len())->0 as int;
            let before = old(store)@.polls[i];
            match r {
                Ok(p) => {
                    &&& p@ == edited(before, choice2@, new_question@, input_days@, p.create_date)
                    &&& p.create_date + p.poll_duration.spec_seconds() == p.expiration_date
                    &&& final(store)@ == old(store)@.with_poll_edited(i, p@)
                },
                Err(e) => {
                    &&& affirms(choice2@) == Some(true)
                    &&& e == PollError::Store(StoreError::TimestampOverflow)
                    &&& final(store)@ == old(store)@
                },
            }
        }),
        edit_fault(old(store)@.polls.len(), choice1@, choice2@, new_question@, input_days@)
            is None && affirms(choice2@) == Some(false) ==> ({
            let i = position(choice1@, old(store)@.polls.len())->0 as int;
            let before = old(store)@.polls[i];
            &&& r matches Ok(p)
            &&& p.create_date == before.create_date
            &&& p.expiration_date == before.expiration_date
            &&& p.poll_duration == before.poll_duration
        }),
{
    let count: usize = store.poll_count();
    match check_edit(
        count,
        choice1.as_str(),
        choice2.as_str(),
        new_question.as_str(),
        input_days.as_str(),
    ) {
        Ok((i, kept, duration)) => {
            proof {
                lemma_trimmed_is_no_longer(new_question@);
                assert(store@.polls[i as int].wf());
            }
            let now: i64 = match duration {
                Some(_) => current_timestamp(),
                None => 0,
            };
            rewrite_poll(store, i, kept, duration, now)
        },
        Err(fault) => Err(refusal(fault, PollAction::Edit)),
    }
}

/// Deletes the poll that `choice` picks, together with every vote that answers it, once
/// `confirmation` says `y`. Hands back the poll as it was.
pub fn delete_poll(store: &mut Store, choice: String, confirmation: String) -> (r: Result<
    Poll,
    PollError,
>)
    requires
        old(store).wf(),
    ensures
        final(store).wf(),
        match deletion_fault(old(store)@.polls.len(), choice@, confirmation@) {
            Some(fault) => refuses(r, fault, PollAction::Delete) && final(store)@ == old(store)@,
            None => {
                let i = position(choice@, old(store)@.polls.len())->0 as int;
                &&& r matches Ok(gone)
                &&& gone@ == old(store)@.polls[i]
                &&& final(store)@ == old(store)@.without_poll_at(i)
                &&& !final(store)@.has_poll(gone.id)
                &&& forall|j: int|
                    0 <= j < final(store)@.votes.len() ==> (#[trigger] final(store)@.votes[j]).poll_id
                        != gone.id
            },
        },
{
    let count: usize = store.poll_count();
    if count == 0 {
        return Err(refusal(PollFault::NoPollsAvailable, PollAction::Delete));
    }
    let i: usize = match parse_position(choice.as_str(), count) {
        Some(i) => i,
        None => {
            return Err(refusal(PollFault::InvalidSelection, PollAction::Delete));
        },
    };
    match parse_yes_no(confirmation.as_str()) {
        Some(true) => {},
        _ => {
            return Err(refusal(PollFault::OperationCancelled, PollAction::Delete));
        },
    }
    let ghost before = store@;
    let gone = store.remove_poll(i);
    proof {
        lemma_without_poll_keeps(before.votes, gone.id);
    }
    Ok(gone)
}

} // verus!
