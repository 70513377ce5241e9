use chrono::Local;
use pollbook::poll::PollAction::{Create, Delete, Edit};
use pollbook::poll::{
    check_creation, check_edit, check_question, create_poll, create_poll_at, delete_poll, edit_poll, edit_poll_at, get_polls,
    Poll, PollAction, PollDuration, PollError, PollFault, ValidationError,
};
use pollbook::store::{Store, StoreError};
use pollbook::tally::tally_delta;
use pollbook::vote::VoteChoice::{No, Yes};
use pollbook::vote::{
    check_casting, create_vote, create_vote_at, delete_vote, edit_vote, get_votes, Vote, VoteChoice, VoteError,
    VoteFault,
};

fn s(text: &str) -> String {
    text.to_string()
}

fn poll_refusal(fault: PollFault, action: PollAction) -> PollError {
    PollError::Validation(ValidationError::new(fault.message(action)))
}

fn vote_refusal(fault: VoteFault) -> VoteError {
    VoteError::Validation(pollbook::vote::ValidationError::new(fault.message()))
}

fn votes_on(store: &Store, poll_id: u128) -> usize {
    get_votes(store).iter().filter(|v| v.poll_id == poll_id).count()
}

fn assert_counts_match_votes(store: &Store) {
    let votes = get_votes(store);
    for poll in get_polls(store) {
        let yes = votes.iter().filter(|v| v.poll_id == poll.id && v.choice == VoteChoice::Yes).count();
        let no = votes.iter().filter(|v| v.poll_id == poll.id && v.choice == VoteChoice::No).count();
        assert_eq!(poll.positive_votes as usize, yes);
        assert_eq!(poll.negative_votes as usize, no);
        assert_eq!(
            poll.positive_votes as usize + poll.negative_votes as usize,
            votes_on(store, poll.id)
        );
        assert_eq!(poll.expiration_date, poll.create_date + poll.poll_duration.seconds());
    }
    for vote in votes {
        let poll = get_polls(store).into_iter().find(|p| p.id == vote.poll_id);
        assert_eq!(poll.map(|p| p.question), Some(vote.poll_question));
    }
}

#[test]
fn a_new_poll_closes_exactly_its_duration_after_it_opens() {
    let mut store = Store::new();
    let week = create_poll_at(&mut store, s("One week?"), s("7"), 1, 1_700_000_000).unwrap();
    let month = create_poll_at(&mut store, s("One month?"), s("30"), 2, 1_700_000_000).unwrap();
    assert_eq!(week.create_date, 1_700_000_000);
    assert_eq!(week.expiration_date, 1_700_604_800);
    assert_eq!(month.create_date, 1_700_000_000);
    assert_eq!(month.expiration_date, 1_702_592_000);
    let early = create_poll_at(&mut store, s("Before 1970?"), s("7"), 3, -604_800).unwrap();
    assert_eq!(early.expiration_date, 0);
    assert_eq!(get_polls(&store), vec![week, month, early]);
}

#[test]
fn an_example_poll_of_one_week() {
    let mut store = Store::new();
    let poll = create_poll(&mut store, s("Do you like Rust?"), s("7")).unwrap();
    assert_eq!(poll.question, "Do you like Rust?");
    assert_eq!(poll.poll_duration, PollDuration::OneWeek);
    assert_eq!(poll.expiration_date, poll.create_date + 604800);
    assert_eq!(poll.positive_votes, 0);
    assert_eq!(poll.negative_votes, 0);
    assert_eq!(get_polls(&store), vec![poll]);
}

#[test]
fn a_vote_moves_the_counts_as_it_is_cast_edited_and_deleted() {
    let mut store = Store::new();
    let poll = create_poll(&mut store, s("Do you like Rust?"), s("7")).unwrap();

    let vote = create_vote(&mut store, poll.id, "y", s("")).unwrap();
    assert_eq!(vote.choice, VoteChoice::Yes);
    assert_eq!(vote.voting_power, 1);
    assert_eq!(vote.poll_id, poll.id);
    assert_eq!(vote.poll_question, "Do you like Rust?");
    assert_eq!(get_polls(&store)[0].positive_votes, 1);
    assert_eq!(get_polls(&store)[0].negative_votes, 0);

    let shown = edit_vote(&mut store, &vote, &vote, s("n"), s("")).unwrap();
    assert_eq!(shown, vote);
    assert_eq!(get_polls(&store)[0].positive_votes, 0);
    assert_eq!(get_polls(&store)[0].negative_votes, 1);

    let held = get_votes(&store).remove(0);
    assert_eq!(held.choice, VoteChoice::No);
    let gone = delete_vote(&mut store, &held).unwrap();
    assert_eq!(gone, held);
    assert_eq!(get_polls(&store)[0].positive_votes, 0);
    assert_eq!(get_polls(&store)[0].negative_votes, 0);
    assert!(get_votes(&store).is_empty());
}

#[test]
fn deleting_a_poll_takes_its_votes_along() {
    let mut store = Store::new();
    let first = create_poll_at(&mut store, s("First?"), s("7"), 10, 100).unwrap();
    let second = create_poll_at(&mut store, s("Second?"), s("30"), 20, 100).unwrap();
    create_vote_at(&mut store, first.id, "y", s("a"), 1, 101).unwrap();
    create_vote_at(&mut store, second.id, "n", s("b"), 2, 102).unwrap();
    create_vote_at(&mut store, first.id, "n", s("c"), 3, 103).unwrap();
    create_vote_at(&mut store, second.id, "y", s("d"), 4, 104).unwrap();
    create_vote_at(&mut store, first.id, "y", s("e"), 5, 105).unwrap();

    let gone = delete_poll(&mut store, s("1"), s("y")).unwrap();

    assert_eq!(gone.id, first.id);
    assert_eq!(gone.positive_votes, 2);
    assert_eq!(gone.negative_votes, 1);
    let votes = get_votes(&store);
    assert!(votes.iter().all(|v| v.poll_id != first.id));
    assert_eq!(votes.iter().map(|v| v.id).collect::<Vec<u128>>(), vec![2, 4]);
    let polls = get_polls(&store);
    assert_eq!(polls.len(), 1);
    assert_eq!(polls[0].id, second.id);
    assert_eq!(polls[0].positive_votes, 1);
    assert_eq!(polls[0].negative_votes, 1);
    assert_counts_match_votes(&store);
}

#[test]
fn counts_match_the_votes_after_every_step() {
    let mut store = Store::new();
    let a = create_poll_at(&mut store, s("A?"), s("7"), 100, 1000).unwrap();
    let b = create_poll_at(&mut store, s("B?"), s("30"), 200, 1000).unwrap();
    assert_counts_match_votes(&store);
    let mut next: u128 = 1;
    for round in 0..6 {
        for (poll, answer) in [(&a, "y"), (&b, "n"), (&a, "n"), (&b, "y"), (&b, "y")] {
            create_vote_at(&mut store, poll.id, answer, s("c"), next, 2000 + round).unwrap();
            next += 1;
            assert_counts_match_votes(&store);
        }
        let votes = get_votes(&store);
        let flipped = &votes[round as usize];
        let other = if flipped.choice == VoteChoice::Yes { "n" } else { "y" };
        edit_vote(&mut store, flipped, flipped, s(other), s("again")).unwrap();
        assert_counts_match_votes(&store);
        let same = &votes[round as usize + 1];
        edit_vote(&mut store, same, same, s(same.choice.token()), s("")).unwrap();
        assert_counts_match_votes(&store);
        let votes = get_votes(&store);
        delete_vote(&mut store, &votes[votes.len() / 2]).unwrap();
        assert_counts_match_votes(&store);
    }
    edit_poll_at(&mut store, s("1"), s("y"), s("A, again?"), s("30"), 5000).unwrap();
    assert_counts_match_votes(&store);
    assert_eq!(get_votes(&store).len(), 24);
    let polls = get_polls(&store);
    assert_eq!(votes_on(&store, a.id) + votes_on(&store, b.id), 24);
    assert_eq!(polls[0].positive_votes + polls[0].negative_votes, votes_on(&store, a.id) as i16);
    delete_poll(&mut store, s("2"), s("y")).unwrap();
    assert_counts_match_votes(&store);
    assert_eq!(votes_on(&store, b.id), 0);
}

#[test]
fn an_edit_that_keeps_the_duration_keeps_the_dates_and_the_counts() {
    let mut store = Store::new();
    let poll = create_poll_at(&mut store, s("Before?"), s("30"), 7, 1234).unwrap();
    create_vote_at(&mut store, poll.id, "y", s(""), 1, 1300).unwrap();
    create_vote_at(&mut store, poll.id, "n", s(""), 2, 1301).unwrap();
    create_vote_at(&mut store, poll.id, "y", s(""), 3, 1302).unwrap();

    let edited = edit_poll(&mut store, s("1"), s("n"), s("  After?  "), s("7")).unwrap();

    assert_eq!(edited.id, 7);
    assert_eq!(edited.question, "After?");
    assert_eq!(edited.poll_duration, PollDuration::OneMonth);
    assert_eq!(edited.create_date, 1234);
    assert_eq!(edited.expiration_date, 1234 + 2592000);
    assert_eq!(edited.positive_votes, 2);
    assert_eq!(edited.negative_votes, 1);
    assert_eq!(get_polls(&store), vec![edited]);
    assert!(get_votes(&store).iter().all(|v| v.poll_question == "After?"));
}

#[test]
fn an_edit_with_a_new_duration_opens_the_poll_again() {
    let mut store = Store::new();
    let poll = create_poll_at(&mut store, s("Before?"), s("30"), 7, 1234).unwrap();
    create_vote_at(&mut store, poll.id, "n", s(""), 1, 1300).unwrap();

    let edited = edit_poll_at(&mut store, s(" 1 "), s("y"), s("After?"), s("7"), 9000).unwrap();

    assert_eq!(edited.id, 7);
    assert_eq!(edited.poll_duration, PollDuration::OneWeek);
    assert_eq!(edited.create_date, 9000);
    assert_eq!(edited.expiration_date, 9000 + 604800);
    assert_eq!(edited.positive_votes, 0);
    assert_eq!(edited.negative_votes, 1);
    assert_eq!(get_polls(&store), vec![edited]);

    let before = Local::now().timestamp();
    let again = edit_poll(&mut store, s("1"), s("y"), s("Once more?"), s("30")).unwrap();
    let after = Local::now().timestamp();
    assert!(before <= again.create_date && again.create_date <= after);
    assert_eq!(again.expiration_date, again.create_date + 2592000);
}

#[test]
fn questions_are_judged_before_durations() {
    let mut store = Store::new();
    for question in ["", " ", "\t\n", "\u{3000}\u{00A0}"] {
        assert_eq!(
            create_poll(&mut store, s(question), s("7")),
            Err(poll_refusal(PollFault::EmptyQuestion, PollAction::Create)),
        );
        assert_eq!(
            create_poll(&mut store, s(question), s("x")),
            Err(poll_refusal(PollFault::EmptyQuestion, PollAction::Create)),
        );
    }
    assert_eq!(
        create_poll(&mut store, "A".repeat(151), s("x")),
        Err(poll_refusal(PollFault::QuestionTooLong, PollAction::Create)),
    );
    assert_eq!(
        create_poll(&mut store, "A".repeat(200), s("30")),
        Err(poll_refusal(PollFault::QuestionTooLong, PollAction::Create)),
    );
    for days in ["5", "", "x", "07", "+30", "3 0", " 7 ", " 7", "7 ", "7\n", " 30", "30 "] {
        assert_eq!(
            create_poll(&mut store, s("Fine?"), s(days)),
            Err(poll_refusal(PollFault::InvalidDuration, PollAction::Create)),
        );
    }
    assert_eq!(store.poll_count(), 0);
}

#[test]
fn a_question_may_have_up_to_150_characters_as_typed() {
    let mut store = Store::new();
    let longest = create_poll_at(&mut store, "A".repeat(150), s("7"), 1, 0).unwrap();
    assert_eq!(longest.question.chars().count(), 150);
    let accented = create_poll_at(&mut store, "é".repeat(150), s("7"), 2, 0).unwrap();
    assert_eq!(accented.question.chars().count(), 150);
    assert_eq!(accented.question.len(), 300);
    let padded = create_poll_at(&mut store, format!(" {} ", "A".repeat(148)), s("7"), 3, 0).unwrap();
    assert_eq!(padded.question, "A".repeat(148));
    assert_eq!(
        create_poll_at(&mut store, format!(" {} ", "A".repeat(149)), s("7"), 4, 0),
        Err(poll_refusal(PollFault::QuestionTooLong, PollAction::Create)),
    );
    assert_eq!(
        create_poll_at(&mut store, "é".repeat(151), s("7"), 5, 0),
        Err(poll_refusal(PollFault::QuestionTooLong, PollAction::Create)),
    );
    assert_eq!(
        create_poll_at(&mut store, " ".repeat(151), s("7"), 6, 0),
        Err(poll_refusal(PollFault::EmptyQuestion, PollAction::Create)),
    );
    assert_eq!(store.poll_count(), 3);
}

#[test]
fn check_question_hands_back_the_trimmed_question() {
    assert_eq!(check_question("  Why?\n"), Ok(s("Why?")));
    assert_eq!(check_question("Why not?"), Ok(s("Why not?")));
    assert_eq!(check_question(""), Err(PollFault::EmptyQuestion));
    assert_eq!(check_question(" \n"), Err(PollFault::EmptyQuestion));
    assert_eq!(check_question(&"A".repeat(151)), Err(PollFault::QuestionTooLong));
    assert_eq!(check_question(&"A".repeat(150)), Ok("A".repeat(150)));
}

#[test]
fn the_store_refuses_a_poll_it_cannot_keep() {
    let mut store = Store::new();
    create_poll_at(&mut store, s("First?"), s("7"), 1, 0).unwrap();
    assert_eq!(
        create_poll_at(&mut store, s("Second?"), s("7"), 1, 0),
        Err(PollError::Store(StoreError::DuplicateId)),
    );
    assert_eq!(
        create_poll_at(&mut store, s("Late?"), s("7"), 2, i64::MAX),
        Err(PollError::Store(StoreError::TimestampOverflow)),
    );
    assert_eq!(
        create_poll_at(&mut store, s("Late?"), s("7"), 2, i64::MAX - 604799),
        Err(PollError::Store(StoreError::TimestampOverflow)),
    );
    assert_eq!(
        create_poll_at(&mut store, s("Late?"), s("30"), 2, i64::MAX - 2591999),
        Err(PollError::Store(StoreError::TimestampOverflow)),
    );
    assert_eq!(
        create_poll_at(&mut store, s("Late?"), s("7"), 1, i64::MAX),
        Err(PollError::Store(StoreError::TimestampOverflow)),
    );
    assert_eq!(store.poll_count(), 1);
    let last = create_poll_at(&mut store, s("Last?"), s("7"), 2, i64::MAX - 604800).unwrap();
    assert_eq!(last.expiration_date, i64::MAX);
    assert_eq!(
        edit_poll_at(&mut store, s("1"), s("y"), s("Late?"), s("30"), i64::MAX - 2591999),
        Err(PollError::Store(StoreError::TimestampOverflow)),
    );
    let kept = edit_poll_at(&mut store, s("1"), s("n"), s("Late?"), s("30"), i64::MAX).unwrap();
    assert_eq!(kept.create_date, 0);
    assert_eq!(kept.question, "Late?");
}

#[test]
fn edits_are_judged_in_order() {
    let mut store = Store::new();
    let refused = |fault| Err(poll_refusal(fault, PollAction::Edit));
    assert_eq!(
        edit_poll(&mut store, s("x"), s("x"), s(""), s("x")),
        refused(PollFault::NoPollsAvailable),
    );
    create_poll_at(&mut store, s("First?"), s("7"), 1, 50).unwrap();
    create_poll_at(&mut store, s("Second?"), s("30"), 2, 60).unwrap();
    for choice1 in ["", "0", "3", "x", "-1", "1.5", "99999999999999999999999"] {
        assert_eq!(
            edit_poll(&mut store, s(choice1), s("x"), s(""), s("x")),
            refused(PollFault::InvalidSelection),
        );
    }
    assert_eq!(
        edit_poll(&mut store, s("1"), s("x"), s(" "), s("x")),
        refused(PollFault::EmptyQuestion),
    );
    assert_eq!(
        edit_poll(&mut store, s("1"), s("x"), "A".repeat(151), s("x")),
        refused(PollFault::QuestionTooLong),
    );
    for choice2 in ["", "x", "yes", "no", "Y", "2", " y", "y ", " n", "n\n"] {
        assert_eq!(
            edit_poll(&mut store, s("1"), s(choice2), s("Fine?"), s("7")),
            refused(PollFault::InvalidDurationChoice),
        );
    }
    for days in ["", "5", "x", "07", " 7", "7 ", " 7 ", "30\n", "+30"] {
        assert_eq!(
            edit_poll(&mut store, s("1"), s("y"), s("Fine?"), s(days)),
            refused(PollFault::InvalidDuration),
        );
    }
    let polls = get_polls(&store);
    assert_eq!(polls[0].question, "First?");
    assert_eq!(polls[1].question, "Second?");
    let edited = edit_poll(&mut store, s("+2"), s("n"), s("Fine?"), s("5")).unwrap();
    assert_eq!(edited.id, 2);
    assert_eq!(edited.create_date, 60);
}

#[test]
fn deletions_are_judged_in_order() {
    let mut store = Store::new();
    let refused = |fault| Err(poll_refusal(fault, PollAction::Delete));
    assert_eq!(delete_poll(&mut store, s("1"), s("y")), refused(PollFault::NoPollsAvailable));
    create_poll_at(&mut store, s("First?"), s("7"), 1, 50).unwrap();
    assert_eq!(delete_poll(&mut store, s("2"), s("y")), refused(PollFault::InvalidSelection));
    assert_eq!(delete_poll(&mut store, s("0"), s("n")), refused(PollFault::InvalidSelection));
    for confirmation in ["", "n", "x", "yes", "Y", " y", "y ", "y\n", " y\n"] {
        assert_eq!(
            delete_poll(&mut store, s("1"), s(confirmation)),
            refused(PollFault::OperationCancelled),
        );
    }
    assert_eq!(store.poll_count(), 1);
    let gone = delete_poll(&mut store, s(" 1\n"), s("y")).unwrap();
    assert_eq!(gone.id, 1);
    assert_eq!(store.poll_count(), 0);
}

#[test]
fn each_fault_has_its_sentence() {
    assert_eq!(PollFault::EmptyQuestion.message(Create), "Question can't be empty.");
    assert_eq!(PollFault::EmptyQuestion.message(Edit), "Question can't be empty.");
    assert_eq!(
        PollFault::QuestionTooLong.message(Create),
        "Question is too long. Question only can have up to 150 chars."
    );
    assert_eq!(
        PollFault::InvalidDuration.message(Create),
        "Invalid input for Poll Duration. Must be 7 or 30."
    );
    assert_eq!(
        PollFault::InvalidDuration.message(Edit),
        "Invalid input for Poll Duration. Please enter 7 or 30 Days."
    );
    assert_eq!(
        PollFault::InvalidDurationChoice.message(Edit),
        "Invalid input for choice 2. Please enter 'y' or 'n'."
    );
    assert_eq!(PollFault::NoPollsAvailable.message(Edit), "There are no polls to Edit.");
    assert_eq!(PollFault::NoPollsAvailable.message(Delete), "There are no polls to Delete.");
    assert_eq!(
        PollFault::InvalidSelection.message(Delete),
        "Invalid input for selecting Poll. Please enter a valid number."
    );
    assert_eq!(
        PollFault::OperationCancelled.message(Delete),
        "Canceling operation. Not a Valid Confirmation."
    );
    assert_eq!(VoteFault::InvalidChoice.message(), "Invalid Vote.");
    assert_eq!(
        VoteFault::CommentTooLong.message(),
        "Comment is too long. Comment only can have up to 100 chars."
    );
    let error = ValidationError::new("Question can't be empty.");
    assert_eq!(error.details, "Question can't be empty.");
    assert_eq!(error.message(), "Question can't be empty.");
    let error = pollbook::vote::ValidationError::new("Invalid Vote.");
    assert_eq!(error.details, "Invalid Vote.");
    assert_eq!(error.message(), "Invalid Vote.");
    assert_ne!(error, pollbook::vote::ValidationError::new("Invalid Vote"));
}

#[test]
fn votes_are_judged_before_they_are_cast() {
    let mut store = Store::new();
    let poll = create_poll_at(&mut store, s("Well?"), s("7"), 1, 0).unwrap();
    for answer in ["", "x", "yes", "Y", "N", "1", " y", "y ", "n\n", " n "] {
        assert_eq!(
            create_vote(&mut store, poll.id, answer, s("")),
            Err(vote_refusal(VoteFault::InvalidChoice)),
        );
        assert_eq!(
            create_vote(&mut store, poll.id, answer, "c".repeat(101)),
            Err(vote_refusal(VoteFault::InvalidChoice)),
        );
    }
    assert_eq!(
        create_vote(&mut store, poll.id, "y", "c".repeat(101)),
        Err(vote_refusal(VoteFault::CommentTooLong)),
    );
    assert_eq!(
        create_vote(&mut store, poll.id, "y", format!(" {} ", "c".repeat(99))),
        Err(vote_refusal(VoteFault::CommentTooLong)),
    );
    assert_eq!(
        create_vote(&mut store, 999, "y", "c".repeat(101)),
        Err(vote_refusal(VoteFault::CommentTooLong)),
    );
    assert!(get_votes(&store).is_empty());
    assert_eq!(get_polls(&store), vec![poll.clone()]);

    let longest = create_vote(&mut store, poll.id, "y", "é".repeat(100)).unwrap();
    assert_eq!(longest.comment.chars().count(), 100);
    let padded = create_vote(&mut store, poll.id, "n", format!(" {} ", "c".repeat(98))).unwrap();
    assert_eq!(padded.comment, "c".repeat(98));
    assert_eq!(get_votes(&store), vec![longest, padded]);
}

#[test]
fn a_vote_is_cast_as_it_is_stated() {
    let mut store = Store::new();
    let poll = create_poll_at(&mut store, s("Well?"), s("7"), 1, 0).unwrap();
    let vote = create_vote_at(&mut store, poll.id, "n", s("  no thanks \n"), 77, 4242).unwrap();
    assert_eq!(
        vote,
        Vote {
            id: 77,
            choice: VoteChoice::No,
            comment: s("no thanks"),
            voting_power: 1,
            create_date: 4242,
            poll_id: 1,
            poll_question: s("Well?"),
        }
    );
    assert_eq!(get_votes(&store), vec![vote]);
    assert_eq!(get_polls(&store)[0].negative_votes, 1);
    assert_eq!(get_polls(&store)[0].positive_votes, 0);
}

#[test]
fn the_store_refuses_a_vote_it_cannot_keep() {
    let mut store = Store::new();
    let poll = create_poll_at(&mut store, s("Well?"), s("7"), 1, 0).unwrap();
    create_vote_at(&mut store, poll.id, "y", s(""), 5, 0).unwrap();
    assert_eq!(
        create_vote_at(&mut store, poll.id, "n", s(""), 5, 0),
        Err(VoteError::Store(StoreError::DuplicateId)),
    );
    assert_eq!(
        create_vote_at(&mut store, 2, "n", s(""), 6, 0),
        Err(VoteError::Store(StoreError::UnknownPoll)),
    );
    assert_eq!(
        create_vote(&mut store, 2, "n", s("")),
        Err(VoteError::Store(StoreError::UnknownPoll)),
    );
    assert_eq!(get_votes(&store).len(), 1);
    assert_eq!(get_polls(&store)[0].positive_votes, 1);
    assert_eq!(get_polls(&store)[0].negative_votes, 0);
}

#[test]
fn an_edited_vote_keeps_its_comment_unless_a_new_one_is_given() {
    let mut store = Store::new();
    let poll = create_poll_at(&mut store, s("Well?"), s("7"), 1, 0).unwrap();
    let vote = create_vote_at(&mut store, poll.id, "y", s("first"), 5, 10).unwrap();

    edit_vote(&mut store, &vote, &vote, s("y"), s("  \n")).unwrap();
    let held = get_votes(&store).remove(0);
    assert_eq!(held, vote);
    assert_eq!(get_polls(&store)[0].positive_votes, 1);

    edit_vote(&mut store, &held, &held, s("n"), s("")).unwrap();
    let held = get_votes(&store).remove(0);
    assert_eq!(held.choice, VoteChoice::No);
    assert_eq!(held.comment, "first");
    assert_eq!(held.create_date, 10);
    assert_eq!(get_polls(&store)[0].positive_votes, 0);
    assert_eq!(get_polls(&store)[0].negative_votes, 1);

    edit_vote(&mut store, &held, &held, s("n"), s("  second \n")).unwrap();
    let held = get_votes(&store).remove(0);
    assert_eq!(held.choice, VoteChoice::No);
    assert_eq!(held.comment, "second");
    assert_eq!(get_polls(&store)[0].positive_votes, 0);
    assert_eq!(get_polls(&store)[0].negative_votes, 1);

    edit_vote(&mut store, &held, &held, s("y"), "é".repeat(100)).unwrap();
    let held = get_votes(&store).remove(0);
    assert_eq!(held.choice, VoteChoice::Yes);
    assert_eq!(held.comment, "é".repeat(100));
    assert_eq!(get_polls(&store)[0].positive_votes, 1);
    assert_eq!(get_polls(&store)[0].negative_votes, 0);
}

#[test]
fn edits_of_votes_are_judged_in_order() {
    let mut store = Store::new();
    let poll = create_poll_at(&mut store, s("Well?"), s("7"), 1, 0).unwrap();
    let other = create_poll_at(&mut store, s("And?"), s("7"), 2, 0).unwrap();
    let vote = create_vote_at(&mut store, poll.id, "y", s("first"), 5, 10).unwrap();
    let stranger = Vote { id: 6, ..vote.clone() };
    let flipped = Vote { choice: VoteChoice::No, ..vote.clone() };
    let moved = Vote { poll_id: other.id, ..vote.clone() };

    assert_eq!(
        edit_vote(&mut store, &stranger, &stranger, s("x"), "c".repeat(101)),
        Err(vote_refusal(VoteFault::CommentTooLong)),
    );
    assert_eq!(
        edit_vote(&mut store, &stranger, &stranger, s("x"), s("")),
        Err(vote_refusal(VoteFault::InvalidChoice)),
    );
    assert_eq!(
        edit_vote(&mut store, &vote, &vote, s(""), s("")),
        Err(vote_refusal(VoteFault::InvalidChoice)),
    );
    assert_eq!(
        edit_vote(&mut store, &flipped, &stranger, s("n"), s("")),
        Err(VoteError::Store(StoreError::UnknownVote)),
    );
    assert_eq!(
        edit_vote(&mut store, &flipped, &vote, s("n"), s("")),
        Err(VoteError::Store(StoreError::StaleVote)),
    );
    assert_eq!(
        edit_vote(&mut store, &vote, &moved, s("n"), s("")),
        Err(VoteError::Store(StoreError::StaleVote)),
    );
    assert_eq!(get_votes(&store), vec![vote.clone()]);
    assert_eq!(get_polls(&store)[0].positive_votes, 1);
    assert_eq!(get_polls(&store)[0].negative_votes, 0);

    assert_eq!(
        delete_vote(&mut store, &stranger),
        Err(VoteError::Store(StoreError::UnknownVote)),
    );
    assert_eq!(delete_vote(&mut store, &flipped), Err(VoteError::Store(StoreError::StaleVote)));
    assert_eq!(delete_vote(&mut store, &moved), Err(VoteError::Store(StoreError::StaleVote)));
    assert_eq!(get_votes(&store), vec![vote.clone()]);
    assert_eq!(delete_vote(&mut store, &vote), Ok(vote.clone()));
    assert_eq!(
        delete_vote(&mut store, &vote),
        Err(VoteError::Store(StoreError::UnknownVote)),
    );
    assert_eq!(
        edit_vote(&mut store, &vote, &vote, s("n"), s("")),
        Err(VoteError::Store(StoreError::UnknownVote)),
    );
}

#[test]
fn the_counts_move_by_one_for_each_change_of_a_vote() {
    assert_eq!(tally_delta(None, Some(Yes)), (1, 0));
    assert_eq!(tally_delta(None, Some(No)), (0, 1));
    assert_eq!(tally_delta(Some(Yes), Some(No)), (-1, 1));
    assert_eq!(tally_delta(Some(No), Some(Yes)), (1, -1));
    assert_eq!(tally_delta(Some(Yes), Some(Yes)), (0, 0));
    assert_eq!(tally_delta(Some(No), Some(No)), (0, 0));
    assert_eq!(tally_delta(Some(Yes), None), (-1, 0));
    assert_eq!(tally_delta(Some(No), None), (0, -1));
    assert_eq!(tally_delta(None, None), (0, 0));
}

#[test]
fn new_polls_and_votes_get_ids_of_their_own_and_the_time_of_day() {
    let mut store = Store::new();
    let before = Local::now().timestamp();
    let first = create_poll(&mut store, s("First?"), s("7")).unwrap();
    let second = create_poll(&mut store, s("Second?"), s("30")).unwrap();
    let yes = create_vote(&mut store, first.id, "y", s("")).unwrap();
    let no = create_vote(&mut store, first.id, "n", s("")).unwrap();
    let after = Local::now().timestamp();
    assert_ne!(first.id, second.id);
    assert_ne!(yes.id, no.id);
    for id in [first.id, second.id, yes.id, no.id] {
        assert_eq!(uuid::Uuid::from_u128(id).get_version_num(), 4);
    }
    for date in [first.create_date, second.create_date, yes.create_date, no.create_date] {
        assert!(before <= date && date <= after);
    }
    assert!(before > 1_600_000_000);
}

#[test]
fn a_padded_duration_makes_no_poll() {
    let mut store = Store::new();
    assert_eq!(
        create_poll_at(&mut store, s("Fine?"), s(" 7 "), 1, 1000),
        Err(poll_refusal(PollFault::InvalidDuration, Create)),
    );
    assert_eq!(
        create_poll(&mut store, s("Fine?"), s(" 7 ")),
        Err(poll_refusal(PollFault::InvalidDuration, Create)),
    );
    assert_eq!(store.poll_count(), 0);
    let made = create_poll_at(&mut store, s("Fine?"), s("7"), 1, 1000).unwrap();
    assert_eq!(made.poll_duration, PollDuration::OneWeek);
    assert_eq!(
        edit_poll_at(&mut store, s("1"), s("y"), s("Fine?"), s(" 30 "), 2000),
        Err(poll_refusal(PollFault::InvalidDuration, Edit)),
    );
    assert_eq!(
        edit_poll_at(&mut store, s("1"), s(" y"), s("Fine?"), s("30"), 2000),
        Err(poll_refusal(PollFault::InvalidDurationChoice, Edit)),
    );
    assert_eq!(
        edit_poll_at(&mut store, s("1"), s("n "), s("Other?"), s("30"), 2000),
        Err(poll_refusal(PollFault::InvalidDurationChoice, Edit)),
    );
    assert_eq!(get_polls(&store), vec![made]);
}

#[test]
fn a_padded_confirmation_deletes_nothing() {
    let mut store = Store::new();
    let poll = create_poll_at(&mut store, s("Stay?"), s("7"), 1, 1000).unwrap();
    let vote = create_vote_at(&mut store, 1, "y", s(""), 2, 1001).unwrap();
    for confirmation in [" y", "y ", " y ", "y\n", "Y", "yes", ""] {
        assert_eq!(
            delete_poll(&mut store, s("1"), s(confirmation)),
            Err(poll_refusal(PollFault::OperationCancelled, Delete)),
        );
        assert_eq!(get_polls(&store).len(), 1);
        assert_eq!(get_polls(&store)[0].id, poll.id);
        assert_eq!(get_votes(&store), vec![vote.clone()]);
    }
    assert_eq!(delete_poll(&mut store, s("1"), s("y")).map(|p| p.id), Ok(1));
    assert!(get_votes(&store).is_empty());
}

#[test]
fn a_padded_choice_casts_and_changes_nothing() {
    let mut store = Store::new();
    create_poll_at(&mut store, s("Well?"), s("7"), 1, 1000).unwrap();
    for answer in [" y", "y ", " n ", "n\n"] {
        assert_eq!(
            create_vote_at(&mut store, 1, answer, s(""), 2, 1001),
            Err(vote_refusal(VoteFault::InvalidChoice)),
        );
    }
    assert!(get_votes(&store).is_empty());
    let vote = create_vote_at(&mut store, 1, "y", s(""), 2, 1001).unwrap();
    for answer in [" n", "n ", " y ", "y\n"] {
        assert_eq!(
            edit_vote(&mut store, &vote, &vote, s(answer), s("")),
            Err(vote_refusal(VoteFault::InvalidChoice)),
        );
    }
    assert_eq!(get_votes(&store), vec![vote]);
    assert_eq!(get_polls(&store)[0].positive_votes, 1);
}

#[test]
fn judging_answers_hands_back_what_they_ask_for() {
    assert_eq!(check_creation(" Why? ", "30"), Ok((s("Why?"), PollDuration::OneMonth)));
    assert_eq!(check_creation("", "x"), Err(PollFault::EmptyQuestion));
    assert_eq!(check_creation(&"A".repeat(151), "x"), Err(PollFault::QuestionTooLong));
    assert_eq!(check_creation("Why?", "30 "), Err(PollFault::InvalidDuration));
    assert_eq!(check_edit(0, "1", "n", "Why?", ""), Err(PollFault::NoPollsAvailable));
    assert_eq!(check_edit(2, "3", "n", "Why?", ""), Err(PollFault::InvalidSelection));
    assert_eq!(check_edit(2, "2", "n", " ", ""), Err(PollFault::EmptyQuestion));
    assert_eq!(check_edit(2, "2", "?", "Why?", "7"), Err(PollFault::InvalidDurationChoice));
    assert_eq!(check_edit(2, "2", "y", "Why?", "8"), Err(PollFault::InvalidDuration));
    assert_eq!(check_edit(2, " 2\n", "n", " Why? ", "8"), Ok((1, s("Why?"), None)));
    assert_eq!(
        check_edit(2, "1", "y", "Why?", "7"),
        Ok((0, s("Why?"), Some(PollDuration::OneWeek)))
    );
    assert_eq!(check_casting("y", " fine "), Ok((VoteChoice::Yes, s("fine"))));
    assert_eq!(check_casting("n", ""), Ok((VoteChoice::No, s(""))));
    assert_eq!(check_casting("?", &"c".repeat(101)), Err(VoteFault::InvalidChoice));
    assert_eq!(check_casting("y", &"c".repeat(101)), Err(VoteFault::CommentTooLong));
}

#[test]
fn an_edit_keeps_the_counts_of_a_poll_with_votes() {
    let mut store = Store::new();
    let poll = create_poll_at(&mut store, s("Before?"), s("7"), 7, 1000).unwrap();
    for id in 0..5 {
        create_vote_at(&mut store, poll.id, "y", s(""), id, 1001).unwrap();
    }
    create_vote_at(&mut store, poll.id, "n", s(""), 5, 1001).unwrap();
    let edited = edit_poll_at(&mut store, s("1"), s("y"), s("After?"), s("30"), 2000).unwrap();
    assert_eq!(edited.positive_votes, 5);
    assert_eq!(edited.negative_votes, 1);
    assert_eq!(edited.create_date, 2000);
    assert_eq!(edited.expiration_date, 2000 + 2592000);
    assert_counts_match_votes(&store);
}

#[test]
fn polls_and_votes_are_handed_out_by_id() {
    let mut store = Store::new();
    let poll = create_poll_at(&mut store, s("One?"), s("7"), 10, 1000).unwrap();
    let other = create_poll_at(&mut store, s("Two?"), s("30"), 20, 1000).unwrap();
    let vote = create_vote_at(&mut store, 20, "n", s("c"), 1, 1001).unwrap();
    assert_eq!(store.poll_with_id(10), Some(poll));
    assert_eq!(store.poll_with_id(20), Some(Poll { negative_votes: 1, ..other }));
    assert_eq!(store.poll_with_id(30), None);
    assert_eq!(store.vote_with_id(1), Some(vote));
    assert_eq!(store.vote_with_id(10), None);
}

#[test]
fn the_first_vote_on_a_poll_is_always_cast() {
    for (answer, choice, counts) in [("y", Yes, (1, 0)), ("n", No, (0, 1))] {
        let mut store = Store::new();
        let poll = create_poll(&mut store, s("Do you like Rust?"), s("7")).unwrap();
        let vote = create_vote(&mut store, poll.id, answer, s("")).unwrap();
        assert_eq!(vote.choice, choice);
        assert_eq!(vote.poll_id, poll.id);
        assert_eq!(get_votes(&store), vec![vote]);
        let kept = get_polls(&store);
        assert_eq!((kept[0].positive_votes, kept[0].negative_votes), counts);
    }
    let mut store = Store::new();
    assert_eq!(
        create_vote(&mut store, 1, "y", s("")),
        Err(VoteError::Store(StoreError::UnknownPoll)),
    );
    let poll = create_poll(&mut store, s("First?"), s("30")).unwrap();
    assert_eq!(
        create_vote(&mut store, poll.id.wrapping_add(1), "n", s("")),
        Err(VoteError::Store(StoreError::UnknownPoll)),
    );
    assert!(get_votes(&store).is_empty());
}
