//! Counting the votes of a poll, and how a change to one vote moves the counts.

use crate::vote::{VoteChoice, VoteView};
use vstd::prelude::*;

verus! {

/// The votes that answer poll `poll_id` with `choice`.
pub open spec fn cast_on(poll_id: u128, choice: VoteChoice) -> spec_fn(VoteView) -> bool {
    |v: VoteView| v.poll_id == poll_id && v.choice == choice
}

/// The votes that answer poll `poll_id`.
pub open spec fn placed_on(poll_id: u128) -> spec_fn(VoteView) -> bool {
    |v: VoteView| v.poll_id == poll_id
}

/// The votes that answer another poll than `poll_id`.
pub open spec fn placed_elsewhere(poll_id: u128) -> spec_fn(VoteView) -> bool {
    |v: VoteView| v.poll_id != poll_id
}

/// How many of `votes` answer poll `poll_id` with `choice`.
pub open spec fn tally(votes: Seq<VoteView>, poll_id: u128, choice: VoteChoice) -> nat {
    votes.filter(cast_on(poll_id, choice)).len()
}

/// How many of `votes` answer poll `poll_id`.
pub open spec fn turnout(votes: Seq<VoteView>, poll_id: u128) -> nat {
    votes.filter(placed_on(poll_id)).len()
}

/// `votes` without those that answer poll `poll_id`, the others in their order.
pub open spec fn without_poll(votes: Seq<VoteView>, poll_id: u128) -> Seq<VoteView> {
    votes.filter(placed_elsewhere(poll_id))
}

/// What a vote that makes `held` adds to the count of `choice`: 1 or 0.
pub open spec fn weight(held: Option<VoteChoice>, choice: VoteChoice) -> int {
    if held == Some(choice) {
        1
    } else {
        0
    }
}

/// By how much the count of yes and the count of no move when one vote goes from `before` to
/// `after`; `None` stands for a vote that is not there.
pub open spec fn spec_tally_delta(before: Option<VoteChoice>, after: Option<VoteChoice>) -> (
    int,
    int,
) {
    (
        weight(after, VoteChoice::Yes) - weight(before, VoteChoice::Yes),
        weight(after, VoteChoice::No) - weight(before, VoteChoice::No),
    )
}

/// By how much the two counts of a poll move when one of its votes goes from `before` to
/// `after`.
pub fn tally_delta(before: Option<VoteChoice>, after: Option<VoteChoice>) -> (r: (i16, i16))
    ensures
        r.0 == spec_tally_delta(before, after).0,
        r.1 == spec_tally_delta(before, after).1,
{
    let mut yes: i16 = 0;
    let mut no: i16 = 0;
    match before {
        Some(VoteChoice::Yes) => {
            yes = yes - 1;
        },
        Some(VoteChoice::No) => {
            no = no - 1;
        },
        None => {},
    }
    match after {
        Some(VoteChoice::Yes) => {
            yes = yes + 1;
        },
        Some(VoteChoice::No) => {
            no = no + 1;
        },
        None => {},
    }
    (yes, no)
}

/// Two changes of a vote in a row move the counts as the one change from the first state to
/// the last does, and a change to the same state moves nothing.
pub proof fn lemma_tally_delta_composes(
    first: Option<VoteChoice>,
    second: Option<VoteChoice>,
    last: Option<VoteChoice>,
)
    ensures
        spec_tally_delta(first, second).0 + spec_tally_delta(second, last).0 == spec_tally_delta(
            first,
            last,
        ).0,
        spec_tally_delta(first, second).1 + spec_tally_delta(second, last).1 == spec_tally_delta(
            first,
            last,
        ).1,
        spec_tally_delta(first, first) == (0int, 0int),
{
}

/// One entry counts for itself: the count over a list is the count before the entry, the
/// entry's own, and the count after it.
pub proof fn lemma_count_around<A>(s: Seq<A>, p: spec_fn(A) -> bool, k: int)
    requires
        0 <= k < s.len(),
    ensures
        s.filter(p).len() == s.take(k).filter(p).len() + s.skip(k + 1).filter(p).len() + (if p(
            s[k],
        ) {
            1nat
        } else {
            0nat
        }),
{
    let one = seq![s[k]];
    assert(s =~= s.take(k) + one + s.skip(k + 1));
    Seq::filter_distributes_over_add(s.take(k) + one, s.skip(k + 1), p);
    Seq::filter_distributes_over_add(s.take(k), one, p);
    reveal_with_fuel(Seq::filter, 2);
    assert(one.drop_last() =~= Seq::<A>::empty());
}

/// Taking one entry out lowers the count by that entry's own.
pub proof fn lemma_count_remove<A>(s: Seq<A>, p: spec_fn(A) -> bool, k: int)
    requires
        0 <= k < s.len(),
    ensures
        s.remove(k).filter(p).len() + (if p(s[k]) {
            1nat
        } else {
            0nat
        }) == s.filter(p).len(),
{
    lemma_count_around(s, p, k);
    assert(s.remove(k) =~= s.take(k) + s.skip(k + 1));
    Seq::filter_distributes_over_add(s.take(k), s.skip(k + 1), p);
}

/// Replacing one entry moves the count by the difference of the two entries' own.
pub proof fn lemma_count_update<A>(s: Seq<A>, p: spec_fn(A) -> bool, k: int, a: A)
    requires
        0 <= k < s.len(),
    ensures
        s.update(k, a).filter(p).len() + (if p(s[k]) {
            1nat
        } else {
            0nat
        }) == s.filter(p).len() + (if p(a) {
            1nat
        } else {
            0nat
        }),
{
    let t = s.update(k, a);
    lemma_count_around(s, p, k);
    lemma_count_around(t, p, k);
    assert(t.take(k) =~= s.take(k));
    assert(t.skip(k + 1) =~= s.skip(k + 1));
}

/// Nothing is counted where no entry qualifies.
pub proof fn lemma_count_none<A>(s: Seq<A>, p: spec_fn(A) -> bool)
    requires
        forall|k: int| 0 <= k < s.len() ==> !p(#[trigger] s[k]),
    ensures
        s.filter(p).len() == 0,
    decreases s.len(),
{
    reveal(Seq::filter);
    if s.len() > 0 {
        lemma_count_none(s.drop_last(), p);
    }
}

/// A new vote adds one to the count it belongs to and nothing to the others.
pub proof fn lemma_tally_push(votes: Seq<VoteView>, v: VoteView, poll_id: u128, choice: VoteChoice)
    ensures
        tally(votes.push(v), poll_id, choice) == tally(votes, poll_id, choice) + (if v.poll_id
            == poll_id && v.choice == choice {
            1nat
        } else {
            0nat
        }),
{
    votes.lemma_filter_push(v, cast_on(poll_id, choice));
}

/// A vote that leaves takes one from the count it belonged to and nothing from the others.
pub proof fn lemma_tally_remove(votes: Seq<VoteView>, k: int, poll_id: u128, choice: VoteChoice)
    requires
        0 <= k < votes.len(),
    ensures
        tally(votes.remove(k), poll_id, choice) + (if votes[k].poll_id == poll_id
            && votes[k].choice == choice {
            1nat
        } else {
            0nat
        }) == tally(votes, poll_id, choice),
{
    lemma_count_remove(votes, cast_on(poll_id, choice), k);
}

/// A vote that changes leaves the count it belonged to and joins the one it belongs to now.
pub proof fn lemma_tally_update(
    votes: Seq<VoteView>,
    k: int,
    v: VoteView,
    poll_id: u128,
    choice: VoteChoice,
)
    requires
        0 <= k < votes.len(),
    ensures
        tally(votes.update(k, v), poll_id, choice) + (if votes[k].poll_id == poll_id
            && votes[k].choice == choice {
            1nat
        } else {
            0nat
        }) == tally(votes, poll_id, choice) + (if v.poll_id == poll_id && v.choice == choice {
            1nat
        } else {
            0nat
        }),
{
    lemma_count_update(votes, cast_on(poll_id, choice), k, v);
}

/// A poll that no vote answers counts nothing.
pub proof fn lemma_tally_unanswered(votes: Seq<VoteView>, poll_id: u128, choice: VoteChoice)
    requires
        forall|k: int| 0 <= k < votes.len() ==> (#[trigger] votes[k]).poll_id != poll_id,
    ensures
        tally(votes, poll_id, choice) == 0,
{
    lemma_count_none(votes, cast_on(poll_id, choice));
}

/// Two lists that agree, entry by entry, on the poll answered and on the answer give the
/// same counts.
pub proof fn lemma_tally_same_answers(
    a: Seq<VoteView>,
    b: Seq<VoteView>,
    poll_id: u128,
    choice: VoteChoice,
)
    requires
        a.len() == b.len(),
        forall|k: int|
            0 <= k < a.len() ==> (#[trigger] a[k]).poll_id == b[k].poll_id && a[k].choice
                == b[k].choice,
    ensures
        tally(a, poll_id, choice) == tally(b, poll_id, choice),
    decreases a.len(),
{
    reveal(Seq::filter);
    if a.len() > 0 {
        assert(a.last() == a[a.len() - 1]);
        assert(b.last() == b[b.len() - 1]);
        assert forall|k: int| 0 <= k < a.drop_last().len() implies (#[trigger] a.drop_last()[k]).poll_id
            == b.drop_last()[k].poll_id && a.drop_last()[k].choice == b.drop_last()[k].choice by {
            assert(a.drop_last()[k] == a[k]);
            assert(b.drop_last()[k] == b[k]);
        }
        lemma_tally_same_answers(a.drop_last(), b.drop_last(), poll_id, choice);
    }
}

/// A new vote is one more vote on the poll it answers and none on the others.
pub proof fn lemma_turnout_push(votes: Seq<VoteView>, v: VoteView, poll_id: u128)
    ensures
        turnout(votes.push(v), poll_id) == turnout(votes, poll_id) + (if v.poll_id == poll_id {
            1nat
        } else {
            0nat
        }),
{
    votes.lemma_filter_push(v, placed_on(poll_id));
}

/// A vote that changes and still answers the same poll leaves every poll with the number
/// of votes it had.
pub proof fn lemma_turnout_update(votes: Seq<VoteView>, k: int, v: VoteView, poll_id: u128)
    requires
        0 <= k < votes.len(),
        v.poll_id == votes[k].poll_id,
    ensures
        turnout(votes.update(k, v), poll_id) == turnout(votes, poll_id),
{
    lemma_count_update(votes, placed_on(poll_id), k, v);
}

/// A vote that leaves is one vote less on the poll it answered and none on the others.
pub proof fn lemma_turnout_remove(votes: Seq<VoteView>, k: int, poll_id: u128)
    requires
        0 <= k < votes.len(),
    ensures
        turnout(votes.remove(k), poll_id) + (if votes[k].poll_id == poll_id {
            1nat
        } else {
            0nat
        }) == turnout(votes, poll_id),
{
    lemma_count_remove(votes, placed_on(poll_id), k);
}

/// Every vote of a poll says yes or no: the two counts add up to the number of its votes.
pub proof fn lemma_tally_covers_turnout(votes: Seq<VoteView>, poll_id: u128)
    ensures
        tally(votes, poll_id, VoteChoice::Yes) + tally(votes, poll_id, VoteChoice::No) == turnout(
            votes,
            poll_id,
        ),
    decreases votes.len(),
{
    reveal(Seq::filter);
    if votes.len() > 0 {
        lemma_tally_covers_turnout(votes.drop_last(), poll_id);
    }
}

/// Once the votes of one poll are taken out, that poll counts nothing and every other poll
/// counts what it did.
pub proof fn lemma_tally_without_poll(
    votes: Seq<VoteView>,
    gone: u128,
    poll_id: u128,
    choice: VoteChoice,
)
    ensures
        tally(without_poll(votes, gone), poll_id, choice) == if poll_id == gone {
            0
        } else {
            tally(votes, poll_id, choice)
        },
    decreases votes.len(),
{
    reveal(Seq::filter);
    if votes.len() > 0 {
        let rest = votes.drop_last();
        lemma_tally_without_poll(rest, gone, poll_id, choice);
        if votes.last().poll_id != gone {
            without_poll(rest, gone).lemma_filter_push(votes.last(), cast_on(poll_id, choice));
        }
    }
}

/// Of what is left once the votes of one poll are taken out: each vote was there before and
/// answers another poll, and no two share an id if no two did before.
pub proof fn lemma_without_poll_keeps(votes: Seq<VoteView>, gone: u128)
    ensures
        forall|k: int|
            0 <= k < without_poll(votes, gone).len() ==> (#[trigger] without_poll(
                votes,
                gone,
            )[k]).poll_id != gone && votes.contains(without_poll(votes, gone)[k]),
        (forall|a: int, b: int|
            0 <= a < b < votes.len() ==> (#[trigger] votes[a]).id != (#[trigger] votes[b]).id)
            ==> (forall|a: int, b: int|
            0 <= a < b < without_poll(votes, gone).len() ==> (#[trigger] without_poll(
                votes,
                gone,
            )[a]).id != (#[trigger] without_poll(votes, gone)[b]).id),
    decreases votes.len(),
{
    reveal(Seq::filter);
    let kept = without_poll(votes, gone);
    if votes.len() > 0 {
        let rest = votes.drop_last();
        let last = votes.last();
        let kept_rest = without_poll(rest, gone);
        lemma_without_poll_keeps(rest, gone);
        assert forall|k: int| 0 <= k < kept.len() implies (#[trigger] kept[k]).poll_id != gone
            && votes.contains(kept[k]) by {
            if k < kept_rest.len() {
                assert(kept[k] == kept_rest[k]);
                assert(rest.contains(kept_rest[k]));
                let m = choose|m: int| 0 <= m < rest.len() && rest[m] == kept_rest[k];
                assert(votes[m] == kept[k]);
            } else {
                assert(kept[k] == last);
                assert(votes[votes.len() - 1] == last);
            }
        }
        if forall|a: int, b: int|
            0 <= a < b < votes.len() ==> (#[trigger] votes[a]).id != (#[trigger] votes[b]).id {
            assert forall|a: int, b: int| 0 <= a < b < rest.len() implies (#[trigger] rest[a]).id
                != (#[trigger] rest[b]).id by {
                assert(rest[a] == votes[a]);
                assert(rest[b] == votes[b]);
            }
            assert forall|a: int, b: int| 0 <= a < b < kept.len() implies (#[trigger] kept[a]).id
                != (#[trigger] kept[b]).id by {
                assert(kept[a] == kept_rest[a]);
                if b < kept_rest.len() {
                    assert(kept[b] == kept_rest[b]);
                } else {
                    assert(kept[b] == last);
                    assert(rest.contains(kept_rest[a]));
                    let m = choose|m: int| 0 <= m < rest.len() && rest[m] == kept_rest[a];
                    assert(votes[m] == kept[a]);
                    assert(votes[votes.len() - 1] == last);
                    assert(votes[m].id != votes[votes.len() - 1].id);
                }
            }
        }
    }
}

} // verus!
