//! Properties of the drill, stated over whole sessions and proved.
//!
//! A session is modelled as the starting deck and the list of rounds run on
//! it, each round being the prompt order the shuffle produced together with
//! the answer typed for each prompted card. The proofs here say why the
//! drill behaves: a mastered card never comes back, a correct answer always
//! shrinks the deck, a wrong-only round changes nothing, and an empty deck
//! is done before any round runs.

use vstd::prelude::*;

use crate::card::Card;
use crate::drill::mastered;
use crate::drill::retained;

verus! {

/// One acceptable round over `deck`: the prompt order holds exactly the
/// cards of the deck (a shuffle changes nothing but order), and there is one
/// answer per prompted card.
pub open spec fn round_valid(deck: Seq<Card>, order: Seq<Card>, answers: Seq<String>) -> bool {
    order.to_multiset() == deck.to_multiset() && answers.len() == order.len()
}

/// The rounds, each a prompt order with its answers, follow one another
/// acceptably from `deck`: every round is valid for the deck that the
/// rounds before it leave behind.
pub open spec fn session_valid(deck: Seq<Card>, rounds: Seq<(Seq<Card>, Seq<String>)>) -> bool
    decreases rounds.len(),
{
    rounds.len() == 0 || (round_valid(deck, rounds[0].0, rounds[0].1) && session_valid(
        retained(rounds[0].0, rounds[0].1),
        rounds.drop_first(),
    ))
}

/// What remains of `deck` after the rounds have run.
pub open spec fn session_result(deck: Seq<Card>, rounds: Seq<(Seq<Card>, Seq<String>)>) -> Seq<
    Card,
>
    decreases rounds.len(),
{
    if rounds.len() == 0 {
        deck
    } else {
        session_result(retained(rounds[0].0, rounds[0].1), rounds.drop_first())
    }
}

/// A card of a shorter prefix is a card of the whole.
proof fn lemma_drop_last_contains(s: Seq<Card>, c: Card)
    requires
        s.len() > 0,
        s.drop_last().contains(c),
    ensures
        s.contains(c),
{
    let j = choose|j: int| 0 <= j < s.drop_last().len() && s.drop_last()[j] == c;
    assert(s[j] == c);
}

/// A drill pass invents no card: whatever it retains, it was given.
pub proof fn lemma_retained_from_deck(deck: Seq<Card>, answers: Seq<String>, c: Card)
    requires
        retained(deck, answers).contains(c),
    ensures
        deck.contains(c),
    decreases deck.len(),
{
    if deck.len() > 0 {
        let rest = retained(deck.drop_last(), answers.drop_last());
        if mastered(deck.last(), answers.last()) {
            lemma_retained_from_deck(deck.drop_last(), answers.drop_last(), c);
            lemma_drop_last_contains(deck, c);
        } else {
            if c == deck.last() {
                assert(deck[deck.len() - 1] == c);
            } else {
                let j = choose|j: int| 0 <= j < rest.push(deck.last()).len() && rest.push(
                    deck.last(),
                )[j] == c;
                assert(rest[j] == c);
                lemma_retained_from_deck(deck.drop_last(), answers.drop_last(), c);
                lemma_drop_last_contains(deck, c);
            }
        }
    }
}

/// A drill pass never grows the deck.
pub proof fn lemma_retained_no_longer(deck: Seq<Card>, answers: Seq<String>)
    ensures
        retained(deck, answers).len() <= deck.len(),
    decreases deck.len(),
{
    if deck.len() > 0 {
        lemma_retained_no_longer(deck.drop_last(), answers.drop_last());
    }
}

/// A round in which some card is answered correctly strictly shrinks the
/// deck: mastering cards is the drill's only measure of progress, and any
/// correct answer makes some.
pub proof fn lemma_correct_answer_progresses(deck: Seq<Card>, answers: Seq<String>, i: int)
    requires
        deck.len() == answers.len(),
        0 <= i < deck.len(),
        mastered(deck[i], answers[i]),
    ensures
        retained(deck, answers).len() < deck.len(),
    decreases deck.len(),
{
    if i == deck.len() - 1 {
        lemma_retained_no_longer(deck.drop_last(), answers.drop_last());
    } else {
        lemma_correct_answer_progresses(deck.drop_last(), answers.drop_last(), i);
    }
}

/// A round in which no card is answered correctly leaves the deck exactly
/// as it was: a user who never answers correctly drills the same deck
/// forever.
pub proof fn lemma_no_correct_answer_no_progress(deck: Seq<Card>, answers: Seq<String>)
    requires
        deck.len() == answers.len(),
        forall|i: int| 0 <= i < deck.len() ==> !mastered(deck[i], answers[i]),
    ensures
        retained(deck, answers) == deck,
    decreases deck.len(),
{
    if deck.len() > 0 {
        lemma_no_correct_answer_no_progress(deck.drop_last(), answers.drop_last());
        assert(retained(deck, answers) =~= deck);
    }
}

/// Answering every card correctly masters the whole deck in that one round.
pub proof fn lemma_all_correct_finishes(deck: Seq<Card>, answers: Seq<String>)
    requires
        deck.len() == answers.len(),
        forall|i: int| 0 <= i < deck.len() ==> mastered(deck[i], answers[i]),
    ensures
        retained(deck, answers).len() == 0,
    decreases deck.len(),
{
    if deck.len() > 0 {
        lemma_all_correct_finishes(deck.drop_last(), answers.drop_last());
    }
}

/// A card value whose every occurrence in the pass is answered correctly is
/// not retained.
pub proof fn lemma_mastered_removed(deck: Seq<Card>, answers: Seq<String>, c: Card)
    requires
        deck.len() == answers.len(),
        forall|i: int| 0 <= i < deck.len() && deck[i] == c ==> mastered(deck[i], answers[i]),
    ensures
        !retained(deck, answers).contains(c),
    decreases deck.len(),
{
    if deck.len() > 0 {
        lemma_mastered_removed(deck.drop_last(), answers.drop_last(), c);
        let rest = retained(deck.drop_last(), answers.drop_last());
        if !mastered(deck.last(), answers.last()) {
            assert(deck[deck.len() - 1] != c);
            assert forall|j: int|
                0 <= j < rest.push(deck.last()).len() implies rest.push(deck.last())[j]
                != c by {
                if j < rest.len() {
                    assert(!rest.contains(c));
                }
            }
        }
    }
}

/// A drill pass duplicates no card: each value is retained at most as
/// often as it was prompted.
pub proof fn lemma_no_card_duplicated(deck: Seq<Card>, answers: Seq<String>, c: Card)
    ensures
        retained(deck, answers).to_multiset().count(c) <= deck.to_multiset().count(c),
    decreases deck.len(),
{
    broadcast use vstd::seq_lib::group_to_multiset_ensures;
    broadcast use vstd::multiset::lemma_insert_increases_count_by_1;
    broadcast use vstd::multiset::lemma_insert_other_elements_unchanged;

    if deck.len() > 0 {
        lemma_no_card_duplicated(deck.drop_last(), answers.drop_last(), c);
        let rest = retained(deck.drop_last(), answers.drop_last());
        assert(deck =~= deck.drop_last().push(deck.last()));
        assert(deck.to_multiset() == deck.drop_last().to_multiset().insert(deck.last()));
        if !mastered(deck.last(), answers.last()) {
            assert(retained(deck, answers).to_multiset() == rest.to_multiset().insert(
                deck.last(),
            ));
        }
    }
}

/// A drill pass loses a card only to mastery: a value never answered
/// correctly is retained exactly as often as it was prompted.
pub proof fn lemma_no_card_lost(deck: Seq<Card>, answers: Seq<String>, c: Card)
    requires
        deck.len() == answers.len(),
        forall|i: int| 0 <= i < deck.len() && deck[i] == c ==> !mastered(deck[i], answers[i]),
    ensures
        retained(deck, answers).to_multiset().count(c) == deck.to_multiset().count(c),
    decreases deck.len(),
{
    broadcast use vstd::seq_lib::group_to_multiset_ensures;
    broadcast use vstd::multiset::lemma_insert_increases_count_by_1;
    broadcast use vstd::multiset::lemma_insert_other_elements_unchanged;

    if deck.len() > 0 {
        lemma_no_card_lost(deck.drop_last(), answers.drop_last(), c);
        let rest = retained(deck.drop_last(), answers.drop_last());
        assert(deck =~= deck.drop_last().push(deck.last()));
        assert(deck.to_multiset() == deck.drop_last().to_multiset().insert(deck.last()));
        if mastered(deck.last(), answers.last()) {
            assert(deck[deck.len() - 1] != c);
        } else {
            assert(retained(deck, answers).to_multiset() == rest.to_multiset().insert(
                deck.last(),
            ));
        }
    }
}

/// Once a card value is out of the deck, no later round brings it back:
/// every prompt order holds only cards of its deck, and a pass only keeps
/// cards it was given.
pub proof fn lemma_absent_stays_absent(
    deck: Seq<Card>,
    rounds: Seq<(Seq<Card>, Seq<String>)>,
    c: Card,
)
    requires
        session_valid(deck, rounds),
        !deck.contains(c),
    ensures
        !session_result(deck, rounds).contains(c),
    decreases rounds.len(),
{
    broadcast use vstd::seq_lib::group_to_multiset_ensures;

    if rounds.len() > 0 {
        let order = rounds[0].0;
        let answers = rounds[0].1;
        assert(deck.to_multiset().count(c) == 0);
        assert(order.to_multiset().count(c) == 0);
        assert(!order.contains(c));
        if retained(order, answers).contains(c) {
            lemma_retained_from_deck(order, answers, c);
        }
        lemma_absent_stays_absent(retained(order, answers), rounds.drop_first(), c);
    }
}

/// Mastery is permanent: a card value answered correctly on its every
/// prompt of some round is never prompted again in the rest of the session.
pub proof fn lemma_mastery_is_permanent(
    order: Seq<Card>,
    answers: Seq<String>,
    rounds: Seq<(Seq<Card>, Seq<String>)>,
    c: Card,
)
    requires
        answers.len() == order.len(),
        forall|i: int| 0 <= i < order.len() && order[i] == c ==> mastered(order[i], answers[i]),
        session_valid(retained(order, answers), rounds),
    ensures
        !retained(order, answers).contains(c),
        !session_result(retained(order, answers), rounds).contains(c),
{
    lemma_mastered_removed(order, answers, c);
    lemma_absent_stays_absent(retained(order, answers), rounds, c);
}

/// An empty deck is done after exactly zero rounds.
pub proof fn lemma_empty_deck_done_at_once(deck: Seq<Card>)
    requires
        deck.len() == 0,
    ensures
        session_result(deck, Seq::<(Seq<Card>, Seq<String>)>::empty()).len() == 0,
{
}

/// A non-empty deck takes at least one round: no session of zero rounds
/// empties it.
pub proof fn lemma_nonempty_deck_takes_a_round(
    deck: Seq<Card>,
    rounds: Seq<(Seq<Card>, Seq<String>)>,
)
    requires
        deck.len() > 0,
        session_result(deck, rounds).len() == 0,
    ensures
        rounds.len() >= 1,
{
}

/// Valid rounds over an empty deck prompt nothing and leave it empty.
proof fn lemma_empty_deck_stays_done(deck: Seq<Card>, rounds: Seq<(Seq<Card>, Seq<String>)>)
    requires
        session_valid(deck, rounds),
        deck.len() == 0,
    ensures
        session_result(deck, rounds).len() == 0,
    decreases rounds.len(),
{
    broadcast use vstd::seq_lib::group_to_multiset_ensures;

    if rounds.len() > 0 {
        let order = rounds[0].0;
        let answers = rounds[0].1;
        assert(order.to_multiset().len() == order.len());
        assert(deck.to_multiset().len() == deck.len());
        lemma_empty_deck_stays_done(retained(order, answers), rounds.drop_first());
    }
}

/// Each round either finds the deck already empty or masters at least one
/// card.
pub open spec fn every_round_progresses(
    deck: Seq<Card>,
    rounds: Seq<(Seq<Card>, Seq<String>)>,
) -> bool
    decreases rounds.len(),
{
    rounds.len() == 0 || ({
        &&& (deck.len() > 0 ==> exists|i: int|
            0 <= i < rounds[0].0.len() && mastered(rounds[0].0[i], rounds[0].1[i]))
        &&& every_round_progresses(retained(rounds[0].0, rounds[0].1), rounds.drop_first())
    })
}

/// The drill ends in finitely many rounds when the user keeps succeeding:
/// a valid session whose every round masters some card needs no more rounds
/// than the deck has cards.
pub proof fn lemma_progress_terminates(deck: Seq<Card>, rounds: Seq<(Seq<Card>, Seq<String>)>)
    requires
        session_valid(deck, rounds),
        every_round_progresses(deck, rounds),
        rounds.len() >= deck.len(),
    ensures
        session_result(deck, rounds).len() == 0,
    decreases rounds.len(),
{
    broadcast use vstd::seq_lib::group_to_multiset_ensures;

    if deck.len() == 0 {
        lemma_empty_deck_stays_done(deck, rounds);
    } else {
        let order = rounds[0].0;
        let answers = rounds[0].1;
        assert(order.to_multiset().len() == order.len());
        assert(deck.to_multiset().len() == deck.len());
        let i = choose|i: int| 0 <= i < order.len() && mastered(order[i], answers[i]);
        lemma_correct_answer_progresses(order, answers, i);
        lemma_progress_terminates(retained(order, answers), rounds.drop_first());
    }
}

} // verus!
