//! The round-based drill over a deck of cards.
//!
//! Each round shuffles the remaining deck, prompts every card once, and
//! removes the cards whose typed answer — trimmed of surrounding whitespace —
//! equals the stored translation exactly. Rounds repeat until the deck is
//! empty. The prompting and reading are the caller's: this module holds the
//! state, the shuffle, and the mastery decision.

use vstd::prelude::*;
use vstd::string::StringExecFns;
use rand::seq::SliceRandom;

use crate::card::Card;

verus! {

/// What `str::trim` returns for the given characters: the characters with
/// leading and trailing whitespace removed.
pub uninterp spec fn trim_of(s: Seq<char>) -> Seq<char>;

/// Relies on `str::trim`, whose result depends on the characters alone:
/// the view of what it returns is named [`trim_of`].
#[verifier::external_body]
fn trim(s: &str) -> (r: &str)
    ensures
        r@ == trim_of(s@),
{
    s.trim()
}

/// The typed answer masters the card: trimmed of leading and trailing
/// whitespace, it equals the stored translation exactly, case and inner
/// whitespace included.
pub open spec fn mastered(card: Card, answer: String) -> bool {
    trim_of(answer@) == card.translation@
}

/// Decide whether `answer` masters `card`: the answer is trimmed, the
/// stored translation is not.
pub fn answer_matches(card: &Card, answer: &str) -> (r: bool)
    ensures
        r == (trim_of(answer@) == card.translation@),
{
    let trimmed = trim(answer).to_owned();
    trimmed == card.translation
}

/// The cards a drill pass keeps: those of `deck`, in order, whose answer
/// does not master them. `deck` and `answers` are read in step, the answer
/// at each position belonging to the card at that position.
pub open spec fn retained(deck: Seq<Card>, answers: Seq<String>) -> Seq<Card>
    decreases deck.len(),
{
    if deck.len() == 0 {
        seq![]
    } else {
        let rest = retained(deck.drop_last(), answers.drop_last());
        if mastered(deck.last(), answers.last()) {
            rest
        } else {
            rest.push(deck.last())
        }
    }
}

/// Run one drill pass: the card at each position stays exactly when the
/// answer at that position does not master it, the kept cards in their
/// relative order unchanged.
pub fn play_round(cards: &mut Vec<Card>, answers: &Vec<String>)
    requires
        old(cards)@.len() == answers@.len(),
    ensures
        final(cards)@ == retained(old(cards)@, answers@),
{
    let ghost orig = old(cards)@;
    let n = answers.len();
    let mut kept: Vec<Card> = Vec::new();
    let mut i: usize = 0;
    proof {
        assert(kept@ =~= retained(orig.take(0), answers@.take(0)));
        assert(cards@ =~= orig.skip(0));
    }
    while cards.len() > 0
        invariant
            orig.len() == answers@.len(),
            n == answers@.len(),
            i + cards@.len() == orig.len(),
            cards@ == orig.skip(i as int),
            kept@ == retained(orig.take(i as int), answers@.take(i as int)),
        decreases cards@.len(),
    {
        let card = cards.remove(0);
        let matches_card = answer_matches(&card, answers[i].as_str());
        proof {
            assert(orig.take(i + 1).drop_last() =~= orig.take(i as int));
            assert(answers@.take(i + 1).drop_last() =~= answers@.take(i as int));
            assert(cards@ =~= orig.skip(i + 1));
        }
        if !matches_card {
            kept.push(card);
        }
        i = i + 1;
    }
    proof {
        assert(orig.take(orig.len() as int) =~= orig);
        assert(answers@.take(answers@.len() as int) =~= answers@);
    }
    *cards = kept;
}

/// Relies on `rand::seq::SliceRandom::shuffle`: an in-place permutation of
/// the slice, picked uniformly at random from all permutations, so only the
/// order of the cards can change.
#[verifier::external_body]
fn shuffle_cards(cards: &mut Vec<Card>)
    ensures
        final(cards)@.to_multiset() == old(cards)@.to_multiset(),
        final(cards)@.len() == old(cards)@.len(),
{
    cards.as_mut_slice().shuffle(&mut rand::rng());
}

/// The state of one drill session: the cards not yet mastered, and the
/// number of the round about to run (or running), starting at 1.
pub struct Drill {
    /// The cards still to be mastered, in prompt order once shuffled.
    pub deck: Vec<Card>,
    /// 1-based number of the round about to run.
    pub round_number: u64,
}

impl Drill {
    /// Start a session over `deck`, about to run round 1.
    pub fn new(deck: Vec<Card>) -> (d: Drill)
        ensures
            d.deck == deck,
            d.round_number == 1,
    {
        Drill { deck, round_number: 1 }
    }

    /// The session is over: no card remains.
    pub fn finished(&self) -> (r: bool)
        ensures
            r == (self.deck@.len() == 0),
    {
        self.deck.is_empty()
    }

    /// Shuffle the deck into this round's prompt order: the same cards,
    /// only their order changed.
    pub fn begin_round(&mut self)
        ensures
            final(self).deck@.to_multiset() == old(self).deck@.to_multiset(),
            final(self).deck@.len() == old(self).deck@.len(),
            final(self).round_number == old(self).round_number,
    {
        shuffle_cards(&mut self.deck);
    }

    /// End the round: remove every card whose answer mastered it — the
    /// answer at each position belonging to the card prompted at that
    /// position — and count the round as played.
    pub fn complete_round(&mut self, answers: &Vec<String>)
        requires
            answers@.len() == old(self).deck@.len(),
            old(self).round_number < u64::MAX,
        ensures
            final(self).deck@ == retained(old(self).deck@, answers@),
            final(self).round_number == old(self).round_number + 1,
    {
        play_round(&mut self.deck, answers);
        self.round_number = self.round_number + 1;
    }
}

} // verus!
