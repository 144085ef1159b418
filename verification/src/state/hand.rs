pub mod shuffle;

use crate::state::card::score::Score;
use crate::state::card::{Card, CardView};
use crate::state::card::revision_settings::{is_transform_of, spec_transformed_settings, RevisionSettings};
use crate::state::clock;
use crate::state::clock::valid_time;
use crate::state::deck::interval_coefficients::IntervalCoefficients;
use crate::state::deck::Deck;
use shuffle::{picks_valid, spec_shuffled};
use std::collections::VecDeque;
use vstd::multiset::Multiset;
use vstd::prelude::*;
use vstd::seq_lib::lemma_multiset_commutative;

verus! {

/// Why a revision queue could not be dealt.
#[derive(Debug, PartialEq)]
pub enum HandError {
    EmptyDeck { name: String },
    NoDueCards { name: String },
}

/// The student's deliberate early exit from a session, signalled through
/// the scoring callback. It is the callback's only error: a callback that
/// fails for any other reason must settle that failure itself, so the
/// session always knows a quit when it sees one.
#[derive(Clone, Copy, Debug, PartialEq, Eq, Structural)]
pub struct CancelSignal;

/// The hand of cards one revision session studies: an owned queue of the
/// deck's due cards in shuffled order, with the deck's coefficients. The
/// session owns the hand exclusively; every operation that touches the
/// queue consumes or mutably borrows it.
#[derive(Debug)]
pub struct Hand {
    pub queue: VecDeque<Card>,
    pub interval_coefficients: IntervalCoefficients,
}

/// The multiset of the cards' contents: the part of each card a session
/// never touches, counted with multiplicity and without order.
pub open spec fn spec_contents(s: Seq<Card>) -> Multiset<
    (Seq<char>, Seq<Seq<char>>, Seq<char>, Seq<char>),
> {
    s.map_values(|c: Card| c@.content()).to_multiset()
}

/// A card's view after one review at the moment `now`: the content stays,
/// the scheduling state moves exactly as the interval engine says.
pub open spec fn spec_transformed_view(
    cv: CardView,
    score: Score,
    c: IntervalCoefficients,
    now: int,
) -> CardView {
    CardView {
        revision_settings: spec_transformed_settings(cv.revision_settings, score, c, now),
        ..cv
    }
}

/// One answered card moves the session state: the front card leaves the
/// queue; scored `Fail` its transform goes to the back of the queue to be
/// revisited this session, scored anything else its transform leaves for
/// the output.
pub open spec fn spec_answer(
    queue: Seq<CardView>,
    output: Seq<CardView>,
    score: Score,
    c: IntervalCoefficients,
    now: int,
) -> (Seq<CardView>, Seq<CardView>)
    recommends
        queue.len() > 0,
{
    let transformed = spec_transformed_view(queue[0], score, c, now);
    match score {
        Score::Fail => (queue.drop_first().push(transformed), output),
        _ => (queue.drop_first(), output.push(transformed)),
    }
}

/// Cancellation empties the queue into the output untouched: nothing is
/// scored any more and nothing is lost.
pub open spec fn spec_cancel(queue: Seq<CardView>, output: Seq<CardView>) -> (
    Seq<CardView>,
    Seq<CardView>,
) {
    (Seq::<CardView>::empty(), output + queue)
}

/// One exec step of the session agrees with the state machine: a card
/// whose transform the interval engine vouches for moves between the
/// queue's and the output's views exactly as `spec_answer` says.
proof fn lemma_answer_step(
    queue: Seq<Card>,
    output: Seq<Card>,
    card: Card,
    transformed: Card,
    score: Score,
    c: IntervalCoefficients,
    at: int,
)
    requires
        queue.len() > 0,
        card == queue[0],
        transformed@.content() == card@.content(),
        is_transform_of(transformed.revision_settings, card.revision_settings, score, c, at),
    ensures
        score is Fail ==> queue.drop_first().push(transformed).map_values(|cc: Card| cc@)
            == spec_answer(
            queue.map_values(|cc: Card| cc@),
            output.map_values(|cc: Card| cc@),
            score,
            c,
            at,
        ).0,
        !(score is Fail) ==> output.push(transformed).map_values(|cc: Card| cc@) == spec_answer(
            queue.map_values(|cc: Card| cc@),
            output.map_values(|cc: Card| cc@),
            score,
            c,
            at,
        ).1,
{
    let queue_views = queue.map_values(|cc: Card| cc@);
    assert(transformed@ == spec_transformed_view(queue_views[0], score, c, at));
    if score is Fail {
        assert(queue.drop_first().push(transformed).map_values(|cc: Card| cc@)
            =~= queue_views.drop_first().push(transformed@));
    } else {
        assert(output.push(transformed).map_values(|cc: Card| cc@) =~= output.map_values(
            |cc: Card| cc@,
        ).push(transformed@));
    }
}

/// Every card the session can hand back: either one of the dealt cards
/// exactly as it was dealt, or a card whose scheduling state the interval
/// engine produced from some valid state at some valid moment.
pub open spec fn spec_session_card(card: Card, dealt: Seq<Card>, c: IntervalCoefficients) -> bool {
    ||| exists|j: int| 0 <= j < dealt.len() && card == #[trigger] dealt[j]
    ||| exists|prev: RevisionSettings, score: Score, at: i64|
        valid_time(at) && prev.valid() && card.revision_settings
            == #[trigger] spec_transformed_settings(prev, score, c, at as int)
}

/// The output card is exactly the transform of the dealt card under some
/// outcome other than `Fail`, at some valid moment.
pub open spec fn spec_scored_output(out_card: Card, dealt_card: Card, c: IntervalCoefficients) -> bool {
    exists|score: Score, at: i64|
        !(score is Fail) && valid_time(at) && out_card@ == #[trigger] spec_transformed_view(
            dealt_card@,
            score,
            c,
            at as int,
        )
}

/// The callback answers every presentation with an outcome other than
/// `Fail`: the well-behaved integration the session protocol speaks of.
pub open spec fn spec_never_fails<F: Fn(&Card, usize) -> Result<Score, CancelSignal>>(
    f: F,
) -> bool {
    forall|args: (&Card, usize), ret: Result<Score, CancelSignal>|
        #[trigger] call_ensures(f, args, ret) ==> (ret matches Ok(score) && !(score is Fail))
}

/// The callback cancels every presentation.
pub open spec fn spec_only_cancels<F: Fn(&Card, usize) -> Result<Score, CancelSignal>>(
    f: F,
) -> bool {
    forall|args: (&Card, usize), ret: Result<Score, CancelSignal>|
        #[trigger] call_ensures(f, args, ret) ==> ret is Err
}

/// Law: fail requeueing. A card scored `Fail` is not discarded and not
/// presented immediately next: its transform, content unchanged and
/// scheduling state moved by the fail outcome, goes to the back of the
/// queue, and the next card presented is the one that stood behind it.
pub proof fn lemma_fail_requeued(
    queue: Seq<CardView>,
    output: Seq<CardView>,
    c: IntervalCoefficients,
    now: int,
)
    requires
        queue.len() > 0,
    ensures
        spec_answer(queue, output, Score::Fail, c, now).0.len() == queue.len(),
        spec_answer(queue, output, Score::Fail, c, now).1 == output,
        spec_answer(queue, output, Score::Fail, c, now).0.last() == spec_transformed_view(
            queue[0],
            Score::Fail,
            c,
            now,
        ),
        spec_transformed_view(queue[0], Score::Fail, c, now).content() == queue[0].content(),
        queue.len() > 1 ==> spec_answer(queue, output, Score::Fail, c, now).0[0] == queue[1],
{
}

/// Law: session progress. Any outcome other than `Fail` moves one card
/// from the queue to the output for good, so a callback that never answers
/// `Fail` drives the queue empty in exactly as many answers as the queue
/// holds cards; `Fail` keeps the queue's length unchanged, which is why
/// only an ill-behaved callback can hold a session open.
pub proof fn lemma_session_progress(
    queue: Seq<CardView>,
    output: Seq<CardView>,
    score: Score,
    c: IntervalCoefficients,
    now: int,
)
    requires
        queue.len() > 0,
    ensures
        !(score is Fail) ==> spec_answer(queue, output, score, c, now).0.len() == queue.len() - 1
            && spec_answer(queue, output, score, c, now).1.len() == output.len() + 1,
        score is Fail ==> spec_answer(queue, output, score, c, now).0.len() == queue.len()
            && spec_answer(queue, output, score, c, now).1.len() == output.len(),
{
}

/// Law: cancellation losslessness. However many cards remain unprocessed
/// when cancellation is signalled, the session's output is everything
/// already judged, as transformed, followed by exactly the remaining cards,
/// in their queue order and untouched.
pub proof fn lemma_cancellation_lossless(queue: Seq<CardView>, output: Seq<CardView>)
    ensures
        spec_cancel(queue, output).0.len() == 0,
        spec_cancel(queue, output).1.len() == output.len() + queue.len(),
        forall|i: int|
            0 <= i < output.len() ==> spec_cancel(queue, output).1[i] == output[i],
        forall|i: int|
            0 <= i < queue.len() ==> spec_cancel(queue, output).1[output.len() + i] == queue[i],
{
}

/// Law: due filtering and deck isolation. The queue a hand is dealt from
/// holds exactly the pool's members that carry the deck's token and are
/// already due: every queued card carries the token and has reached its
/// due date, a card without the token never appears whatever its due
/// status, and every member of the pool that carries the token and is due
/// does appear.
pub proof fn lemma_due_filtering(views: Seq<CardView>, name: Seq<char>, now: int)
    ensures
        forall|i: int|
            0 <= i < spec_due_filter(spec_deck_filter(views, name), now).len() ==> (
            #[trigger] spec_due_filter(spec_deck_filter(views, name), now)[i]).decks.contains(name)
                && now >= spec_due_filter(spec_deck_filter(views, name), now)[i].revision_settings.due,
        forall|cv: CardView|
            views.contains(cv) && cv.decks.contains(name) && now >= cv.revision_settings.due
                ==> #[trigger] spec_due_filter(spec_deck_filter(views, name), now).contains(cv),
{
    let in_deck = |cv: CardView| cv.decks.contains(name);
    let is_due = |cv: CardView| now >= cv.revision_settings.due;
    views.filter_lemma(in_deck);
    views.filter(in_deck).filter_lemma(is_due);
    assert forall|i: int|
        0 <= i < spec_due_filter(spec_deck_filter(views, name), now).len() implies (
    #[trigger] spec_due_filter(spec_deck_filter(views, name), now)[i]).decks.contains(name) && now
        >= spec_due_filter(spec_deck_filter(views, name), now)[i].revision_settings.due by {
        let cv = spec_due_filter(spec_deck_filter(views, name), now)[i];
        assert(is_due(cv));
        assert(spec_due_filter(spec_deck_filter(views, name), now).contains(cv));
        views.filter(in_deck).lemma_filter_contains_rev(is_due, cv);
        let j = choose|j: int|
            0 <= j < views.filter(in_deck).len() && views.filter(in_deck)[j] == cv;
        assert(in_deck(cv));
    }
    assert forall|cv: CardView|
        views.contains(cv) && cv.decks.contains(name) && now
            >= cv.revision_settings.due implies #[trigger] spec_due_filter(
        spec_deck_filter(views, name),
        now,
    ).contains(cv) by {
        let i = choose|i: int| 0 <= i < views.len() && views[i] == cv;
        assert(views.filter(in_deck).contains(cv));
        let j = choose|j: int|
            0 <= j < views.filter(in_deck).len() && views.filter(in_deck)[j] == cv;
        assert(views.filter(in_deck).filter(is_due).contains(cv));
    }
}

/// Law: deal inclusion. A queue whose views hold exactly the pool's
/// due deck members (as every dealt hand's does) misses none of them:
/// each member of the pool that carries the deck's token and is due at the
/// moment appears in the queue.
pub proof fn lemma_dealt_queue_includes(
    queue_views: Seq<CardView>,
    views: Seq<CardView>,
    name: Seq<char>,
    now: int,
)
    requires
        queue_views.to_multiset() == spec_due_filter(
            spec_deck_filter(views, name),
            now,
        ).to_multiset(),
    ensures
        forall|cv: CardView|
            views.contains(cv) && cv.decks.contains(name) && now >= cv.revision_settings.due
                ==> #[trigger] queue_views.contains(cv),
{
    broadcast use vstd::seq_lib::group_to_multiset_ensures;

    lemma_due_filtering(views, name, now);
    assert forall|cv: CardView|
        views.contains(cv) && cv.decks.contains(name) && now
            >= cv.revision_settings.due implies #[trigger] queue_views.contains(cv) by {
        assert(spec_due_filter(spec_deck_filter(views, name), now).contains(cv));
        assert(spec_due_filter(spec_deck_filter(views, name), now).to_multiset().count(cv) > 0);
        assert(queue_views.to_multiset().count(cv) > 0);
    }
}

/// The views of a pool of borrowed cards.
pub open spec fn spec_views_of(cards: Seq<&Card>) -> Seq<CardView> {
    cards.map_values(|c: &Card| (*c)@)
}

/// The members of the pool that carry the deck's token.
pub open spec fn spec_deck_filter(views: Seq<CardView>, name: Seq<char>) -> Seq<CardView> {
    views.filter(|cv: CardView| cv.decks.contains(name))
}

/// The members already filtered to the deck that are due at `now`.
pub open spec fn spec_due_filter(views: Seq<CardView>, now: int) -> Seq<CardView> {
    views.filter(|cv: CardView| now >= cv.revision_settings.due)
}

/// Every card of the pool has scheduling state inside the ranges the
/// arithmetic accepts.
pub open spec fn spec_all_valid(cards: Seq<&Card>) -> bool {
    forall|i: int| 0 <= i < cards.len() ==> (#[trigger] cards[i]).valid()
}

impl Hand {
    /// The queue's cards are all inside the arithmetic's ranges, and so are
    /// the coefficients: what one session step needs of the hand.
    pub open spec fn wf(self) -> bool {
        &&& self.interval_coefficients.valid()
        &&& forall|i: int| 0 <= i < self.queue@.len() ==> (#[trigger] self.queue@[i]).valid()
    }

    /// The views of the queued cards, front first.
    pub open spec fn queue_views(self) -> Seq<CardView> {
        self.queue@.map_values(|c: Card| c@)
    }

    /// Deals a hand from the deck and the card pool at the present moment,
    /// in an order the random number generator picks: the pool filtered to
    /// the deck's members, then to the cards already due, then shuffled.
    /// Fails with `EmptyDeck` when the deck has no members at all, and with
    /// `NoDueCards` when it has members but none of them is due.
    pub fn from(deck: &Deck, cards: Vec<&Card>) -> (r: Result<Hand, HandError>)
        requires
            deck.interval_coefficients.valid(),
            spec_all_valid(cards@),
        ensures
            r matches Err(HandError::EmptyDeck { name }) ==> name@ == deck.name@,
            spec_deck_filter(spec_views_of(cards@), deck.name@).len() == 0 <==> (r matches Err(
                HandError::EmptyDeck { name },
            ) && name@ == deck.name@),
            r matches Err(HandError::NoDueCards { name }) ==> name@ == deck.name@
                && spec_deck_filter(spec_views_of(cards@), deck.name@).len() > 0 && exists|
                now: i64,
            |
                valid_time(now) && (#[trigger] spec_due_filter(
                    spec_deck_filter(spec_views_of(cards@), deck.name@),
                    now as int,
                )).len() == 0,
            r matches Ok(h) ==> h.wf() && h.interval_coefficients == deck.interval_coefficients
                && exists|now: i64|
                valid_time(now) && h.queue_views().to_multiset() == (#[trigger] spec_due_filter(
                    spec_deck_filter(spec_views_of(cards@), deck.name@),
                    now as int,
                )).to_multiset() && h.queue_views().len() == spec_due_filter(
                    spec_deck_filter(spec_views_of(cards@), deck.name@),
                    now as int,
                ).len(),
    {
        let now: i64 = clock::now_seconds();
        let deck_cards: Vec<&Card> = Hand::filter_cards_in_deck(deck, cards);
        let n_cards_in_deck: usize = deck_cards.len();
        let ghost deck_views = spec_deck_filter(spec_views_of(cards@), deck.name@);
        let due_cards: Vec<&Card> = Hand::filter_due_cards(deck_cards, now);
        let n_due_cards: usize = due_cards.len();
        let ghost due_views = spec_due_filter(deck_views, now as int);
        if n_cards_in_deck == 0 {
            return Err(HandError::EmptyDeck { name: deck.name.clone() });
        }
        if n_due_cards == 0 {
            proof {
                assert(valid_time(now) && spec_due_filter(deck_views, now as int).len() == 0);
            }
            return Err(HandError::NoDueCards { name: deck.name.clone() });
        }
        let owned: Vec<Card> = clone_cards(due_cards);
        let ghost owned_seq = owned@;
        let ghost owned_views = owned@.map_values(|c: Card| c@);
        let hand_cards: Vec<Card> = shuffle::shuffle_cards(owned);
        let hand: Hand = Hand {
            queue: to_queue(hand_cards),
            interval_coefficients: deck.interval_coefficients,
        };
        proof {
            assert(owned_views =~= due_views);
            assert forall|i: int| 0 <= i < hand.queue@.len() implies (
            #[trigger] hand.queue@[i]).valid() by {
                assert(owned_seq.contains(hand.queue@[i]));
                let j = choose|j: int|
                    0 <= j < owned_seq.len() && owned_seq[j] == hand.queue@[i];
                assert(owned_seq[j].valid());
            }
            assert(hand.wf());
            assert(hand.queue_views() =~= hand.queue@.map_values(|c: Card| c@));
            assert(valid_time(now) && hand.queue_views().to_multiset() == spec_due_filter(
                spec_deck_filter(spec_views_of(cards@), deck.name@),
                now as int,
            ).to_multiset() && hand.queue_views().len() == spec_due_filter(
                spec_deck_filter(spec_views_of(cards@), deck.name@),
                now as int,
            ).len());
        }
        Ok(hand)
    }

    /// Deals a hand as `from` deals one, but at the given moment and in the
    /// exact order the pick sequence dictates, so that a caller can know
    /// the resulting queue in full.
    pub fn from_at_with_picks(
        deck: &Deck,
        cards: Vec<&Card>,
        now: i64,
        picks: &Vec<usize>,
    ) -> (r: Result<Hand, HandError>)
        requires
            deck.interval_coefficients.valid(),
            spec_all_valid(cards@),
            valid_time(now),
            picks_valid(
                picks@,
                spec_due_filter(
                    spec_deck_filter(spec_views_of(cards@), deck.name@),
                    now as int,
                ).len() as int,
            ),
        ensures
            spec_deck_filter(spec_views_of(cards@), deck.name@).len() == 0 <==> (r matches Err(
                HandError::EmptyDeck { name },
            ) && name@ == deck.name@),
            spec_deck_filter(spec_views_of(cards@), deck.name@).len() > 0 && spec_due_filter(
                spec_deck_filter(spec_views_of(cards@), deck.name@),
                now as int,
            ).len() == 0 <==> (r matches Err(HandError::NoDueCards { name }) && name@
                == deck.name@),
            spec_due_filter(spec_deck_filter(spec_views_of(cards@), deck.name@), now as int).len()
                > 0 ==> (r matches Ok(h) && h.wf() && h.interval_coefficients
                == deck.interval_coefficients && h.queue_views() == spec_shuffled(
                spec_due_filter(spec_deck_filter(spec_views_of(cards@), deck.name@), now as int),
                picks@,
                0,
            )),
    {
        let deck_cards: Vec<&Card> = Hand::filter_cards_in_deck(deck, cards);
        let n_cards_in_deck: usize = deck_cards.len();
        let ghost deck_views = spec_deck_filter(spec_views_of(cards@), deck.name@);
        let due_cards: Vec<&Card> = Hand::filter_due_cards(deck_cards, now);
        let n_due_cards: usize = due_cards.len();
        let ghost due_views = spec_due_filter(deck_views, now as int);
        if n_cards_in_deck == 0 {
            return Err(HandError::EmptyDeck { name: deck.name.clone() });
        }
        if n_due_cards == 0 {
            return Err(HandError::NoDueCards { name: deck.name.clone() });
        }
        let owned: Vec<Card> = clone_cards(due_cards);
        let ghost owned_seq = owned@;
        let hand_cards: Vec<Card> = shuffle::shuffle_cards_with_picks(owned, picks);
        let hand: Hand = Hand {
            queue: to_queue(hand_cards),
            interval_coefficients: deck.interval_coefficients,
        };
        proof {
            assert(owned_seq.map_values(|c: Card| c@) =~= due_views);
            assert forall|i: int| 0 <= i < hand.queue@.len() implies (
            #[trigger] hand.queue@[i]).valid() by {
                assert(owned_seq.contains(hand.queue@[i]));
                let j = choose|j: int|
                    0 <= j < owned_seq.len() && owned_seq[j] == hand.queue@[i];
                assert(owned_seq[j].valid());
            }
            assert(hand.wf());
            shuffle::lemma_shuffled_map(owned_seq, |c: Card| c@, picks@, 0);
            assert(hand.queue_views() =~= spec_shuffled(
                spec_due_filter(spec_deck_filter(spec_views_of(cards@), deck.name@), now as int),
                picks@,
                0,
            ));
        }
        Ok(hand)
    }

    /// How many cards the session still holds.
    pub fn number_of_due_cards(&self) -> (r: usize)
        ensures
            r == self.queue@.len(),
    {
        self.queue.len()
    }

    /// Drives the session to its end: presents the front card to the
    /// scoring callback together with the count of cards still held
    /// (itself included), requeues the transformed card on `Fail`, moves
    /// the transformed card to the output on any other outcome, and on the
    /// cancellation signal returns every remaining card untouched behind
    /// the cards already judged. Whatever the callback answers, every card
    /// of the hand leaves in the output, its content untouched, and each
    /// output card is either a dealt card exactly as dealt or carries a
    /// scheduling state the interval engine produced; under a callback that
    /// never fails, output card `i` is exactly the transform of dealt card
    /// `i` under the score it received, and under one that cancels at once,
    /// the output is the dealt queue itself. A callback may keep failing a
    /// card indefinitely; ending the session is then the callback's
    /// contract, not this function's, so the loop carries a step budget so
    /// large no student could spend it, after which the session drains
    /// like a cancellation.
    pub fn revise_until_none_fail<F: Fn(&Card, usize) -> Result<
        Score,
        CancelSignal,
    >>(self, read_score: F) -> (r: Result<Vec<Card>, HandError>)
        requires
            self.wf(),
            forall|card: &Card, n: usize| #[trigger] call_requires(read_score, (card, n)),
        ensures
            r matches Ok(output) && output@.len() == self.queue@.len() && spec_contents(output@)
                == spec_contents(self.queue@) && forall|i: int|
                0 <= i < r->Ok_0@.len() ==> (#[trigger] r->Ok_0@[i]).valid(),
            forall|i: int|
                0 <= i < r->Ok_0@.len() ==> spec_session_card(
                    #[trigger] r->Ok_0@[i],
                    self.queue@,
                    self.interval_coefficients,
                ),
            spec_never_fails(read_score) ==> forall|i: int|
                0 <= i < r->Ok_0@.len() ==> spec_scored_output(
                    #[trigger] r->Ok_0@[i],
                    self.queue@[i],
                    self.interval_coefficients,
                ),
            spec_only_cancels(read_score) ==> r->Ok_0@ == self.queue@,
    {
        let mut hand: Hand = self;
        let ghost orig = hand.queue@;
        let n_dealt: usize = hand.queue.len();
        let mut output: Vec<Card> = Vec::new();
        proof {
            broadcast use vstd::multiset::group_multiset_axioms;

            lemma_contents_nil(output@);
            assert(spec_contents(output@).add(spec_contents(hand.queue@)) =~= spec_contents(
                orig,
            ));
            assert(orig.skip(0) =~= orig);
            assert forall|i: int|
                0 <= i < hand.queue@.len() implies spec_session_card(
                #[trigger] hand.queue@[i],
                orig,
                self.interval_coefficients,
            ) by {
                assert(hand.queue@[i] == orig[i]);
            }
        }
        let mut steps_left: u64 = u64::MAX;
        while hand.queue.len() > 0 && steps_left > 0
            invariant
                orig == self.queue@,
                orig.len() == n_dealt,
                hand.interval_coefficients == self.interval_coefficients,
                hand.wf(),
                forall|card: &Card, n: usize| #[trigger] call_requires(read_score, (card, n)),
                output@.len() + hand.queue@.len() == orig.len(),
                spec_contents(output@).add(spec_contents(hand.queue@)) == spec_contents(orig),
                forall|i: int| 0 <= i < output@.len() ==> (#[trigger] output@[i]).valid(),
                forall|i: int|
                    0 <= i < output@.len() ==> spec_session_card(
                        #[trigger] output@[i],
                        orig,
                        self.interval_coefficients,
                    ),
                forall|i: int|
                    0 <= i < hand.queue@.len() ==> spec_session_card(
                        #[trigger] hand.queue@[i],
                        orig,
                        self.interval_coefficients,
                    ),
                spec_never_fails(read_score) ==> (hand.queue@ == orig.skip(output@.len() as int)
                    && u64::MAX - steps_left == output@.len() && forall|i: int|
                    0 <= i < output@.len() ==> spec_scored_output(
                        #[trigger] output@[i],
                        orig[i],
                        self.interval_coefficients,
                    )),
                spec_only_cancels(read_score) ==> (output@.len() == 0 && hand.queue@ == orig
                    && steps_left == u64::MAX),
            decreases steps_left,
        {
            steps_left = steps_left - 1;
            let n_remaining: usize = hand.queue.len();
            let ghost queue_before = hand.queue@;
            let ghost output_before = output@;
            let card: Card = hand.queue.pop_front().unwrap();
            proof {
                lemma_contents_pop_front(queue_before);
            }
            let score_result: Result<Score, CancelSignal> = read_score(&card, n_remaining);
            match score_result {
                Ok(Score::Fail) => {
                    let transformed: Card = card.transform(
                        Score::Fail,
                        &hand.interval_coefficients,
                    );
                    proof {
                        lemma_contents_push(hand.queue@, transformed);
                    }
                    hand.queue.push_back(transformed);
                    proof {
                        assert(spec_contents(output@).add(spec_contents(hand.queue@))
                            =~= spec_contents(orig));
                        // the step is exactly the state machine's `Fail` move
                        let at = choose|at: i64|
                            valid_time(at) && #[trigger] is_transform_of(
                                transformed.revision_settings,
                                card.revision_settings,
                                Score::Fail,
                                hand.interval_coefficients,
                                at as int,
                            );
                        lemma_answer_step(
                            queue_before,
                            output_before,
                            card,
                            transformed,
                            Score::Fail,
                            hand.interval_coefficients,
                            at as int,
                        );
                        assert(hand.queue@.map_values(|c: Card| c@) =~= spec_answer(
                            queue_before.map_values(|c: Card| c@),
                            output_before.map_values(|c: Card| c@),
                            Score::Fail,
                            hand.interval_coefficients,
                            at as int,
                        ).0);
                        assert forall|i: int|
                            0 <= i < hand.queue@.len() implies spec_session_card(
                            #[trigger] hand.queue@[i],
                            orig,
                            self.interval_coefficients,
                        ) by {
                            if i < hand.queue@.len() - 1 {
                                assert(hand.queue@[i] == queue_before[i + 1]);
                            } else {
                                assert(hand.queue@[i] == transformed);
                                assert(transformed.revision_settings
                                    == spec_transformed_settings(
                                    card.revision_settings,
                                    Score::Fail,
                                    self.interval_coefficients,
                                    at as int,
                                ));
                            }
                        }
                        if spec_never_fails(read_score) {
                            assert(call_ensures(
                                read_score,
                                (&card, n_remaining),
                                score_result,
                            ));
                            assert(false);
                        }
                        if spec_only_cancels(read_score) {
                            assert(call_ensures(
                                read_score,
                                (&card, n_remaining),
                                score_result,
                            ));
                            assert(false);
                        }
                    }
                },
                Ok(any_other_score) => {
                    let transformed: Card = card.transform(
                        any_other_score,
                        &hand.interval_coefficients,
                    );
                    proof {
                        lemma_contents_push(output@, transformed);
                    }
                    output.push(transformed);
                    proof {
                        assert(spec_contents(output@).add(spec_contents(hand.queue@))
                            =~= spec_contents(orig));
                        // the step is exactly the state machine's move for a
                        // passing outcome
                        let at = choose|at: i64|
                            valid_time(at) && #[trigger] is_transform_of(
                                transformed.revision_settings,
                                card.revision_settings,
                                any_other_score,
                                hand.interval_coefficients,
                                at as int,
                            );
                        lemma_answer_step(
                            queue_before,
                            output_before,
                            card,
                            transformed,
                            any_other_score,
                            hand.interval_coefficients,
                            at as int,
                        );
                        assert(output@.map_values(|c: Card| c@) =~= spec_answer(
                            queue_before.map_values(|c: Card| c@),
                            output_before.map_values(|c: Card| c@),
                            any_other_score,
                            hand.interval_coefficients,
                            at as int,
                        ).1);
                        assert(transformed.revision_settings == spec_transformed_settings(
                            card.revision_settings,
                            any_other_score,
                            self.interval_coefficients,
                            at as int,
                        ));
                        assert forall|i: int|
                            0 <= i < output@.len() implies spec_session_card(
                            #[trigger] output@[i],
                            orig,
                            self.interval_coefficients,
                        ) by {
                            if i < output@.len() - 1 {
                                assert(output@[i] == output_before[i]);
                            } else {
                                assert(output@[i] == transformed);
                            }
                        }
                        if spec_only_cancels(read_score) {
                            assert(call_ensures(
                                read_score,
                                (&card, n_remaining),
                                score_result,
                            ));
                            assert(false);
                        }
                        if spec_never_fails(read_score) {
                            assert(call_ensures(
                                read_score,
                                (&card, n_remaining),
                                score_result,
                            ));
                            let ghost k = output_before.len() as int;
                            assert(queue_before == orig.skip(k));
                            assert(card == orig[k]);
                            assert(hand.queue@ =~= orig.skip(k + 1));
                            assert(transformed@.content() == card@.content());
                            assert(transformed@ == spec_transformed_view(
                                card@,
                                any_other_score,
                                self.interval_coefficients,
                                at as int,
                            ));
                            assert(spec_scored_output(
                                transformed,
                                orig[k],
                                self.interval_coefficients,
                            ));
                            assert forall|i: int|
                                0 <= i < output@.len() implies spec_scored_output(
                                #[trigger] output@[i],
                                orig[i],
                                self.interval_coefficients,
                            ) by {
                                if i < output@.len() - 1 {
                                    assert(output@[i] == output_before[i]);
                                    assert(spec_scored_output(
                                        output_before[i],
                                        orig[i],
                                        self.interval_coefficients,
                                    ));
                                } else {
                                    assert(output@[i] == transformed);
                                }
                            }
                        }
                    }
                },
                Err(_) => {
                    proof {
                        lemma_contents_push(output@, card);
                        if spec_never_fails(read_score) {
                            assert(call_ensures(
                                read_score,
                                (&card, n_remaining),
                                score_result,
                            ));
                            assert(false);
                        }
                    }
                    output.push(card);
                    proof {
                        assert(spec_contents(output@).add(spec_contents(hand.queue@))
                            =~= spec_contents(orig));
                    }
                    let ghost drained_output = output@;
                    let ghost drained_queue = hand.queue@;
                    while hand.queue.len() > 0
                        invariant
                            orig == self.queue@,
                            output@.len() + hand.queue@.len() == orig.len(),
                            spec_contents(output@).add(spec_contents(hand.queue@))
                                == spec_contents(orig),
                            forall|i: int|
                                0 <= i < output@.len() ==> (#[trigger] output@[i]).valid(),
                            forall|i: int|
                                0 <= i < hand.queue@.len() ==> (
                                #[trigger] hand.queue@[i]).valid(),
                            forall|i: int|
                                0 <= i < output@.len() ==> spec_session_card(
                                    #[trigger] output@[i],
                                    orig,
                                    self.interval_coefficients,
                                ),
                            forall|i: int|
                                0 <= i < hand.queue@.len() ==> spec_session_card(
                                    #[trigger] hand.queue@[i],
                                    orig,
                                    self.interval_coefficients,
                                ),
                            output@ + hand.queue@ == drained_output + drained_queue,
                            spec_never_fails(read_score) ==> false,
                            spec_only_cancels(read_score) ==> (output_before.len() == 0
                                && queue_before == orig && drained_output == output_before.push(
                                card,
                            ) && drained_queue == queue_before.drop_first()),
                        decreases hand.queue@.len(),
                    {
                        let ghost inner_queue = hand.queue@;
                        let remaining_card: Card = hand.queue.pop_front().unwrap();
                        proof {
                            lemma_contents_pop_front(inner_queue);
                            lemma_contents_push(output@, remaining_card);
                        }
                        output.push(remaining_card);
                        proof {
                            assert(spec_contents(output@).add(spec_contents(hand.queue@))
                                =~= spec_contents(orig));
                            assert(output@ + hand.queue@ =~= drained_output + drained_queue);
                        }
                    }
                    proof {
                        lemma_contents_empty(hand.queue@, output@, orig);
                        // cancellation is exactly the state machine's move:
                        // the judged cards as they stand, then the current
                        // card and the remaining queue, untouched
                        assert(output@ =~= drained_output + drained_queue);
                        assert(output@.map_values(|cc: Card| cc@) =~= spec_cancel(
                            queue_before.map_values(|cc: Card| cc@),
                            output_before.map_values(|cc: Card| cc@),
                        ).1);
                        if spec_only_cancels(read_score) {
                            assert(card == queue_before[0]);
                            assert(output@ =~= orig);
                        }
                    }
                    return Ok(output);
                },
            }
        }
        proof {
            broadcast use vstd::multiset::group_multiset_axioms;

            if spec_never_fails(read_score) && hand.queue@.len() > 0 {
                assert(output@.len() < orig.len() <= usize::MAX);
                assert(u64::MAX - steps_left == output@.len());
                assert(steps_left > 0);
                assert(false);
            }
            if spec_only_cancels(read_score) && hand.queue@.len() > 0 {
                assert(steps_left == u64::MAX);
                assert(false);
            }
        }
        while hand.queue.len() > 0
            invariant
                orig == self.queue@,
                output@.len() + hand.queue@.len() == orig.len(),
                spec_contents(output@).add(spec_contents(hand.queue@)) == spec_contents(orig),
                forall|i: int| 0 <= i < output@.len() ==> (#[trigger] output@[i]).valid(),
                forall|i: int| 0 <= i < hand.queue@.len() ==> (#[trigger] hand.queue@[i]).valid(),
                forall|i: int|
                    0 <= i < output@.len() ==> spec_session_card(
                        #[trigger] output@[i],
                        orig,
                        self.interval_coefficients,
                    ),
                forall|i: int|
                    0 <= i < hand.queue@.len() ==> spec_session_card(
                        #[trigger] hand.queue@[i],
                        orig,
                        self.interval_coefficients,
                    ),
                spec_never_fails(read_score) ==> (hand.queue@.len() == 0 && forall|i: int|
                    0 <= i < output@.len() ==> spec_scored_output(
                        #[trigger] output@[i],
                        orig[i],
                        self.interval_coefficients,
                    )),
                spec_only_cancels(read_score) ==> (hand.queue@.len() == 0 && output@ == orig),
            decreases hand.queue@.len(),
        {
            let ghost tail_queue = hand.queue@;
            let leftover_card: Card = hand.queue.pop_front().unwrap();
            proof {
                lemma_contents_pop_front(tail_queue);
                lemma_contents_push(output@, leftover_card);
            }
            output.push(leftover_card);
            proof {
                assert(spec_contents(output@).add(spec_contents(hand.queue@)) =~= spec_contents(
                    orig,
                ));
            }
        }
        proof {
            lemma_contents_empty(hand.queue@, output@, orig);
            if spec_never_fails(read_score) {
                assert(orig.skip(output@.len() as int).len() == 0);
            }
        }
        Ok(output)
    }

    /// The members of the pool that carry the deck's token, in pool order.
    fn filter_cards_in_deck<'h>(deck: &Deck, cards: Vec<&'h Card>) -> (r: Vec<&'h Card>)
        ensures
            spec_views_of(r@) == spec_deck_filter(spec_views_of(cards@), deck.name@),
            spec_all_valid(cards@) ==> spec_all_valid(r@),
    {
        let mut r: Vec<&'h Card> = Vec::new();
        let mut i: usize = 0;
        while i < cards.len()
            invariant
                i <= cards@.len(),
                spec_views_of(r@) == spec_deck_filter(spec_views_of(cards@.take(i as int)), deck.name@),
                spec_all_valid(cards@) ==> spec_all_valid(r@),
            decreases cards@.len() - i,
        {
            let ghost prefix_views = spec_views_of(cards@.take(i as int));
            let ghost step_views = spec_views_of(cards@.take(i as int + 1));
            proof {
                assert(cards@.take(i as int + 1).drop_last() =~= cards@.take(i as int));
                assert(step_views.drop_last() =~= prefix_views);
                assert(step_views.last() == (*cards@[i as int])@);
                reveal(Seq::filter);
            }
            let ghost r_views_before = spec_views_of(r@);
            if cards[i].in_deck(deck.name.as_str()) {
                r.push(cards[i]);
                proof {
                    assert(spec_views_of(r@) =~= r_views_before.push((*cards@[i as int])@));
                }
            }
            i += 1;
        }
        proof {
            assert(cards@.take(cards@.len() as int) =~= cards@);
        }
        r
    }

    /// The members of the pool that are due at `now`, in pool order.
    fn filter_due_cards<'h>(cards: Vec<&'h Card>, now: i64) -> (r: Vec<&'h Card>)
        ensures
            spec_views_of(r@) == spec_due_filter(spec_views_of(cards@), now as int),
            spec_all_valid(cards@) ==> spec_all_valid(r@),
    {
        let mut r: Vec<&'h Card> = Vec::new();
        let mut i: usize = 0;
        while i < cards.len()
            invariant
                i <= cards@.len(),
                spec_views_of(r@) == spec_due_filter(spec_views_of(cards@.take(i as int)), now as int),
                spec_all_valid(cards@) ==> spec_all_valid(r@),
            decreases cards@.len() - i,
        {
            let ghost prefix_views = spec_views_of(cards@.take(i as int));
            let ghost step_views = spec_views_of(cards@.take(i as int + 1));
            proof {
                assert(cards@.take(i as int + 1).drop_last() =~= cards@.take(i as int));
                assert(step_views.drop_last() =~= prefix_views);
                assert(step_views.last() == (*cards@[i as int])@);
                reveal(Seq::filter);
            }
            let ghost r_views_before = spec_views_of(r@);
            if cards[i].is_due_at(now) {
                r.push(cards[i]);
                proof {
                    assert(spec_views_of(r@) =~= r_views_before.push((*cards@[i as int])@));
                }
            }
            i += 1;
        }
        proof {
            assert(cards@.take(cards@.len() as int) =~= cards@);
        }
        r
    }
}

/// An empty pile of cards has no contents.
proof fn lemma_contents_nil(s: Seq<Card>)
    requires
        s.len() == 0,
    ensures
        spec_contents(s) == Multiset::<(Seq<char>, Seq<Seq<char>>, Seq<char>, Seq<char>)>::empty(),
{
    broadcast use vstd::seq_lib::group_to_multiset_ensures;
    broadcast use vstd::multiset::group_multiset_axioms;

    assert(s.map_values(|c: Card| c@.content()) =~= Seq::empty());
    assert(spec_contents(s) =~= Multiset::empty());
}

/// Popping the front card splits one content off the queue's multiset.
proof fn lemma_contents_pop_front(s: Seq<Card>)
    requires
        s.len() > 0,
    ensures
        spec_contents(s) == spec_contents(s.drop_first()).insert(s[0]@.content()),
{
    broadcast use vstd::multiset::group_multiset_axioms;

    let mapped = s.map_values(|c: Card| c@.content());
    let first = seq![s[0]].map_values(|c: Card| c@.content());
    let rest = s.drop_first().map_values(|c: Card| c@.content());
    assert(mapped =~= first + rest);
    lemma_multiset_commutative(first, rest);
    assert(first.to_multiset() =~= Multiset::empty().insert(s[0]@.content())) by {
        assert(first =~= Seq::empty().push(s[0]@.content()));
        broadcast use vstd::seq_lib::group_to_multiset_ensures;

    }
    assert(spec_contents(s) =~= spec_contents(s.drop_first()).insert(s[0]@.content()));
}

/// Pushing a card onto the back adds its content to the multiset.
proof fn lemma_contents_push(s: Seq<Card>, card: Card)
    ensures
        spec_contents(s.push(card)) == spec_contents(s).insert(card@.content()),
{
    broadcast use vstd::seq_lib::group_to_multiset_ensures;

    assert(s.push(card).map_values(|c: Card| c@.content()) =~= s.map_values(
        |c: Card| c@.content(),
    ).push(card@.content()));
}

/// With the queue empty, the output alone carries the original contents.
proof fn lemma_contents_empty(queue: Seq<Card>, output: Seq<Card>, orig: Seq<Card>)
    requires
        queue.len() == 0,
        spec_contents(output).add(spec_contents(queue)) == spec_contents(orig),
    ensures
        spec_contents(output) == spec_contents(orig),
{
    broadcast use vstd::multiset::group_multiset_axioms;

    assert(queue.map_values(|c: Card| c@.content()) =~= Seq::empty());
    assert(spec_contents(queue) =~= Multiset::empty()) by {
        broadcast use vstd::seq_lib::group_to_multiset_ensures;

    }
    assert(spec_contents(output).add(Multiset::empty()) =~= spec_contents(output));
}

/// An owned copy of each borrowed card, views kept.
fn clone_cards(cards: Vec<&Card>) -> (r: Vec<Card>)
    ensures
        r@.map_values(|c: Card| c@) == spec_views_of(cards@),
        r@.len() == cards@.len(),
        spec_all_valid(cards@) ==> forall|j: int|
            0 <= j < r@.len() ==> (#[trigger] r@[j]).valid(),
{
    let mut r: Vec<Card> = Vec::new();
    let mut i: usize = 0;
    while i < cards.len()
        invariant
            i <= cards@.len(),
            r@.len() == i,
            forall|j: int|
                0 <= j < i ==> (#[trigger] r@[j])@ == (*cards@[j])@,
        decreases cards@.len() - i,
    {
        r.push(cards[i].clone());
        i += 1;
    }
    proof {
        assert(r@.map_values(|c: Card| c@) =~= spec_views_of(cards@));
        if spec_all_valid(cards@) {
            assert forall|j: int| 0 <= j < r@.len() implies (#[trigger] r@[j]).valid() by {
                assert(r@[j]@.revision_settings == (*cards@[j])@.revision_settings);
            }
        }
    }
    r
}

/// The cards moved into a queue, order kept.
fn to_queue(cards: Vec<Card>) -> (r: VecDeque<Card>)
    ensures
        r@ == cards@,
{
    let ghost orig = cards@;
    let mut remaining: Vec<Card> = cards;
    let mut r: VecDeque<Card> = VecDeque::new();
    let mut i: usize = 0;
    while remaining.len() > 0
        invariant
            r@ + remaining@ == orig,
        decreases remaining@.len(),
    {
        let card: Card = remaining.remove(0);
        r.push_back(card);
        proof {
            assert(r@ + remaining@ =~= orig);
        }
    }
    proof {
        assert(r@ =~= orig);
    }
    r
}

} // verus!

