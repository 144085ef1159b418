use std::cell::Cell;
use std::collections::VecDeque;
use vultan::state::card::revision_settings::RevisionSettings;
use vultan::state::card::score::Score;
use vultan::state::card::Card;
use vultan::state::deck::interval_coefficients::IntervalCoefficients;
use vultan::state::deck::Deck;
use vultan::state::hand::shuffle::shuffle_cards_with_picks;
use vultan::state::hand::{CancelSignal, Hand, HandError};

const DAY: i64 = 86400;

const FAKE_DECK_NAME: &str = "cephelapoda";

fn now_secs() -> i64 {
    std::time::SystemTime::now()
        .duration_since(std::time::UNIX_EPOCH)
        .unwrap()
        .as_secs() as i64
}

fn make_card(path: &str, deck: &str) -> Card {
    Card::new(
        path.to_string(),
        vec![deck.to_string()],
        format!("{:?}?", path),
        format!("yes, {:?}", path),
        RevisionSettings::new(now_secs() - DAY, 0, 1_300_000),
    )
}

fn make_future_card(path: &str, deck: &str) -> Card {
    Card::new(
        path.to_string(),
        vec![deck.to_string()],
        format!("{:?}?", path),
        format!("yes, {:?}", path),
        RevisionSettings::new(now_secs() + 10 * DAY, 0, 1_300_000),
    )
}

fn make_card_with_revision_settings(
    path: &str,
    deck: &str,
    revision_settings: &RevisionSettings,
) -> Card {
    let mut card = make_card(path, deck);
    card.revision_settings = *revision_settings;
    card
}

fn make_deck(name: &str, card_paths: &[&str]) -> Deck {
    Deck::new(name, card_paths.to_owned(), IntervalCoefficients::default())
}

fn make_cards(deck_id: &str, card_paths: &[&str]) -> Vec<Card> {
    card_paths.iter().map(|p| make_card(p, deck_id)).collect()
}

fn fake_cards(paths: Vec<&str>) -> Vec<Card> {
    make_cards(FAKE_DECK_NAME, &paths)
}

/// A pick list of zeroes, the deterministic stand-in for a random source.
fn zero_picks(n_cards: usize) -> Vec<usize> {
    if n_cards == 0 {
        Vec::new()
    } else {
        vec![0; n_cards - 1]
    }
}

fn deal_hand(cards: &[Card], n_due: usize) -> Result<Hand, HandError> {
    let card_paths: Vec<&str> = cards.iter().map(|c| c.path.as_str()).collect();
    let deck = make_deck(FAKE_DECK_NAME, &card_paths);
    Hand::from_at_with_picks(
        &deck,
        cards.iter().collect(),
        now_secs(),
        &zero_picks(n_due),
    )
}

fn queue_paths(hand: &Hand) -> Vec<String> {
    hand.queue.iter().map(|c| c.path.clone()).collect()
}

#[test]
fn from_creates_shuffled_card_queue_from_deck_and_cards() {
    let cards = fake_cards(vec!["octopus", "squid", "cuttlefish", "nautilus"]);
    let hand = deal_hand(&cards, 4).unwrap();
    assert_eq!(
        vec!["squid", "cuttlefish", "nautilus", "octopus"],
        queue_paths(&hand)
    );
}

#[test]
fn from_creates_shuffled_card_queue_containing_due_cards_only() {
    let mut cards = fake_cards(vec!["squid", "cuttlefish", "nautilus"]);
    cards.push(make_future_card("octopus", FAKE_DECK_NAME));
    let hand = deal_hand(&cards, 3).unwrap();
    assert_eq!(vec!["cuttlefish", "nautilus", "squid"], queue_paths(&hand));
}

#[test]
fn from_creates_shuffled_card_queue_containing_cards_in_deck_only() {
    let mut cards = fake_cards(vec!["octopus", "squid", "cuttlefish", "nautilus"]);
    cards.push(make_card("clam", "bivalvia"));
    let hand = deal_hand(&cards, 4).unwrap();
    assert_eq!(
        vec!["squid", "cuttlefish", "nautilus", "octopus"],
        queue_paths(&hand)
    );
}

#[test]
fn from_returns_empty_deck_error_if_no_cards_exist_for_deck() {
    let cards = vec![make_card("clam", "bivalvia")];
    let actual = deal_hand(&cards, 0);
    assert_eq!(
        HandError::EmptyDeck {
            name: FAKE_DECK_NAME.to_owned()
        },
        actual.unwrap_err()
    );
}

#[test]
fn from_returns_no_due_cards_error_if_no_cards_due_in_deck() {
    let cards = vec![make_future_card("squid", FAKE_DECK_NAME)];
    let actual = deal_hand(&cards, 0);
    assert_eq!(
        HandError::NoDueCards {
            name: FAKE_DECK_NAME.to_owned()
        },
        actual.unwrap_err()
    );
}

#[test]
fn hand_revise_until_none_fail_with_empty_queue() {
    let hand = Hand {
        queue: VecDeque::new(),
        interval_coefficients: IntervalCoefficients::default(),
    };
    let actual = hand.revise_until_none_fail(|_card, _n_remaining| Ok(Score::Easy));
    assert!(actual.expect("Expected empty vec").is_empty());
}

#[test]
fn hand_revise_until_none_fail_transforms_cards_based_on_their_score() {
    let deck_id = "some_deck";
    let in_date = now_secs() - 4 * DAY;
    let input_revision_settings = RevisionSettings::new(in_date, 1_000, 2_000_000);
    let input_card_paths = vec!["hard", "pass", "easy"];
    let cards: Vec<Card> = input_card_paths
        .iter()
        .map(|path| make_card_with_revision_settings(path, deck_id, &input_revision_settings))
        .collect();
    let interval_coefficients = IntervalCoefficients::new(1_000, 2_000, 0);
    let deck = Deck::new(deck_id, input_card_paths.clone(), interval_coefficients);
    let hand =
        Hand::from_at_with_picks(&deck, cards.iter().collect(), now_secs(), &zero_picks(3))
            .unwrap();
    // queue order with the zero picks: pass, easy, hard
    let expected_specs: Vec<(&str, u64, u64)> = vec![
        ("pass", 6_000, 2_000_000),
        ("easy", 20_000, 2_150_000),
        ("hard", 2_400, 1_850_000),
    ];
    let expected: Vec<Card> = expected_specs
        .into_iter()
        .map(|(p, interval, factor)| {
            let due = in_date + (864 * interval as i64) / 10;
            let settings = RevisionSettings::new(due, interval, factor);
            make_card_with_revision_settings(p, deck_id, &settings)
        })
        .collect();

    let expected_remaining = Cell::new(cards.len());
    let actual = hand
        .revise_until_none_fail(|card, n_remaining| {
            assert_eq!(expected_remaining.get(), n_remaining);
            expected_remaining.set(expected_remaining.get() - 1);
            match &card.path[..] {
                "hard" => Ok(Score::Hard),
                "pass" => Ok(Score::Pass),
                "easy" => Ok(Score::Easy),
                _ => panic!("IMPOSSIBLE"),
            }
        })
        .expect("Expected vec of cards");

    assert_eq!(expected, actual);
}

#[test]
fn number_of_due_cards() {
    let deck_id = "some_deck";
    let due_card_rs = RevisionSettings::new(now_secs() - 4 * DAY, 1_000, 2_000_000);
    let not_due_card_rs = RevisionSettings::new(now_secs() + 4 * DAY, 1_000, 2_000_000);
    let due_card = make_card_with_revision_settings("path_1", deck_id, &due_card_rs);
    let not_due_card = make_card_with_revision_settings("path_2", deck_id, &not_due_card_rs);
    let cards = vec![&due_card, &not_due_card];
    let deck = Deck::new(
        deck_id,
        vec!["path_1", "path_2"],
        IntervalCoefficients::new(1_000, 2_000, 0),
    );
    let hand = Hand::from_at_with_picks(&deck, cards, now_secs(), &zero_picks(1)).unwrap();
    assert_eq!(1, hand.number_of_due_cards());
}

#[test]
fn revise_until_none_fail_cycles_for_failed_cards() {
    let deck_id = "some_deck";
    let in_date = now_secs() - 4 * DAY;
    let in_rs = RevisionSettings::new(in_date, 1_000, 2_000_000);
    let card = make_card_with_revision_settings("fail", deck_id, &in_rs);
    let cards = vec![&card];
    let deck = Deck::new(
        deck_id,
        vec!["fail"],
        IntervalCoefficients::new(1_000, 2_000, 0),
    );
    let hand = Hand::from_at_with_picks(&deck, cards, now_secs(), &zero_picks(1)).unwrap();
    // five failures shrink the interval to nothing and the factor to the
    // floor; the final pass reschedules 2.6 days out
    let out_rs = RevisionSettings::new(in_date + (864 * 2_600) / 10, 2_600, 1_300_000);
    let expected = vec![make_card_with_revision_settings("fail", deck_id, &out_rs)];

    let total_number_of_cycles = Cell::new(0);
    let actual = hand
        .revise_until_none_fail(|card, _n_remaining| match &card.path[..] {
            "fail" => {
                if total_number_of_cycles.get() < 5 {
                    total_number_of_cycles.set(total_number_of_cycles.get() + 1);
                    Ok(Score::Fail)
                } else {
                    Ok(Score::Pass)
                }
            }
            _ => panic!("IMPOSSIBLE"),
        })
        .expect("Expected vec of cards");

    assert_eq!(5, total_number_of_cycles.get());
    assert_eq!(expected, actual);
}

#[test]
fn cancellation_returns_unjudged_cards_untouched() {
    let deck_id = "some_deck";
    let in_date = now_secs() - 4 * DAY;
    let in_rs = RevisionSettings::new(in_date, 1_000, 2_000_000);
    let paths = vec!["first", "second", "third"];
    let cards: Vec<Card> = paths
        .iter()
        .map(|p| make_card_with_revision_settings(p, deck_id, &in_rs))
        .collect();
    let deck = Deck::new(deck_id, paths.clone(), IntervalCoefficients::new(1_000, 2_000, 0));
    let hand =
        Hand::from_at_with_picks(&deck, cards.iter().collect(), now_secs(), &zero_picks(3))
            .unwrap();
    let queue_order = queue_paths(&hand);
    assert_eq!(vec!["second", "third", "first"], queue_order);

    let judged = Cell::new(0);
    let actual = hand
        .revise_until_none_fail(|_card, _n_remaining| {
            if judged.get() == 0 {
                judged.set(1);
                Ok(Score::Pass)
            } else {
                Err(CancelSignal)
            }
        })
        .expect("Expected vec of cards");

    // the first card was judged and transformed; the cancelled card and the
    // one behind it come back exactly as they were queued
    assert_eq!(3, actual.len());
    assert_eq!("second", actual[0].path);
    assert_eq!(6_000, actual[0].revision_settings.interval);
    assert_eq!("third", actual[1].path);
    assert_eq!(in_rs, actual[1].revision_settings);
    assert_eq!("first", actual[2].path);
    assert_eq!(in_rs, actual[2].revision_settings);
}

#[test]
fn shuffling_cards() {
    let card_paths = vec!["octopus", "squid", "cuttlefish", "nautilus"];
    let cards: Vec<Card> = card_paths.iter().map(|p| make_card(p, FAKE_DECK_NAME)).collect();
    let expected_paths = vec!["squid", "cuttlefish", "nautilus", "octopus"];
    let actual_cards = shuffle_cards_with_picks(cards, &zero_picks(4));
    let actual_paths: Vec<&str> = actual_cards.iter().map(|c| &c.path[..]).collect();
    assert_eq!(expected_paths, actual_paths);
}
