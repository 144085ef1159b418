use vultan::state::card::revision_settings::RevisionSettings;
use vultan::state::card::{collect_loaded, Card};
use vultan::state::hand::shuffle::shuffle_cards;

fn make_card(path: &str) -> Card {
    Card::new(
        path.to_string(),
        vec!["a_deck".to_string()],
        "q?".to_string(),
        "ans".to_string(),
        RevisionSettings::default(),
    )
}

#[test]
fn collect_loaded_keeps_successes_and_failures_apart() {
    let results: Vec<Result<Card, String>> = vec![
        Ok(make_card("one.md")),
        Err("two.md: no deck line".to_string()),
        Ok(make_card("three.md")),
        Err("four.md: unreadable".to_string()),
    ];
    let loaded = collect_loaded(results);
    let paths: Vec<&str> = loaded.succeeded.iter().map(|c| c.path.as_str()).collect();
    assert_eq!(vec!["one.md", "three.md"], paths);
    assert_eq!(
        vec![
            "two.md: no deck line".to_string(),
            "four.md: unreadable".to_string()
        ],
        loaded.failed
    );
}

#[test]
fn collect_loaded_of_nothing_is_empty() {
    let loaded = collect_loaded(Vec::new());
    assert!(loaded.succeeded.is_empty());
    assert!(loaded.failed.is_empty());
}

#[test]
fn random_shuffle_keeps_exactly_the_same_cards() {
    let paths = vec!["a", "b", "c", "d", "e", "f", "g"];
    let cards: Vec<Card> = paths.iter().map(|p| make_card(p)).collect();
    let shuffled = shuffle_cards(cards);
    let mut actual: Vec<String> = shuffled.iter().map(|c| c.path.clone()).collect();
    actual.sort();
    let mut expected: Vec<String> = paths.iter().map(|p| p.to_string()).collect();
    expected.sort();
    assert_eq!(expected, actual);
}
