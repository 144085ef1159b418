use vultan::state::card::parser::{Parse, ParsedCardFields, ParsingError};
use vultan::state::card::revision_settings::{RevisionSettings, FACTOR_FLOOR};
use vultan::state::card::score::Score;
use vultan::state::card::{make_glob_pattern, Card, CardError};
use vultan::state::deck::interval_coefficients::IntervalCoefficients;
use vultan::state::tools::{Merge, IO, UID};

const DAY: i64 = 86400;

const FAKE_PATH: &str = "a_path";

fn now_secs() -> i64 {
    std::time::SystemTime::now()
        .duration_since(std::time::UNIX_EPOCH)
        .unwrap()
        .as_secs() as i64
}

fn make_fake_card(
    path: &str,
    decks: Vec<&str>,
    question: &str,
    answer: &str,
    revision_settings: RevisionSettings,
) -> Card {
    Card::new(
        path.to_string(),
        decks.iter().map(|s| s.to_string()).collect(),
        question.to_string(),
        answer.to_string(),
        revision_settings,
    )
}

fn make_fake_parsed_fields(decks: Vec<&str>, question: &str, answer: &str) -> ParsedCardFields {
    ParsedCardFields {
        decks: decks.iter().map(|s| s.to_string()).collect(),
        question: question.to_string(),
        answer: answer.to_string(),
    }
}

/// Compares every field but allows the due dates to sit a moment apart.
fn assert_cards_near(a: &Card, b: &Card) {
    assert_eq!(a.path, b.path);
    assert_eq!(a.decks, b.decks);
    assert_eq!(a.question, b.question);
    assert_eq!(a.answer, b.answer);
    assert_eq!(a.revision_settings.interval, b.revision_settings.interval);
    assert_eq!(
        a.revision_settings.memorisation_factor,
        b.revision_settings.memorisation_factor
    );
    assert!((a.revision_settings.due - b.revision_settings.due).abs() < 2);
}

struct SuccessfulFileHandle {
    path: String,
    content: String,
}

impl IO for SuccessfulFileHandle {
    fn path(&self) -> &str {
        &self.path
    }
    fn read(&self) -> Result<String, std::io::Error> {
        Ok(self.content.clone())
    }
    fn write(&self, _content: String) -> Result<(), std::io::Error> {
        Ok(())
    }
}

struct FailingFileHandle {
    path: String,
}

impl IO for FailingFileHandle {
    fn path(&self) -> &str {
        &self.path
    }
    fn read(&self) -> Result<String, std::io::Error> {
        Err(std::io::Error::from(std::io::ErrorKind::NotFound))
    }
    fn write(&self, _content: String) -> Result<(), std::io::Error> {
        Err(std::io::Error::from(std::io::ErrorKind::NotFound))
    }
}

struct FakeParser {
    result: Result<ParsedCardFields, ParsingError>,
}

impl Parse for FakeParser {
    fn parse(&self, _input: &str) -> Result<ParsedCardFields, ParsingError> {
        self.result.clone()
    }
}

#[test]
fn card_default() {
    let expected = Card {
        path: String::from(""),
        decks: Vec::new(),
        question: String::from(""),
        answer: String::from(""),
        revision_settings: RevisionSettings::default(),
    };
    let actual = Card::default();
    assert_cards_near(&expected, &actual);
}

#[test]
fn card_from() {
    let parsed_fields = make_fake_parsed_fields(vec!["tag"], "what?", "that");
    let parser = FakeParser {
        result: Ok(parsed_fields.clone()),
    };
    let handle = SuccessfulFileHandle {
        path: FAKE_PATH.to_string(),
        content: FAKE_PATH.to_string(),
    };
    let expected = make_fake_card(
        FAKE_PATH,
        vec!["tag"],
        "what?",
        "that",
        RevisionSettings::default(),
    );
    let actual = Card::from(handle, &parser).unwrap();
    assert_cards_near(&expected, &actual);
}

#[test]
fn from_where_parser_fails() {
    let parser = FakeParser {
        result: Err(ParsingError::DeckParsingError {
            input: "FAIL".to_string(),
        }),
    };
    let handle = SuccessfulFileHandle {
        path: FAKE_PATH.to_string(),
        content: FAKE_PATH.to_string(),
    };
    let actual = Card::from(handle, &parser);
    assert!(actual.is_err());
    assert!(format!("{:#?}", actual.unwrap_err()).contains("FAIL"));
}

#[test]
fn from_where_file_read_fails() {
    let parser = FakeParser {
        result: Ok(ParsedCardFields::default()),
    };
    let handle = FailingFileHandle {
        path: FAKE_PATH.to_string(),
    };
    let actual = Card::from(handle, &parser);
    assert!(actual.is_err());
    assert!(matches!(
        actual.unwrap_err(),
        CardError::ReadError { path } if path == FAKE_PATH
    ));
}

#[test]
fn card_new() {
    let path = String::from("some-path");
    let decks = vec![String::from("some-tag")];
    let question = String::from("a question?");
    let answer = String::from("an answer.");
    let revision_settings = RevisionSettings::new(now_secs(), 2_000, 3_000);
    let expected = Card {
        path: path.clone(),
        decks: decks.clone(),
        question: question.clone(),
        answer: answer.clone(),
        revision_settings,
    };
    let actual = Card::new(path, decks, question, answer, revision_settings);
    assert_eq!(expected, actual);
}

#[test]
fn with_revision_settings() {
    let card = Card::default();
    let revision_settings = RevisionSettings::new(now_secs(), 9_000_000, 10_000_000);
    let mut expected = card.clone();
    expected.revision_settings = revision_settings;
    assert_eq!(expected, card.with_revision_settings(revision_settings));
}

#[test]
fn card_transform() {
    let now = now_secs();
    let in_due_date = now - 4 * DAY;
    let revision_settings = RevisionSettings::new(in_due_date, 1_000, 2_000_000);
    let input = make_fake_card("p", vec!["d"], "q", "a", revision_settings);
    let coefficients = IntervalCoefficients::new(1_000, 2_000, 0);
    // outcome Easy: interval 20 days, factor 2150
    let out_revision_settings =
        RevisionSettings::new(in_due_date + 20 * DAY, 20_000, 2_150_000);
    let mut expected = input.clone();
    expected.revision_settings = out_revision_settings;
    let actual = input.transform(Score::Easy, &coefficients);
    assert_eq!(expected, actual);
}

#[test]
fn is_due_when_due_date_in_past() {
    let mut revision_settings = RevisionSettings::default();
    revision_settings.due = now_secs() - 100 * DAY;
    let card = make_fake_card("some-identifier", vec!["deck"], "q?", "ans", revision_settings);
    assert!(card.is_due());
}

#[test]
fn is_due_when_due_date_in_future() {
    let mut revision_settings = RevisionSettings::default();
    revision_settings.due = now_secs() + 100 * DAY;
    let card = make_fake_card("some-identifier", vec!["deck"], "q?", "ans", revision_settings);
    assert!(!card.is_due());
}

#[test]
fn in_deck_when_decks_contains_id() {
    let card = make_fake_card(
        "some-identifier",
        vec!["deck", "THIS"],
        "q?",
        "ans",
        RevisionSettings::default(),
    );
    assert!(card.in_deck("THIS"));
}

#[test]
fn in_deck_when_decks_do_not_contain_id() {
    let card = make_fake_card(
        "some-identifier",
        vec![],
        "q?",
        "ans",
        RevisionSettings::default(),
    );
    assert!(!card.in_deck("THIS"));
}

#[test]
fn card_uid() {
    let path = "the/path";
    let card = make_fake_card(path, vec![], "", "", RevisionSettings::default());
    assert_eq!(path, card.uid());
}

#[test]
fn card_merge() {
    let a = make_fake_card(
        "a",
        vec![],
        "huh?",
        "don't worry",
        RevisionSettings::default(),
    );
    let mut b = a.clone();
    b.path = "b".to_string();
    b.revision_settings = RevisionSettings::new(now_secs(), 654_250, 9_876_500);
    let mut expected = a.clone();
    expected.revision_settings = b.revision_settings;
    assert_eq!(expected, a.merge(&b));
}

#[test]
fn glob_pattern_appends_the_notes_wildcard() {
    let actual = make_glob_pattern("notes/dir").unwrap();
    assert_eq!("notes/dir/**/*.md", actual);
}
