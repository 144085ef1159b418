use vultan::state::card::parser::{
    Parse, ParsingConfig, ParsingError, ParsingPattern, Parser,
};
use vultan::state::file::FileHandle;

fn fake_tagged_line_parsing_pattern(tag: &str) -> ParsingPattern {
    ParsingPattern::TaggedLine {
        tag: tag.to_string(),
    }
}

fn fake_wrapped_multi_line_parsing_pattern(opening_tag: &str, closing_tag: &str) -> ParsingPattern {
    ParsingPattern::WrappedMultiLine {
        opening_tag: opening_tag.to_string(),
        closing_tag: closing_tag.to_string(),
    }
}

fn fake_custom_user_config() -> ParsingConfig {
    ParsingConfig {
        decks_pattern: fake_wrapped_multi_line_parsing_pattern("Decks:", "Question:"),
        deck_delimiter: "\n - ".to_string(),
        question_pattern: fake_tagged_line_parsing_pattern("Question:"),
        answer_pattern: fake_tagged_line_parsing_pattern("Answer:"),
    }
}

fn make_fake_config(field: &str, value: &str) -> ParsingConfig {
    let mut user_config = ParsingConfig::default();
    match field {
        "decks" => user_config.decks_pattern = fake_tagged_line_parsing_pattern(value),
        "question" => user_config.question_pattern = fake_tagged_line_parsing_pattern(value),
        "answer" => user_config.answer_pattern = fake_tagged_line_parsing_pattern(value),
        _ => panic!("BAD TEST"),
    };
    user_config
}

#[test]
fn parser_default() {
    let expected_decks_pattern = ParsingPattern::TaggedLine {
        tag: String::from("tags:"),
    };
    let expected_tag_delimiter = String::from(":");
    let expected_question_pattern = ParsingPattern::WrappedMultiLine {
        opening_tag: String::from("# Question"),
        closing_tag: String::from("# Answer"),
    };
    let expected_answer_pattern = ParsingPattern::WrappedMultiLine {
        opening_tag: String::from("# Answer"),
        closing_tag: String::from("----\n"),
    };
    let actual = ParsingConfig::default();
    assert_eq!(expected_decks_pattern, actual.decks_pattern);
    assert_eq!(expected_tag_delimiter, actual.deck_delimiter);
    assert_eq!(expected_question_pattern, actual.question_pattern);
    assert_eq!(expected_answer_pattern, actual.answer_pattern);
}

#[test]
fn parser_from() {
    let config = ParsingConfig::default();
    let actual = Parser::from(&config).unwrap();
    assert_eq!("tags:(.*)", actual.decks_expression);
    assert_eq!(":", actual.deck_delimiter);
    assert_eq!("# Question((?s).*)# Answer", actual.question_expression);
    assert_eq!("# Answer((?s).*)----\n", actual.answer_expression);
}

#[test]
fn from_fails_for_malformed_tags_pattern() {
    let config = make_fake_config("decks", "((");
    let actual = Parser::from(&config);
    assert!(matches!(
        actual.unwrap_err(),
        ParsingError::MalformedPattern { pattern_id } if pattern_id == "decks"
    ));
}

#[test]
fn from_fails_for_malformed_question_pattern() {
    let config = make_fake_config("question", "((");
    let actual = Parser::from(&config);
    assert!(matches!(
        actual.unwrap_err(),
        ParsingError::MalformedPattern { pattern_id } if pattern_id == "question"
    ));
}

#[test]
fn from_fails_for_malformed_answer_pattern() {
    let config = make_fake_config("answer", "((");
    let actual = Parser::from(&config);
    assert!(matches!(
        actual.unwrap_err(),
        ParsingError::MalformedPattern { pattern_id } if pattern_id == "answer"
    ));
}

#[test]
fn parse_with_default_config() {
    let parser = Parser::from(&ParsingConfig::default()).unwrap();
    let input = "---\nk1: v1\ntags: :a:b:c:\n---\n# Question\nwho\ndis?\n# Answer\nme\n\n----\n";
    let actual = parser.parse(input).unwrap();
    assert_eq!(vec!["a", "b", "c"], actual.decks);
    assert_eq!("who\ndis?", actual.question);
    assert_eq!("me", actual.answer);
}

#[test]
fn parse_with_multi_line_tags_single_line_question_single_line_answer() {
    let parser = Parser::from(&fake_custom_user_config()).unwrap();
    let input = "some noise\nDecks:\n a\n - b\n - c\nQuestion: what?\nAnswer: thing\nsome noise";
    let actual = parser.parse(input).unwrap();
    assert_eq!(vec!["a", "b", "c"], actual.decks);
    assert_eq!("what?", actual.question);
    assert_eq!("thing", actual.answer);
}

#[test]
fn parse_where_tags_expression_has_no_captures() {
    let parser = Parser::from(&ParsingConfig::default()).unwrap();
    let input = "---\nk1: v1\n---\n# Question\nwhat?\n# Answer \nthing\n\n----\nBacklink: SOMELINK\n";
    let actual = parser.parse(input);
    assert!(matches!(
        actual.unwrap_err(),
        ParsingError::DeckParsingError { input: i } if i == input
    ));
}

#[test]
fn parse_where_question_expression_has_no_captures() {
    let parser = Parser::from(&ParsingConfig::default()).unwrap();
    let input = "---\nk1: v1\ntags: :a:\n---\n# A Q\nwhat?\n# Answer \nthing\n\n----\n";
    let actual = parser.parse(input);
    assert!(matches!(
        actual.unwrap_err(),
        ParsingError::QuestionParsingError { input: i } if i == input
    ));
}

#[test]
fn parse_where_answer_expression_has_no_captures() {
    let parser = Parser::from(&ParsingConfig::default()).unwrap();
    let input = "---\ntags: :a:\n---\n# Question\nwho?\n# Answer \ntme\n\n--_--\n";
    let actual = parser.parse(input);
    assert!(matches!(
        actual.unwrap_err(),
        ParsingError::AnswerParsingError { input: i } if i == input
    ));
}

#[test]
fn file_from() {
    let path = "hello".to_string();
    let handle = FileHandle::from(path.clone());
    assert_eq!(path, handle.path);
}

#[test]
fn exposes_path_getter() {
    let path_str = "hello";
    let handle = FileHandle::from(path_str.to_string());
    assert_eq!(path_str, handle.path());
}
