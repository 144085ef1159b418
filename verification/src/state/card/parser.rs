use vstd::prelude::*;

verus! {

/// Why a note's text could not be parsed into card fields, or why a parser
/// could not be built from its configuration.
#[derive(Clone, Debug, PartialEq)]
pub enum ParsingError {
    DeckParsingError { input: String },
    QuestionParsingError { input: String },
    AnswerParsingError { input: String },
    MalformedPattern { pattern_id: String },
}

/// Where a field stands in a note's text: either the rest of the line a tag
/// opens, or everything between an opening and a closing tag.
#[derive(Clone, Debug, PartialEq)]
pub enum ParsingPattern {
    WrappedMultiLine { opening_tag: String, closing_tag: String },
    TaggedLine { tag: String },
}

/// How the three card fields and the deck list are extracted from a note.
#[derive(Clone, Debug, PartialEq)]
pub struct ParsingConfig {
    pub decks_pattern: ParsingPattern,
    pub deck_delimiter: String,
    pub question_pattern: ParsingPattern,
    pub answer_pattern: ParsingPattern,
}

impl Default for ParsingConfig {
    /// The stock note layout: a `tags:` line for the decks, the question
    /// between `# Question` and `# Answer`, the answer from `# Answer` to a
    /// horizontal rule.
    fn default() -> (r: Self)
        ensures
            r.decks_pattern matches ParsingPattern::TaggedLine { tag } && tag@ == "tags:"@,
            r.deck_delimiter@ == ":"@,
            r.question_pattern matches ParsingPattern::WrappedMultiLine { opening_tag, closing_tag }
                && opening_tag@ == "# Question"@ && closing_tag@ == "# Answer"@,
            r.answer_pattern matches ParsingPattern::WrappedMultiLine { opening_tag, closing_tag }
                && opening_tag@ == "# Answer"@ && closing_tag@ == "----\n"@,
    {
        Self {
            decks_pattern: ParsingPattern::TaggedLine { tag: "tags:".to_owned() },
            deck_delimiter: ":".to_owned(),
            question_pattern: ParsingPattern::WrappedMultiLine {
                opening_tag: "# Question".to_owned(),
                closing_tag: "# Answer".to_owned(),
            },
            answer_pattern: ParsingPattern::WrappedMultiLine {
                opening_tag: "# Answer".to_owned(),
                closing_tag: "----\n".to_owned(),
            },
        }
    }
}

/// The structured fields one note yields: its deck memberships, question
/// and answer.
#[derive(Clone, Debug, Default, PartialEq)]
pub struct ParsedCardFields {
    pub decks: Vec<String>,
    pub question: String,
    pub answer: String,
}

/// The text-extraction collaborator's contract: structured card fields, or
/// a per-note error, from one note's raw text. The library states nothing
/// of an implementation's choices; whatever comes back is wrapped into a
/// card as it stands.
pub trait Parse {
    fn parse(&self, input: &str) -> Result<ParsedCardFields, ParsingError>;
}

/// Whether a pattern is acceptable to the regular-expression engine: the
/// name stands for `regex::Regex::new` succeeding on it.
pub uninterp spec fn regex_ok(pattern: Seq<char>) -> bool;

/// What the regular-expression engine captures for a pattern on an input:
/// the first capture group of the first match, trimmed of surrounding
/// whitespace, or nothing when the pattern does not match. The result is a
/// function of the pattern and the input alone.
pub uninterp spec fn capture1_of(pattern: Seq<char>, input: Seq<char>) -> Option<Seq<char>>;

/// What splitting a string by a delimiter yields, in order. The result is
/// a function of the string and the delimiter alone.
pub uninterp spec fn split_of(s: Seq<char>, delimiter: Seq<char>) -> Seq<Seq<char>>;

/// Relies on regex's `Regex::new`: whether the pattern compiles.
#[verifier::external_body]
fn regex_compiles(pattern: &str) -> (r: bool)
    ensures
        r == regex_ok(pattern@),
{
    regex::Regex::new(pattern).is_ok()
}

/// Relies on regex's `Regex::new` and `Regex::captures`, and on
/// `str::trim`: the first capture group of the first match, trimmed. The
/// compiled expression is opaque, so compiling and capturing stand
/// together in one call on the pattern text; the pattern is known to
/// compile, so nothing here panics.
#[verifier::external_body]
fn regex_capture1(pattern: &str, input: &str) -> (r: Option<String>)
    requires
        regex_ok(pattern@),
    ensures
        r is Some <==> capture1_of(pattern@, input@) is Some,
        r matches Some(s) ==> (capture1_of(pattern@, input@) matches Some(v) && s@ == v),
{
    match regex::Regex::new(pattern) {
        Ok(expression) => expression.captures(input).and_then(|c| c.get(1)).map(
            |m| m.as_str().trim().to_string(),
        ),
        Err(_) => None,
    }
}

/// Relies on `str::split`: the substrings between occurrences of the
/// delimiter, in order, each owned.
#[verifier::external_body]
fn split_string(s: &str, delimiter: &str) -> (r: Vec<String>)
    ensures
        r.deep_view() == split_of(s@, delimiter@),
{
    s.split(delimiter).map(|part| part.to_string()).collect()
}

/// The regular expression a parsing pattern stands for: a tagged line
/// captures the rest of the line after the tag; a wrapped region captures
/// everything (newlines included) between its two tags.
pub open spec fn spec_pattern_expr(pattern: ParsingPattern) -> Seq<char> {
    match pattern {
        ParsingPattern::TaggedLine { tag } => tag@ + "(.*)"@,
        ParsingPattern::WrappedMultiLine { opening_tag, closing_tag } => opening_tag@
            + "((?s).*)"@ + closing_tag@,
    }
}

/// The deck tokens a captured tag line yields: the capture split by the
/// delimiter, with the empty pieces dropped.
pub open spec fn spec_deck_tokens(captured: Seq<char>, delimiter: Seq<char>) -> Seq<Seq<char>> {
    split_of(captured, delimiter).filter(|piece: Seq<char>| piece.len() != 0)
}

/// The text-extraction collaborator itself: one compiled expression per
/// field, kept as the pattern text the engine accepted.
#[derive(Debug)]
pub struct Parser {
    pub decks_expression: String,
    pub deck_delimiter: String,
    pub question_expression: String,
    pub answer_expression: String,
}

impl Parser {
    /// All three field expressions are acceptable to the engine.
    pub open spec fn wf(self) -> bool {
        &&& regex_ok(self.decks_expression@)
        &&& regex_ok(self.question_expression@)
        &&& regex_ok(self.answer_expression@)
    }

    /// Builds a parser from the user's configuration, compiling one
    /// expression per field; fails with the offending field's name when a
    /// pattern is not acceptable to the engine.
    pub fn from(user_config: &ParsingConfig) -> (r: Result<Self, ParsingError>)
        ensures
            r matches Ok(parser) ==> (parser.wf() && parser.decks_expression@
                == spec_pattern_expr(user_config.decks_pattern) && parser.deck_delimiter@
                == user_config.deck_delimiter@ && parser.question_expression@
                == spec_pattern_expr(user_config.question_pattern) && parser.answer_expression@
                == spec_pattern_expr(user_config.answer_pattern)),
            r is Err <==> !(regex_ok(spec_pattern_expr(user_config.decks_pattern)) && regex_ok(
                spec_pattern_expr(user_config.question_pattern),
            ) && regex_ok(spec_pattern_expr(user_config.answer_pattern))),
            !regex_ok(spec_pattern_expr(user_config.decks_pattern)) ==> (r matches Err(
                ParsingError::MalformedPattern { pattern_id },
            ) && pattern_id@ == "decks"@),
            regex_ok(spec_pattern_expr(user_config.decks_pattern)) && !regex_ok(
                spec_pattern_expr(user_config.question_pattern),
            ) ==> (r matches Err(ParsingError::MalformedPattern { pattern_id }) && pattern_id@
                == "question"@),
            regex_ok(spec_pattern_expr(user_config.decks_pattern)) && regex_ok(
                spec_pattern_expr(user_config.question_pattern),
            ) && !regex_ok(spec_pattern_expr(user_config.answer_pattern)) ==> (r matches Err(
                ParsingError::MalformedPattern { pattern_id },
            ) && pattern_id@ == "answer"@),
    {
        let decks_expression: String = Self::make_regex_expression(
            &user_config.decks_pattern,
            "decks",
        )?;
        let question_expression: String = Self::make_regex_expression(
            &user_config.question_pattern,
            "question",
        )?;
        let answer_expression: String = Self::make_regex_expression(
            &user_config.answer_pattern,
            "answer",
        )?;
        Ok(
            Self {
                deck_delimiter: user_config.deck_delimiter.clone(),
                decks_expression,
                question_expression,
                answer_expression,
            },
        )
    }

    /// The expression text for one pattern, accepted by the engine, or the
    /// field's name when the engine refuses it.
    pub fn make_regex_expression(pattern: &ParsingPattern, pattern_id: &str) -> (r: Result<
        String,
        ParsingError,
    >)
        ensures
            r matches Ok(e) ==> (e@ == spec_pattern_expr(*pattern) && regex_ok(e@)),
            r is Err <==> !regex_ok(spec_pattern_expr(*pattern)),
            r matches Err(e) ==> (e matches ParsingError::MalformedPattern { pattern_id: p }
                && p@ == pattern_id@),
    {
        let expr: String = match pattern {
            ParsingPattern::TaggedLine { tag } => tag.clone().concat("(.*)"),
            ParsingPattern::WrappedMultiLine { opening_tag, closing_tag } => opening_tag.clone()
                .concat("((?s).*)").concat(closing_tag.as_str()),
        };
        if regex_compiles(expr.as_str()) {
            Ok(expr)
        } else {
            Err(ParsingError::MalformedPattern { pattern_id: pattern_id.to_owned() })
        }
    }

    /// The trimmed first capture of one field expression on the input.
    fn parse_string(&self, expression: &String, input: &str) -> (r: Option<String>)
        requires
            regex_ok(expression@),
        ensures
            r is Some <==> capture1_of(expression@, input@) is Some,
            r matches Some(s) ==> (capture1_of(expression@, input@) matches Some(v) && s@ == v),
    {
        regex_capture1(expression.as_str(), input)
    }

    /// The deck tokens of the input: the captured tag line split by the
    /// delimiter, empty pieces dropped.
    fn parse_decks(&self, input: &str) -> (r: Option<Vec<String>>)
        requires
            regex_ok(self.decks_expression@),
        ensures
            r is Some <==> capture1_of(self.decks_expression@, input@) is Some,
            r matches Some(decks) ==> (capture1_of(self.decks_expression@, input@) matches Some(
                captured,
            ) && decks.deep_view() == spec_deck_tokens(captured, self.deck_delimiter@)),
    {
        let captured: String = match self.parse_string(&self.decks_expression, input) {
            Some(captured) => captured,
            None => {
                return None;
            },
        };
        let pieces: Vec<String> = split_string(captured.as_str(), self.deck_delimiter.as_str());
        let mut decks: Vec<String> = Vec::new();
        let mut i: usize = 0;
        while i < pieces.len()
            invariant
                i <= pieces@.len(),
                decks.deep_view() == pieces.deep_view().take(i as int).filter(
                    |piece: Seq<char>| piece.len() != 0,
                ),
            decreases pieces@.len() - i,
        {
            let ghost prefix = pieces.deep_view().take(i as int);
            proof {
                reveal(Seq::filter);
                assert(pieces.deep_view().take(i as int + 1).drop_last() =~= prefix);
                assert(pieces.deep_view().take(i as int + 1).last() == pieces.deep_view()[i as int]);
            }
            let ghost decks_before = decks.deep_view();
            let piece: &String = &pieces[i];
            if piece.as_str().unicode_len() != 0 {
                decks.push(piece.clone());
                proof {
                    assert(decks.deep_view() =~= decks_before.push(pieces.deep_view()[i as int]));
                }
            } else {
                proof {
                    assert(decks.deep_view() =~= decks_before);
                }
            }
            i += 1;
        }
        proof {
            assert(pieces.deep_view().take(pieces.deep_view().len() as int) =~= pieces.deep_view());
        }
        Some(decks)
    }

    /// Extracts the three card fields from one note's text: the deck
    /// tokens, the question and the answer, each by its own expression;
    /// fails with the first field whose expression does not match.
    pub fn parse_fields(&self, input: &str) -> (r: Result<ParsedCardFields, ParsingError>)
        requires
            self.wf(),
        ensures
            r is Ok <==> capture1_of(self.decks_expression@, input@) is Some && capture1_of(
                self.question_expression@,
                input@,
            ) is Some && capture1_of(self.answer_expression@, input@) is Some,
            r matches Ok(fields) ==> (capture1_of(self.decks_expression@, input@) matches Some(
                captured_decks,
            ) && fields.decks.deep_view() == spec_deck_tokens(
                captured_decks,
                self.deck_delimiter@,
            )),
            r matches Ok(fields) ==> (capture1_of(self.question_expression@, input@) matches Some(
                q,
            ) && fields.question@ == q),
            r matches Ok(fields) ==> (capture1_of(self.answer_expression@, input@) matches Some(
                a,
            ) && fields.answer@ == a),
            capture1_of(self.decks_expression@, input@) is None <==> (r matches Err(
                ParsingError::DeckParsingError { input: i },
            ) && i@ == input@),
            capture1_of(self.decks_expression@, input@) is Some && capture1_of(
                self.question_expression@,
                input@,
            ) is None <==> (r matches Err(ParsingError::QuestionParsingError { input: i }) && i@
                == input@),
            capture1_of(self.decks_expression@, input@) is Some && capture1_of(
                self.question_expression@,
                input@,
            ) is Some && capture1_of(self.answer_expression@, input@) is None <==> (r matches Err(
                ParsingError::AnswerParsingError { input: i },
            ) && i@ == input@),
    {
        let decks: Vec<String> = match self.parse_decks(input) {
            Some(decks) => decks,
            None => {
                return Err(ParsingError::DeckParsingError { input: input.to_owned() });
            },
        };
        let question: String = match self.parse_string(&self.question_expression, input) {
            Some(question) => question,
            None => {
                return Err(ParsingError::QuestionParsingError { input: input.to_owned() });
            },
        };
        let answer: String = match self.parse_string(&self.answer_expression, input) {
            Some(answer) => answer,
            None => {
                return Err(ParsingError::AnswerParsingError { input: input.to_owned() });
            },
        };
        Ok(ParsedCardFields { decks, question, answer })
    }
}

impl Parse for Parser {
    fn parse(&self, input: &str) -> Result<ParsedCardFields, ParsingError> {
        if regex_compiles(self.decks_expression.as_str()) && regex_compiles(
            self.question_expression.as_str(),
        ) && regex_compiles(self.answer_expression.as_str()) {
            self.parse_fields(input)
        } else {
            Err(ParsingError::DeckParsingError { input: input.to_owned() })
        }
    }
}

} // verus!
