pub mod parser;
pub mod revision_settings;
pub mod score;

use crate::state::clock;
use crate::state::clock::valid_time;
use crate::state::deck::interval_coefficients::IntervalCoefficients;
use crate::state::tools::{Merge, UID, IO};
use parser::Parse;
use revision_settings::{is_transform_of, RevisionSettings, FACTOR_FLOOR};
use score::Score;
use vstd::prelude::*;

verus! {

/// Why a card could not be loaded from its note file.
#[derive(Clone, Debug, PartialEq)]
pub enum CardError {
    /// The notes directory path could not be turned into a glob pattern.
    GlobError { path: String },
    /// The note's text could not be read.
    ReadError { path: String },
    /// The note's text could not be parsed into card fields.
    ParseError { path: String, error: parser::ParsingError },
}

/// One flashcard: where it came from (its stable identity), which decks it
/// belongs to, its content, and its scheduling state.
#[derive(Debug, Default, PartialEq)]
pub struct Card {
    pub path: String,
    pub decks: Vec<String>,
    pub question: String,
    pub answer: String,
    pub revision_settings: RevisionSettings,
}

/// A card as specifications see it: every text field a sequence of
/// characters.
pub ghost struct CardView {
    pub path: Seq<char>,
    pub decks: Seq<Seq<char>>,
    pub question: Seq<char>,
    pub answer: Seq<char>,
    pub revision_settings: RevisionSettings,
}

impl CardView {
    /// The non-scheduling part of a card: what reviewing never changes.
    pub open spec fn content(self) -> (Seq<char>, Seq<Seq<char>>, Seq<char>, Seq<char>) {
        (self.path, self.decks, self.question, self.answer)
    }
}

impl View for Card {
    type V = CardView;

    open spec fn view(&self) -> CardView {
        CardView {
            path: self.path@,
            decks: self.decks.deep_view(),
            question: self.question@,
            answer: self.answer@,
            revision_settings: self.revision_settings,
        }
    }
}

impl Clone for Card {
    fn clone(&self) -> (r: Self)
        ensures
            r@ == self@,
    {
        let r = Card {
            path: self.path.clone(),
            decks: clone_strings(&self.decks),
            question: self.question.clone(),
            answer: self.answer.clone(),
            revision_settings: self.revision_settings,
        };
        proof {
            assert(r@.decks =~= self@.decks);
        }
        r
    }
}

/// An element-by-element copy of a list of strings.
fn clone_strings(v: &Vec<String>) -> (r: Vec<String>)
    ensures
        r.deep_view() == v.deep_view(),
{
    let mut r: Vec<String> = Vec::new();
    let mut i: usize = 0;
    while i < v.len()
        invariant
            i <= v.len(),
            r.len() == i,
            forall|j: int| 0 <= j < i ==> r.deep_view()[j] == v.deep_view()[j],
        decreases v.len() - i,
    {
        r.push(v[i].clone());
        i += 1;
    }
    proof {
        assert(r.deep_view() =~= v.deep_view());
    }
    r
}

impl Card {
    /// The scheduling state is inside the ranges the arithmetic accepts.
    pub open spec fn valid(self) -> bool {
        self.revision_settings.valid()
    }

    pub fn new(
        path: String,
        decks: Vec<String>,
        question: String,
        answer: String,
        revision_settings: RevisionSettings,
    ) -> (r: Self)
        ensures
            r == (Card { path, decks, question, answer, revision_settings }),
    {
        Self { path, decks, question, answer, revision_settings }
    }

    /// Wraps freshly extracted fields into a brand-new card at the given
    /// source path, with default scheduling state: due now, no interval,
    /// factor at the floor.
    pub fn from_fields(path: String, fields: parser::ParsedCardFields) -> (r: Self)
        ensures
            r.path == path,
            r.decks == fields.decks,
            r.question == fields.question,
            r.answer == fields.answer,
            r.revision_settings.interval == 0,
            r.revision_settings.memorisation_factor == FACTOR_FLOOR,
            r.valid(),
    {
        Self {
            path,
            decks: fields.decks,
            question: fields.question,
            answer: fields.answer,
            revision_settings: RevisionSettings::default(),
        }
    }

    /// Reads one note through the `IO` boundary and extracts a card from
    /// it. Success is the collaborators' to decide; whatever fields come
    /// back are wrapped as `from_fields` wraps them.
    pub fn from(file_handle: impl IO, parser: &impl Parse) -> (r: Result<Self, CardError>)
        ensures
            r matches Ok(c) ==> c.revision_settings.interval == 0
                && c.revision_settings.memorisation_factor == FACTOR_FLOOR && c.valid(),
    {
        let file_path: String = file_handle.path().to_owned();
        let file_content: String = match file_handle.read() {
            Ok(content) => content,
            Err(_) => {
                return Err(CardError::ReadError { path: file_path });
            },
        };
        let parsed_fields: parser::ParsedCardFields = match parser.parse(file_content.as_str()) {
            Ok(fields) => fields,
            Err(error) => {
                return Err(CardError::ParseError { path: file_path, error });
            },
        };
        Ok(Self::from_fields(file_path, parsed_fields))
    }

    /// Reviews this card with the given outcome at the present moment; only
    /// the scheduling state changes.
    pub fn transform(self, score: Score, interval_coefficients: &IntervalCoefficients) -> (r: Self)
        requires
            self.valid(),
            interval_coefficients.valid(),
        ensures
            r@.content() == self@.content(),
            r.valid(),
            exists|now: i64|
                valid_time(now) && #[trigger] is_transform_of(
                    r.revision_settings,
                    self.revision_settings,
                    score,
                    *interval_coefficients,
                    now as int,
                ),
    {
        let now: i64 = clock::now_seconds();
        self.transform_at(score, interval_coefficients, now)
    }

    /// Reviews this card with the given outcome as of the moment `now`;
    /// only the scheduling state changes, exactly as the interval engine
    /// says.
    pub fn transform_at(
        self,
        score: Score,
        interval_coefficients: &IntervalCoefficients,
        now: i64,
    ) -> (r: Self)
        requires
            self.valid(),
            interval_coefficients.valid(),
            valid_time(now),
        ensures
            r@.content() == self@.content(),
            r.valid(),
            is_transform_of(
                r.revision_settings,
                self.revision_settings,
                score,
                *interval_coefficients,
                now as int,
            ),
    {
        let revision_settings: RevisionSettings = self.revision_settings.transform_at(
            score,
            interval_coefficients,
            now,
        );
        self.with_revision_settings(revision_settings)
    }

    /// The same card with its scheduling state replaced wholesale.
    pub fn with_revision_settings(self, revision_settings: RevisionSettings) -> (r: Self)
        ensures
            r == (Card { revision_settings, ..self }),
    {
        Self { revision_settings, ..self }
    }

    /// Whether the card's review is due as of the present moment.
    pub fn is_due(&self) -> (r: bool)
        ensures
            exists|now: i64| valid_time(now) && r == #[trigger] self.spec_is_due_at(now as int),
    {
        let now: i64 = clock::now_seconds();
        let r: bool = self.is_due_at(now);
        proof {
            assert(valid_time(now) && r == self.spec_is_due_at(now as int));
        }
        r
    }

    /// A card is due once the moment `now` has reached its due date.
    pub open spec fn spec_is_due_at(self, now: int) -> bool {
        now >= self.revision_settings.due
    }

    /// Whether the card's review is due as of the moment `now`.
    pub fn is_due_at(&self, now: i64) -> (r: bool)
        ensures
            r == self.spec_is_due_at(now as int),
    {
        now >= self.revision_settings.due
    }

    /// A card belongs to a deck when its membership list carries the deck's
    /// name.
    pub open spec fn spec_in_deck(self, deck_id: Seq<char>) -> bool {
        self@.decks.contains(deck_id)
    }

    /// Whether the card carries the given deck's membership token.
    pub fn in_deck(&self, deck_id: &str) -> (r: bool)
        ensures
            r == self.spec_in_deck(deck_id@),
    {
        let target: String = deck_id.to_owned();
        let mut i: usize = 0;
        while i < self.decks.len()
            invariant
                target@ == deck_id@,
                i <= self.decks.len(),
                forall|j: int| 0 <= j < i ==> self@.decks[j] != deck_id@,
            decreases self.decks.len() - i,
        {
            if self.decks[i].eq(&target) {
                assert(self@.decks[i as int] == deck_id@);
                return true;
            }
            i += 1;
        }
        false
    }
}

impl UID for Card {
    open spec fn uid_spec(&self) -> Seq<char> {
        self.path@
    }

    fn uid(&self) -> (r: &str)
        ensures
            r@ == self.uid_spec(),
    {
        self.path.as_str()
    }
}

impl Merge<Card> for Card {
    /// Keeps this card's content and adopts the other card's scheduling
    /// state: reconciliation lets content change while the review history's
    /// effect survives.
    fn merge(self, other: &Card) -> (r: Self)
        ensures
            r@.content() == self@.content(),
            r.revision_settings == other.revision_settings,
    {
        let revision_settings: RevisionSettings = other.revision_settings;
        self.with_revision_settings(revision_settings)
    }
}

/// What loading a directory of notes produced: the cards that parsed, and
/// one message for each note that did not.
#[derive(Debug, Default)]
pub struct LoadedCards {
    pub succeeded: Vec<Card>,
    pub failed: Vec<String>,
}

/// The cards of the `Ok` entries, in order.
pub open spec fn spec_loaded_oks(results: Seq<Result<Card, String>>) -> Seq<Card>
    decreases results.len(),
{
    if results.len() == 0 {
        Seq::empty()
    } else {
        let rest = spec_loaded_oks(results.drop_last());
        match results.last() {
            Ok(card) => rest.push(card),
            Err(_) => rest,
        }
    }
}

/// The messages of the `Err` entries, in order.
pub open spec fn spec_loaded_errs(results: Seq<Result<Card, String>>) -> Seq<String>
    decreases results.len(),
{
    if results.len() == 0 {
        Seq::empty()
    } else {
        let rest = spec_loaded_errs(results.drop_last());
        match results.last() {
            Ok(_) => rest,
            Err(message) => rest.push(message),
        }
    }
}

/// Sorts per-note results into loaded cards and failure messages: a note
/// that fails never aborts the load of those that succeeded.
pub fn collect_loaded(results: Vec<Result<Card, String>>) -> (r: LoadedCards)
    ensures
        r.succeeded@ == spec_loaded_oks(results@),
        r.failed@ == spec_loaded_errs(results@),
{
    let ghost all: Seq<Result<Card, String>> = results@;
    let mut remaining: Vec<Result<Card, String>> = results;
    let mut succeeded: Vec<Card> = Vec::new();
    let mut failed: Vec<String> = Vec::new();
    proof {
        assert(all.take(all.len() as int) =~= all);
    }
    while remaining.len() > 0
        invariant
            remaining@.len() <= all.len(),
            remaining@ == all.take(remaining@.len() as int),
            spec_loaded_oks(all) == spec_loaded_oks(remaining@) + succeeded@,
            spec_loaded_errs(all) == spec_loaded_errs(remaining@) + failed@,
        decreases remaining.len(),
    {
        let ghost before = remaining@;
        let entry: Result<Card, String> = remaining.pop().unwrap();
        proof {
            assert(before.drop_last() =~= all.take(remaining@.len() as int));
        }
        match entry {
            Ok(card) => {
                let ghost old_succeeded = succeeded@;
                succeeded.insert(0, card);
                proof {
                    assert(spec_loaded_oks(before) == spec_loaded_oks(before.drop_last()).push(
                        card,
                    ));
                    assert(succeeded@ =~= seq![card] + old_succeeded);
                    assert(spec_loaded_oks(before.drop_last()).push(card) + old_succeeded
                        =~= spec_loaded_oks(before.drop_last()) + succeeded@);
                    assert(spec_loaded_errs(before) == spec_loaded_errs(before.drop_last()));
                }
            },
            Err(message) => {
                let ghost old_failed = failed@;
                failed.insert(0, message);
                proof {
                    assert(spec_loaded_errs(before) == spec_loaded_errs(before.drop_last()).push(
                        message,
                    ));
                    assert(failed@ =~= seq![message] + old_failed);
                    assert(spec_loaded_errs(before.drop_last()).push(message) + old_failed
                        =~= spec_loaded_errs(before.drop_last()) + failed@);
                    assert(spec_loaded_oks(before) == spec_loaded_oks(before.drop_last()));
                }
            },
        }
    }
    proof {
        assert(spec_loaded_oks(remaining@) + succeeded@ =~= succeeded@);
        assert(spec_loaded_errs(remaining@) + failed@ =~= failed@);
    }
    LoadedCards { succeeded, failed }
}

/// The glob pattern that finds every note beneath a directory: the
/// directory path with `/**/*.md` appended.
pub fn make_glob_pattern(notes_dir: &str) -> (r: Result<String, CardError>)
    ensures
        r matches Ok(p) && p@ == notes_dir@ + "/**/*.md"@,
{
    Ok(notes_dir.to_owned().concat("/**/*.md"))
}

} // verus!
