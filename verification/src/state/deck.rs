pub mod fake;
pub mod interval_coefficients;

use crate::state::card::Card;
use crate::state::tools::{Merge, UID};
use interval_coefficients::IntervalCoefficients;
use vstd::prelude::*;

verus! {

/// A named grouping of cards: the membership token cards carry, the card
/// paths known to carry it (an informational cache, always derived fresh),
/// and the tuning coefficients the deck's reviews are scheduled with.
#[derive(Debug, Default, PartialEq)]
pub struct Deck {
    pub name: String,
    pub card_paths: Vec<String>,
    pub interval_coefficients: IntervalCoefficients,
}

/// A deck as specifications see it.
pub ghost struct DeckView {
    pub name: Seq<char>,
    pub card_paths: Seq<Seq<char>>,
    pub interval_coefficients: IntervalCoefficients,
}

impl View for Deck {
    type V = DeckView;

    open spec fn view(&self) -> DeckView {
        DeckView {
            name: self.name@,
            card_paths: self.card_paths.deep_view(),
            interval_coefficients: self.interval_coefficients,
        }
    }
}

impl Clone for Deck {
    fn clone(&self) -> (r: Self)
        ensures
            r@ == self@,
    {
        let r = Deck {
            name: self.name.clone(),
            card_paths: clone_paths(&self.card_paths),
            interval_coefficients: self.interval_coefficients,
        };
        proof {
            assert(r@.card_paths =~= self@.card_paths);
        }
        r
    }
}

/// An element-by-element copy of a list of paths.
fn clone_paths(v: &Vec<String>) -> (r: Vec<String>)
    ensures
        r.deep_view() == v.deep_view(),
{
    let mut r: Vec<String> = Vec::new();
    let mut i: usize = 0;
    while i < v.len()
        invariant
            i <= v.len(),
            r.len() == i,
            forall|j: int| 0 <= j < i ==> r.deep_view()[j] == v.deep_view()[j],
        decreases v.len() - i,
    {
        r.push(v[i].clone());
        i += 1;
    }
    proof {
        assert(r.deep_view() =~= v.deep_view());
    }
    r
}

impl Deck {
    pub fn new(name: &str, card_paths: Vec<&str>, interval_coefficients: IntervalCoefficients) -> (r:
        Self)
        ensures
            r.name@ == name@,
            r.card_paths.deep_view() == card_paths.deep_view(),
            r.interval_coefficients == interval_coefficients,
    {
        let mut owned_paths: Vec<String> = Vec::new();
        let mut i: usize = 0;
        while i < card_paths.len()
            invariant
                i <= card_paths.len(),
                owned_paths.len() == i,
                forall|j: int| 0 <= j < i ==> owned_paths.deep_view()[j] == card_paths.deep_view()[j],
            decreases card_paths.len() - i,
        {
            owned_paths.push(card_paths[i].to_owned());
            i += 1;
        }
        proof {
            assert(owned_paths.deep_view() =~= card_paths.deep_view());
        }
        Self { name: name.to_owned(), card_paths: owned_paths, interval_coefficients }
    }

    /// The same deck with its coefficients replaced wholesale.
    pub fn with_interval_coefficients(self, interval_coefficients: IntervalCoefficients) -> (r: Self)
        ensures
            r == (Deck { interval_coefficients, ..self }),
    {
        Self { interval_coefficients, ..self }
    }
}

impl UID for Deck {
    open spec fn uid_spec(&self) -> Seq<char> {
        self.name@
    }

    fn uid(&self) -> (r: &str)
        ensures
            r@ == self.uid_spec(),
    {
        self.name.as_str()
    }
}

impl Merge<Deck> for Deck {
    /// Keeps this deck's name and freshly derived card paths and adopts the
    /// other deck's coefficients: reconciliation preserves user tuning
    /// while the membership cache is always recomputed.
    fn merge(self, other: &Deck) -> (r: Self)
        ensures
            r.name == self.name,
            r.card_paths == self.card_paths,
            r.interval_coefficients == other.interval_coefficients,
    {
        let interval_coefficients: IntervalCoefficients = other.interval_coefficients;
        self.with_interval_coefficients(interval_coefficients)
    }
}

/// The paths, in card order, of the cards that carry the given membership
/// token.
pub open spec fn spec_paths_with_token(cards: Seq<Card>, token: Seq<char>) -> Seq<Seq<char>>
    decreases cards.len(),
{
    if cards.len() == 0 {
        Seq::empty()
    } else {
        let rest = spec_paths_with_token(cards.drop_last(), token);
        if cards.last().spec_in_deck(token) {
            rest.push(cards.last().path@)
        } else {
            rest
        }
    }
}

/// Some card in the pool carries the given membership token.
pub open spec fn spec_has_token(cards: Seq<Card>, token: Seq<char>) -> bool {
    exists|i: int| 0 <= i < cards.len() && #[trigger] cards[i].spec_in_deck(token)
}

/// Some already-derived deck carries the given name.
pub open spec fn spec_deck_named(decks: Seq<Deck>, token: Seq<char>) -> bool {
    exists|k: int| 0 <= k < decks.len() && #[trigger] decks[k].name@ == token
}

/// The paths of the cards carrying `token`, in card order.
fn paths_with_token(cards: &[Card], token: &str) -> (r: Vec<String>)
    ensures
        r.deep_view() == spec_paths_with_token(cards@, token@),
{
    let mut r: Vec<String> = Vec::new();
    let mut i: usize = 0;
    while i < cards.len()
        invariant
            i <= cards@.len(),
            r.deep_view() == spec_paths_with_token(cards@.take(i as int), token@),
        decreases cards@.len() - i,
    {
        let ghost prefix = cards@.take(i as int);
        proof {
            assert(cards@.take(i as int + 1).drop_last() =~= prefix);
            assert(cards@.take(i as int + 1).last() == cards@[i as int]);
        }
        let ghost old_r = r.deep_view();
        if cards[i].in_deck(token) {
            r.push(cards[i].path.clone());
            proof {
                assert(r.deep_view() =~= old_r.push(cards@[i as int].path@));
            }
        }
        i += 1;
    }
    proof {
        assert(cards@.take(cards@.len() as int) =~= cards@);
    }
    r
}

/// Whether a deck with the given name has already been derived.
fn contains_deck_named(decks: &Vec<Deck>, name: &String) -> (r: bool)
    ensures
        r == spec_deck_named(decks@, name@),
{
    let mut k: usize = 0;
    while k < decks.len()
        invariant
            k <= decks@.len(),
            forall|j: int| 0 <= j < k ==> #[trigger] decks@[j].name@ != name@,
        decreases decks@.len() - k,
    {
        if decks[k].name.eq(name) {
            return true;
        }
        k += 1;
    }
    false
}

/// Derives one deck per distinct membership token observed across the card
/// pool, in order of first appearance: each deck's card paths are exactly
/// the paths of the cards carrying its token, and its coefficients are the
/// defaults (tuning is merged back in separately).
pub fn many_from_cards(cards: &[Card]) -> (r: Vec<Deck>)
    ensures
        forall|k: int|
            0 <= k < r@.len() ==> (#[trigger] r@[k]).interval_coefficients
                == (IntervalCoefficients { pass_coef: 1000u64, easy_coef: 1300u64, fail_coef: 0u64 }),
        forall|k: int|
            0 <= k < r@.len() ==> (#[trigger] r@[k]).card_paths.deep_view()
                == spec_paths_with_token(cards@, r@[k].name@),
        forall|k: int| 0 <= k < r@.len() ==> spec_has_token(cards@, (#[trigger] r@[k]).name@),
        forall|k1: int, k2: int|
            0 <= k1 < k2 < r@.len() ==> (#[trigger] r@[k1]).name@ != (#[trigger] r@[k2]).name@,
        forall|token: Seq<char>|
            spec_has_token(cards@, token) ==> spec_deck_named(r@, token),
{
    let mut decks: Vec<Deck> = Vec::new();
    let mut i: usize = 0;
    while i < cards.len()
        invariant
            i <= cards@.len(),
            forall|k: int|
                0 <= k < decks@.len() ==> (#[trigger] decks@[k]).interval_coefficients
                    == (IntervalCoefficients {
                        pass_coef: 1000u64,
                        easy_coef: 1300u64,
                        fail_coef: 0u64,
                    }),
            forall|k: int|
                0 <= k < decks@.len() ==> (#[trigger] decks@[k]).card_paths.deep_view()
                    == spec_paths_with_token(cards@, decks@[k].name@),
            forall|k: int|
                0 <= k < decks@.len() ==> spec_has_token(cards@, (#[trigger] decks@[k]).name@),
            forall|k1: int, k2: int|
                0 <= k1 < k2 < decks@.len() ==> (#[trigger] decks@[k1]).name@ != (
                #[trigger] decks@[k2]).name@,
            forall|token: Seq<char>|
                spec_has_token(cards@.take(i as int), token) ==> spec_deck_named(decks@, token),
        decreases cards@.len() - i,
    {
        let mut j: usize = 0;
        while j < cards[i].decks.len()
            invariant
                0 <= i < cards@.len(),
                j <= cards@[i as int].decks@.len(),
                forall|k: int|
                    0 <= k < decks@.len() ==> (#[trigger] decks@[k]).interval_coefficients
                        == (IntervalCoefficients {
                            pass_coef: 1000u64,
                            easy_coef: 1300u64,
                            fail_coef: 0u64,
                        }),
                forall|k: int|
                    0 <= k < decks@.len() ==> (#[trigger] decks@[k]).card_paths.deep_view()
                        == spec_paths_with_token(cards@, decks@[k].name@),
                forall|k: int|
                    0 <= k < decks@.len() ==> spec_has_token(cards@, (#[trigger] decks@[k]).name@),
                forall|k1: int, k2: int|
                    0 <= k1 < k2 < decks@.len() ==> (#[trigger] decks@[k1]).name@ != (
                    #[trigger] decks@[k2]).name@,
                forall|token: Seq<char>|
                    spec_has_token(cards@.take(i as int), token) ==> spec_deck_named(decks@, token),
                forall|jj: int|
                    0 <= jj < j ==> spec_deck_named(
                        decks@,
                        #[trigger] cards@[i as int]@.decks[jj],
                    ),
            decreases cards@[i as int].decks@.len() - j,
        {
            let name: &String = &cards[i].decks[j];
            if !contains_deck_named(&decks, name) {
                let card_paths: Vec<String> = paths_with_token(cards, name.as_str());
                proof {
                    assert(cards@[i as int]@.decks[j as int] == name@);
                    assert(cards@[i as int].spec_in_deck(name@));
                }
                let ghost old_decks = decks@;
                decks.push(
                    Deck {
                        name: name.clone(),
                        card_paths,
                        interval_coefficients: IntervalCoefficients::default(),
                    },
                );
                proof {
                    assert forall|token: Seq<char>|
                        spec_deck_named(old_decks, token) implies spec_deck_named(
                        decks@,
                        token,
                    ) by {
                        let k = choose|k: int|
                            0 <= k < old_decks.len() && #[trigger] old_decks[k].name@ == token;
                        assert(decks@[k].name@ == token);
                    }
                    assert(decks@[decks@.len() - 1].name@ == name@);
                    assert(spec_deck_named(decks@, name@));
                    assert forall|token: Seq<char>|
                        spec_has_token(cards@.take(i as int), token) implies spec_deck_named(
                        decks@,
                        token,
                    ) by {
                        assert(spec_deck_named(old_decks, token));
                        let k = choose|k: int|
                            0 <= k < old_decks.len() && #[trigger] old_decks[k].name@ == token;
                        assert(decks@[k].name@ == token);
                    }
                }
            } else {
                proof {
                    assert(spec_deck_named(decks@, cards@[i as int]@.decks[j as int]));
                }
            }
            j += 1;
        }
        proof {
            assert forall|token: Seq<char>|
                spec_has_token(cards@.take(i as int + 1), token) implies spec_deck_named(
                decks@,
                token,
            ) by {
                let witness = choose|w: int|
                    0 <= w < cards@.take(i as int + 1).len() && #[trigger] cards@.take(i as int + 1)[w].spec_in_deck(
                        token,
                    );
                if witness < i {
                    assert(cards@.take(i as int)[witness].spec_in_deck(token));
                    assert(spec_has_token(cards@.take(i as int), token));
                } else {
                    assert(cards@[i as int].spec_in_deck(token));
                    let jj = choose|jj: int|
                        0 <= jj < cards@[i as int]@.decks.len() && cards@[i as int]@.decks[jj]
                            == token;
                    assert(spec_deck_named(decks@, cards@[i as int]@.decks[jj]));
                }
            }
        }
        i += 1;
    }
    proof {
        assert(cards@.take(cards@.len() as int) =~= cards@);
    }
    decks
}

} // verus!
