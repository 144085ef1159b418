pub mod card;
pub mod clock;
pub mod deck;
pub mod file;
pub mod hand;
pub mod tools;

use card::parser::ParsingConfig;
use card::{Card, CardView};
use clock::valid_time;
use deck::{Deck, DeckView};
use hand::{spec_deck_filter, spec_due_filter, Hand};
use tools::Merge;
use vstd::prelude::*;

verus! {

/// The name of the file a state snapshot is persisted in, inside the notes
/// directory.
pub const STATE_FILENAME: &'static str = ".vultan.ron";

/// Why a session could not be dealt from the current snapshot.
#[derive(Debug, PartialEq)]
pub enum StateError {
    MissingDeck { name: String },
    EmptyDeck { name: String },
    NoDueCards { name: String },
}

/// The authoritative snapshot: the note-parsing configuration, and the
/// card and deck populations, each keyed by its stable identity (a card by
/// its source path, a deck by its name), held as lists with unique keys.
#[derive(Debug)]
pub struct State {
    pub card_parsing_config: ParsingConfig,
    pub cards: Vec<Card>,
    pub decks: Vec<Deck>,
}

/// The card population as specifications see it.
pub open spec fn spec_card_views(cards: Seq<Card>) -> Seq<CardView> {
    cards.map_values(|c: Card| c@)
}

/// Some card of the population carries the given path.
pub open spec fn spec_has_card_uid(cards: Seq<Card>, uid: Seq<char>) -> bool {
    exists|i: int| 0 <= i < cards.len() && #[trigger] cards[i].path@ == uid
}

/// The view of the card carrying the given path.
pub open spec fn spec_card_at(cards: Seq<Card>, uid: Seq<char>) -> CardView
    recommends
        spec_has_card_uid(cards, uid),
{
    cards[choose|i: int| 0 <= i < cards.len() && #[trigger] cards[i].path@ == uid]@
}

/// No two cards of the population share a path.
pub open spec fn spec_cards_unique(cards: Seq<Card>) -> bool {
    forall|i: int, j: int|
        0 <= i < j < cards.len() ==> (#[trigger] cards[i]).path@ != (#[trigger] cards[j]).path@
}

/// Every card of the population is inside the arithmetic's ranges.
pub open spec fn spec_cards_valid(cards: Seq<Card>) -> bool {
    forall|i: int| 0 <= i < cards.len() ==> (#[trigger] cards[i]).valid()
}

/// Some deck of the population carries the given name.
pub open spec fn spec_has_deck_uid(decks: Seq<Deck>, uid: Seq<char>) -> bool {
    exists|i: int| 0 <= i < decks.len() && #[trigger] decks[i].name@ == uid
}

/// The view of the deck carrying the given name.
pub open spec fn spec_deck_at(decks: Seq<Deck>, uid: Seq<char>) -> DeckView
    recommends
        spec_has_deck_uid(decks, uid),
{
    decks[choose|i: int| 0 <= i < decks.len() && #[trigger] decks[i].name@ == uid]@
}

/// No two decks of the population share a name.
pub open spec fn spec_decks_unique(decks: Seq<Deck>) -> bool {
    forall|i: int, j: int|
        0 <= i < j < decks.len() ==> (#[trigger] decks[i]).name@ != (#[trigger] decks[j]).name@
}

/// Every deck's coefficients are inside the arithmetic's ranges.
pub open spec fn spec_decks_valid(decks: Seq<Deck>) -> bool {
    forall|i: int| 0 <= i < decks.len() ==> (#[trigger] decks[i]).interval_coefficients.valid()
}

/// The view a reconciled card takes: the incoming card's content with the
/// stored population's scheduling state wherever the path already exists.
pub open spec fn spec_merged_card_view(incoming: Card, stored: Seq<Card>) -> CardView {
    if spec_has_card_uid(stored, incoming.path@) {
        CardView {
            revision_settings: spec_card_at(stored, incoming.path@).revision_settings,
            ..incoming@
        }
    } else {
        incoming@
    }
}

/// The view a reconciled deck takes: the incoming deck's name and freshly
/// derived card paths with the stored population's coefficients wherever
/// the name already exists.
pub open spec fn spec_merged_deck_view(incoming: Deck, stored: Seq<Deck>) -> DeckView {
    if spec_has_deck_uid(stored, incoming.name@) {
        DeckView {
            interval_coefficients: spec_deck_at(stored, incoming.name@).interval_coefficients,
            ..incoming@
        }
    } else {
        incoming@
    }
}

/// The view `cv` appears among the first `bound` cards.
pub open spec fn spec_card_view_among(cards: Seq<Card>, bound: int, cv: CardView) -> bool {
    exists|j: int| 0 <= j < bound && (#[trigger] cards[j])@ == cv
}

/// The view `dv` appears among the first `bound` decks.
pub open spec fn spec_deck_view_among(decks: Seq<Deck>, bound: int, dv: DeckView) -> bool {
    exists|j: int| 0 <= j < bound && (#[trigger] decks[j])@ == dv
}

/// Whether the population holds a card at the given path.
fn has_card_uid(cards: &Vec<Card>, uid: &str) -> (r: bool)
    ensures
        r == spec_has_card_uid(cards@, uid@),
{
    let uid_owned: String = uid.to_owned();
    let mut i: usize = 0;
    while i < cards.len()
        invariant
            uid_owned@ == uid@,
            i <= cards@.len(),
            forall|j: int| 0 <= j < i ==> (#[trigger] cards@[j]).path@ != uid@,
        decreases cards@.len() - i,
    {
        if cards[i].path.eq(&uid_owned) {
            return true;
        }
        i += 1;
    }
    false
}

/// Where the population holds a card at the given path, if anywhere.
fn find_card_index(cards: &Vec<Card>, uid: &str) -> (r: Option<usize>)
    ensures
        r matches Some(k) ==> k < cards@.len() && cards@[k as int].path@ == uid@,
        r is None ==> !spec_has_card_uid(cards@, uid@),
{
    let uid_owned: String = uid.to_owned();
    let mut i: usize = 0;
    while i < cards.len()
        invariant
            uid_owned@ == uid@,
            i <= cards@.len(),
            forall|j: int| 0 <= j < i ==> (#[trigger] cards@[j]).path@ != uid@,
        decreases cards@.len() - i,
    {
        if cards[i].path.eq(&uid_owned) {
            return Some(i);
        }
        i += 1;
    }
    None
}

/// Whether the population holds a deck of the given name.
fn has_deck_uid(decks: &Vec<Deck>, uid: &str) -> (r: bool)
    ensures
        r == spec_has_deck_uid(decks@, uid@),
{
    let uid_owned: String = uid.to_owned();
    let mut i: usize = 0;
    while i < decks.len()
        invariant
            uid_owned@ == uid@,
            i <= decks@.len(),
            forall|j: int| 0 <= j < i ==> (#[trigger] decks@[j]).name@ != uid@,
        decreases decks@.len() - i,
    {
        if decks[i].name.eq(&uid_owned) {
            return true;
        }
        i += 1;
    }
    false
}

/// Where the population holds a deck of the given name, if anywhere.
fn find_deck_index(decks: &Vec<Deck>, uid: &str) -> (r: Option<usize>)
    ensures
        r matches Some(k) ==> k < decks@.len() && decks@[k as int].name@ == uid@,
        r is None ==> !spec_has_deck_uid(decks@, uid@),
{
    let uid_owned: String = uid.to_owned();
    let mut i: usize = 0;
    while i < decks.len()
        invariant
            uid_owned@ == uid@,
            i <= decks@.len(),
            forall|j: int| 0 <= j < i ==> (#[trigger] decks@[j]).name@ != uid@,
        decreases decks@.len() - i,
    {
        if decks[i].name.eq(&uid_owned) {
            return Some(i);
        }
        i += 1;
    }
    None
}

/// Replace-or-insert by path: the stored cards whose paths the incoming
/// list does not carry, followed by every incoming card. The result is
/// keyed like a map: an incoming card wins at its path, every other stored
/// card survives unchanged.
fn override_cards(existing: &Vec<Card>, incoming: Vec<Card>) -> (r: Vec<Card>)
    requires
        spec_cards_unique(existing@),
        spec_cards_unique(incoming@),
    ensures
        spec_cards_unique(r@),
        forall|uid: Seq<char>|
            #[trigger] spec_has_card_uid(r@, uid) <==> (spec_has_card_uid(existing@, uid)
                || spec_has_card_uid(incoming@, uid)),
        forall|uid: Seq<char>|
            spec_has_card_uid(incoming@, uid) ==> #[trigger] spec_card_at(r@, uid)
                == spec_card_at(incoming@, uid),
        forall|uid: Seq<char>|
            spec_has_card_uid(existing@, uid) && !spec_has_card_uid(incoming@, uid)
                ==> #[trigger] spec_card_at(r@, uid) == spec_card_at(existing@, uid),
        spec_cards_valid(existing@) && spec_cards_valid(incoming@) ==> spec_cards_valid(r@),
{
    let mut r: Vec<Card> = Vec::new();
    let mut i: usize = 0;
    while i < existing.len()
        invariant
            i <= existing@.len(),
            spec_cards_unique(existing@),
            spec_cards_unique(incoming@),
            forall|k: int|
                0 <= k < r@.len() ==> #[trigger] spec_card_view_among(
                    existing@,
                    i as int,
                    r@[k]@,
                ),
            forall|j: int|
                0 <= j < i ==> !spec_has_card_uid(incoming@, (#[trigger] existing@[j]).path@)
                    ==> spec_has_card_uid(r@, existing@[j].path@) && spec_card_at(
                    r@,
                    existing@[j].path@,
                ) == existing@[j]@,
            forall|k: int|
                0 <= k < r@.len() ==> !spec_has_card_uid(
                    incoming@,
                    (#[trigger] r@[k]).path@,
                ),
            spec_cards_unique(r@),
        decreases existing@.len() - i,
    {
        if !has_card_uid(&incoming, existing[i].path.as_str()) {
            let ghost r_before = r@;
            let kept: Card = existing[i].clone();
            r.push(kept);
            proof {
                assert(r@[r@.len() - 1]@ == existing@[i as int]@);
                assert(r@[r@.len() - 1].path@ == existing@[i as int].path@);
                assert forall|k: int|
                    0 <= k < r@.len() implies #[trigger] spec_card_view_among(
                    existing@,
                    i as int + 1,
                    r@[k]@,
                ) by {
                    if k < r@.len() - 1 {
                        assert(r@[k] == r_before[k]);
                        assert(spec_card_view_among(existing@, i as int, r_before[k]@));
                        let j = choose|j: int|
                            0 <= j < i && (#[trigger] existing@[j])@ == r_before[k]@;
                        assert((existing@[j])@ == (r@[k])@);
                    } else {
                        assert((existing@[i as int])@ == (r@[k])@);
                    }
                }
                assert forall|k: int|
                    0 <= k < r_before.len() implies (#[trigger] r_before[k]).path@
                    != existing@[i as int].path@ by {
                    assert(spec_card_view_among(existing@, i as int, r_before[k]@));
                    let j = choose|j: int|
                        0 <= j < i && (#[trigger] existing@[j])@ == r_before[k]@;
                    assert(existing@[j].path@ != existing@[i as int].path@);
                }
                assert forall|j: int|
                    0 <= j < i + 1 && !spec_has_card_uid(
                        incoming@,
                        (#[trigger] existing@[j]).path@,
                    ) implies spec_has_card_uid(r@, existing@[j].path@) && spec_card_at(
                    r@,
                    existing@[j].path@,
                ) == existing@[j]@ by {
                    if j < i {
                        assert(spec_has_card_uid(r_before, existing@[j].path@));
                        let k = choose|k: int|
                            0 <= k < r_before.len() && #[trigger] r_before[k].path@
                                == existing@[j].path@;
                        assert(r@[k].path@ == existing@[j].path@);
                        assert(spec_card_at(r@, existing@[j].path@) == r@[choose|m: int|
                            0 <= m < r@.len() && #[trigger] r@[m].path@ == existing@[j].path@]@);
                    } else {
                        assert(r@[r@.len() - 1].path@ == existing@[j].path@);
                    }
                }
            }
        } else {
            proof {
                assert forall|k: int|
                    0 <= k < r@.len() implies #[trigger] spec_card_view_among(
                    existing@,
                    i as int + 1,
                    r@[k]@,
                ) by {
                    assert(spec_card_view_among(existing@, i as int, r@[k]@));
                    let j = choose|j: int|
                        0 <= j < i && (#[trigger] existing@[j])@ == r@[k]@;
                }
            }
        }
        i += 1;
    }
    let ghost survivors = r@;
    let mut rest: Vec<Card> = incoming;
    let ghost all_incoming = rest@;
    proof {
        vstd::std_specs::vec::axiom_spec_len(&rest);
    }
    let mut n: usize = 0;
    while rest.len() > 0
        invariant
            n <= all_incoming.len() <= usize::MAX,
            n + rest@.len() == all_incoming.len(),
            rest@ == all_incoming.skip(n as int),
            spec_cards_unique(all_incoming),
            spec_cards_unique(existing@),
            r@ == survivors + all_incoming.take(n as int),
            forall|k: int|
                0 <= k < survivors.len() ==> !spec_has_card_uid(
                    all_incoming,
                    (#[trigger] survivors[k]).path@,
                ),
            spec_cards_unique(survivors),
            forall|k: int|
                0 <= k < survivors.len() ==> #[trigger] spec_card_view_among(
                    existing@,
                    existing@.len() as int,
                    survivors[k]@,
                ),
            forall|j: int|
                0 <= j < existing@.len() ==> !spec_has_card_uid(
                    all_incoming,
                    (#[trigger] existing@[j]).path@,
                ) ==> spec_has_card_uid(survivors, existing@[j].path@) && spec_card_at(
                    survivors,
                    existing@[j].path@,
                ) == existing@[j]@,
        decreases rest@.len(),
    {
        let next: Card = rest.remove(0);
        r.push(next);
        proof {
            assert(rest@ =~= all_incoming.skip(n as int + 1));
            assert(r@ =~= survivors + all_incoming.take(n as int + 1));
        }
        n += 1;
    }
    proof {
        assert(all_incoming.take(all_incoming.len() as int) =~= all_incoming);
        assert(r@ == survivors + all_incoming);
        lemma_override_cards_shape(r@, survivors, all_incoming, existing@);
        if spec_cards_valid(existing@) && spec_cards_valid(all_incoming) {
            assert forall|k: int| 0 <= k < r@.len() implies (#[trigger] r@[k]).valid() by {
                if spec_card_view_among(existing@, existing@.len() as int, r@[k]@) {
                    let j = choose|j: int|
                        0 <= j < existing@.len() && (#[trigger] existing@[j])@ == r@[k]@;
                    assert(existing@[j].valid());
                    assert(r@[k].revision_settings == existing@[j].revision_settings);
                } else {
                    let j = choose|j: int|
                        0 <= j < all_incoming.len() && r@[k] == all_incoming[j];
                    assert(all_incoming[j].valid());
                }
            }
        }
    }
    r
}

/// The ensures of `override_cards`, read off the concatenated shape of its
/// result: the surviving stored cards followed by the incoming cards.
proof fn lemma_override_cards_shape(
    r: Seq<Card>,
    survivors: Seq<Card>,
    incoming: Seq<Card>,
    existing: Seq<Card>,
)
    requires
        r == survivors + incoming,
        spec_cards_unique(existing),
        spec_cards_unique(incoming),
        spec_cards_unique(survivors),
        forall|k: int|
            0 <= k < survivors.len() ==> !spec_has_card_uid(
                incoming,
                (#[trigger] survivors[k]).path@,
            ),
        forall|k: int|
            0 <= k < survivors.len() ==> #[trigger] spec_card_view_among(
                existing,
                existing.len() as int,
                survivors[k]@,
            ),
        forall|j: int|
            0 <= j < existing.len() ==> !spec_has_card_uid(
                incoming,
                (#[trigger] existing[j]).path@,
            ) ==> spec_has_card_uid(survivors, existing[j].path@) && spec_card_at(
                survivors,
                existing[j].path@,
            ) == existing[j]@,
    ensures
        spec_cards_unique(r),
        forall|uid: Seq<char>|
            #[trigger] spec_has_card_uid(r, uid) <==> (spec_has_card_uid(existing, uid)
                || spec_has_card_uid(incoming, uid)),
        forall|uid: Seq<char>|
            spec_has_card_uid(incoming, uid) ==> #[trigger] spec_card_at(r, uid) == spec_card_at(
                incoming,
                uid,
            ),
        forall|uid: Seq<char>|
            spec_has_card_uid(existing, uid) && !spec_has_card_uid(incoming, uid)
                ==> #[trigger] spec_card_at(r, uid) == spec_card_at(existing, uid),
        forall|k: int|
            0 <= k < r.len() ==> #[trigger] spec_card_view_among(
                existing,
                existing.len() as int,
                r[k]@,
            ) || (exists|j: int| 0 <= j < incoming.len() && r[k] == incoming[j]),
{
    assert forall|uid: Seq<char>| #[trigger]
        spec_has_card_uid(r, uid) implies (spec_has_card_uid(existing, uid) || spec_has_card_uid(
        incoming,
        uid,
    )) by {
        let k = choose|k: int| 0 <= k < r.len() && #[trigger] r[k].path@ == uid;
        if k < survivors.len() {
            assert(survivors[k].path@ == uid);
            assert(spec_card_view_among(existing, existing.len() as int, survivors[k]@));
            let j = choose|j: int|
                0 <= j < existing.len() && (#[trigger] existing[j])@ == survivors[k]@;
            assert(existing[j].path@ == uid);
        } else {
            assert(incoming[k - survivors.len()].path@ == uid);
        }
    }
    assert forall|uid: Seq<char>|
        spec_has_card_uid(existing, uid) || spec_has_card_uid(
            incoming,
            uid,
        ) implies #[trigger] spec_has_card_uid(r, uid) by {
        if spec_has_card_uid(incoming, uid) {
            let j = choose|j: int|
                0 <= j < incoming.len() && #[trigger] incoming[j].path@ == uid;
            assert(r[survivors.len() + j].path@ == uid);
        } else {
            let j = choose|j: int|
                0 <= j < existing.len() && #[trigger] existing[j].path@ == uid;
            assert(spec_has_card_uid(survivors, uid));
            let k = choose|k: int|
                0 <= k < survivors.len() && #[trigger] survivors[k].path@ == uid;
            assert(r[k] == survivors[k]);
            assert(r[k].path@ == uid);
        }
    }
    assert forall|i: int, j: int|
        0 <= i < j < r.len() implies (#[trigger] r[i]).path@ != (#[trigger] r[j]).path@ by {
        if j < survivors.len() {
        } else if i >= survivors.len() {
            assert(incoming[i - survivors.len()].path@ != incoming[j - survivors.len()].path@);
        } else {
            assert(!spec_has_card_uid(incoming, survivors[i].path@));
            assert(incoming[j - survivors.len()].path@ != survivors[i].path@);
        }
    }
    assert forall|uid: Seq<char>|
        spec_has_card_uid(incoming, uid) implies #[trigger] spec_card_at(r, uid) == spec_card_at(
        incoming,
        uid,
    ) by {
        let j = choose|j: int| 0 <= j < incoming.len() && #[trigger] incoming[j].path@ == uid;
        assert(r[survivors.len() + j] == incoming[j]);
        assert(r[survivors.len() + j].path@ == uid);
        assert(spec_has_card_uid(r, uid));
        let k = choose|k: int| 0 <= k < r.len() && #[trigger] r[k].path@ == uid;
        if k < survivors.len() {
            assert(!spec_has_card_uid(incoming, survivors[k].path@));
            assert(false);
        }
        assert(incoming[k - survivors.len()].path@ == uid);
        assert(k == survivors.len() + j);
        let m = choose|m: int| 0 <= m < incoming.len() && #[trigger] incoming[m].path@ == uid;
        assert(m == j);
    }
    assert forall|k: int| 0 <= k < r.len() implies #[trigger] spec_card_view_among(
        existing,
        existing.len() as int,
        r[k]@,
    ) || (exists|j: int| 0 <= j < incoming.len() && r[k] == incoming[j]) by {
        if k < survivors.len() {
            assert(r[k] == survivors[k]);
            assert(spec_card_view_among(existing, existing.len() as int, survivors[k]@));
        } else {
            assert(r[k] == incoming[k - survivors.len()]);
        }
    }
    assert forall|uid: Seq<char>|
        spec_has_card_uid(existing, uid) && !spec_has_card_uid(
            incoming,
            uid,
        ) implies #[trigger] spec_card_at(r, uid) == spec_card_at(existing, uid) by {
        let j = choose|j: int| 0 <= j < existing.len() && #[trigger] existing[j].path@ == uid;
        assert(spec_has_card_uid(survivors, uid));
        let k = choose|k: int| 0 <= k < survivors.len() && #[trigger] survivors[k].path@ == uid;
        assert(spec_card_at(survivors, uid) == existing[j]@);
        let m = choose|m: int| 0 <= m < survivors.len() && #[trigger] survivors[m].path@ == uid;
        assert(m == k);
        assert(r[k] == survivors[k]);
        assert(r[k].path@ == uid);
        assert(spec_has_card_uid(r, uid));
        let k2 = choose|k2: int| 0 <= k2 < r.len() && #[trigger] r[k2].path@ == uid;
        if k2 >= survivors.len() {
            assert(incoming[k2 - survivors.len()].path@ == uid);
            assert(false);
        }
        assert(r[k2] == survivors[k2]);
        assert(k2 == k);
        let j2 = choose|j2: int|
            0 <= j2 < existing.len() && #[trigger] existing[j2].path@ == uid;
        assert(j2 == j);
    }
}

impl State {
    /// The snapshot's populations are keyed uniquely and inside the
    /// arithmetic's ranges.
    pub open spec fn wf(self) -> bool {
        &&& spec_cards_unique(self.cards@)
        &&& spec_cards_valid(self.cards@)
        &&& spec_decks_unique(self.decks@)
        &&& spec_decks_valid(self.decks@)
    }

    /// A snapshot from its parts; a later list entry wins over an earlier
    /// one carrying the same identity, as in a map built from pairs.
    pub fn new(card_parsing_config: ParsingConfig, cards: Vec<Card>, decks: Vec<Deck>) -> (r: Self)
        requires
            spec_cards_unique(cards@),
            spec_decks_unique(decks@),
        ensures
            r.card_parsing_config == card_parsing_config,
            r.cards == cards,
            r.decks == decks,
            spec_cards_valid(cards@) && spec_decks_valid(decks@) ==> r.wf(),
    {
        Self { card_parsing_config, cards, decks }
    }

    /// The revised cards unconditionally replace their stored versions;
    /// cards at new paths are added, every other stored card survives.
    pub fn with_overriden_cards(self, cards: Vec<Card>) -> (r: Self)
        requires
            spec_cards_unique(self.cards@),
            spec_cards_unique(cards@),
        ensures
            r.card_parsing_config == self.card_parsing_config,
            r.decks == self.decks,
            spec_cards_unique(r.cards@),
            forall|uid: Seq<char>|
                #[trigger] spec_has_card_uid(r.cards@, uid) <==> (spec_has_card_uid(
                    self.cards@,
                    uid,
                ) || spec_has_card_uid(cards@, uid)),
            forall|uid: Seq<char>|
                spec_has_card_uid(cards@, uid) ==> #[trigger] spec_card_at(r.cards@, uid)
                    == spec_card_at(cards@, uid),
            forall|uid: Seq<char>|
                spec_has_card_uid(self.cards@, uid) && !spec_has_card_uid(cards@, uid)
                    ==> #[trigger] spec_card_at(r.cards@, uid) == spec_card_at(self.cards@, uid),
            spec_cards_valid(self.cards@) && spec_cards_valid(cards@) ==> spec_cards_valid(
                r.cards@,
            ),
    {
        let merged_cards: Vec<Card> = override_cards(&self.cards, cards);
        Self { cards: merged_cards, ..self }
    }

    /// The incoming decks unconditionally replace their stored versions;
    /// decks with new names are added, every other stored deck survives.
    pub fn with_overriden_decks(self, decks: Vec<Deck>) -> (r: Self)
        requires
            spec_decks_unique(self.decks@),
            spec_decks_unique(decks@),
        ensures
            r.card_parsing_config == self.card_parsing_config,
            r.cards == self.cards,
            spec_decks_unique(r.decks@),
            forall|uid: Seq<char>|
                #[trigger] spec_has_deck_uid(r.decks@, uid) <==> (spec_has_deck_uid(
                    self.decks@,
                    uid,
                ) || spec_has_deck_uid(decks@, uid)),
            forall|uid: Seq<char>|
                spec_has_deck_uid(decks@, uid) ==> #[trigger] spec_deck_at(r.decks@, uid)
                    == spec_deck_at(decks@, uid),
            forall|uid: Seq<char>|
                spec_has_deck_uid(self.decks@, uid) && !spec_has_deck_uid(decks@, uid)
                    ==> #[trigger] spec_deck_at(r.decks@, uid) == spec_deck_at(self.decks@, uid),
            spec_decks_valid(self.decks@) && spec_decks_valid(decks@) ==> spec_decks_valid(
                r.decks@,
            ),
    {
        let merged_decks: Vec<Deck> = override_decks(&self.decks, decks);
        Self { decks: merged_decks, ..self }
    }

    /// The snapshot with another parsing configuration, populations
    /// untouched.
    pub fn with_card_parsing_config(self, card_parsing_config: ParsingConfig) -> (r: Self)
        ensures
            r.card_parsing_config == card_parsing_config,
            r.cards == self.cards,
            r.decks == self.decks,
    {
        Self { card_parsing_config, ..self }
    }

    /// Reconciles freshly extracted cards against the stored population:
    /// an incoming card whose path is already stored keeps its fresh
    /// content and adopts the stored scheduling state, one at a new path
    /// passes through unchanged, and the reconciled list then overrides
    /// the stored one.
    pub fn with_merged_cards(self, cards: Vec<Card>) -> (r: Self)
        requires
            spec_cards_unique(self.cards@),
            spec_cards_unique(cards@),
        ensures
            r.card_parsing_config == self.card_parsing_config,
            r.decks == self.decks,
            spec_cards_unique(r.cards@),
            forall|uid: Seq<char>|
                #[trigger] spec_has_card_uid(r.cards@, uid) <==> (spec_has_card_uid(
                    self.cards@,
                    uid,
                ) || spec_has_card_uid(cards@, uid)),
            forall|i: int|
                0 <= i < cards@.len() ==> #[trigger] spec_card_at(r.cards@, cards@[i].path@)
                    == spec_merged_card_view(cards@[i], self.cards@),
            forall|uid: Seq<char>|
                spec_has_card_uid(self.cards@, uid) && !spec_has_card_uid(cards@, uid)
                    ==> #[trigger] spec_card_at(r.cards@, uid) == spec_card_at(self.cards@, uid),
    {
        let mut reconciled: Vec<Card> = Vec::new();
        let mut rest: Vec<Card> = cards;
        let ghost incoming = rest@;
        proof {
            vstd::std_specs::vec::axiom_spec_len(&rest);
        }
        let mut n: usize = 0;
        while rest.len() > 0
            invariant
                n <= incoming.len() <= usize::MAX,
                n + rest@.len() == incoming.len(),
                rest@ == incoming.skip(n as int),
                spec_cards_unique(incoming),
                spec_cards_unique(self.cards@),
                reconciled@.len() == n,
                forall|j: int|
                    0 <= j < n ==> (#[trigger] reconciled@[j])@ == spec_merged_card_view(
                        incoming[j],
                        self.cards@,
                    ),
                forall|j: int|
                    0 <= j < n ==> (#[trigger] reconciled@[j]).path@ == incoming[j].path@,
            decreases rest@.len(),
        {
            let next: Card = rest.remove(0);
            proof {
                assert(rest@ =~= incoming.skip(n as int + 1));
                assert(next == incoming[n as int]);
            }
            match find_card_index(&self.cards, next.path.as_str()) {
                Some(k) => {
                    let merged: Card = next.merge(&self.cards[k]);
                    proof {
                        let c = choose|c: int|
                            0 <= c < self.cards@.len() && #[trigger] self.cards@[c].path@
                                == incoming[n as int].path@;
                        assert(c == k);
                    }
                    reconciled.push(merged);
                },
                None => {
                    reconciled.push(next);
                },
            }
            n += 1;
        }
        proof {
            lemma_reconciled_unique(reconciled@, incoming);
        }
        let merged_cards: Vec<Card> = override_cards(&self.cards, reconciled);
        let ghost reconciled_seq = reconciled@;
        let r = Self { cards: merged_cards, ..self };
        proof {
            assert forall|i: int| 0 <= i < incoming.len() implies #[trigger] spec_card_at(
                r.cards@,
                incoming[i].path@,
            ) == spec_merged_card_view(incoming[i], self.cards@) by {
                assert(reconciled_seq[i].path@ == incoming[i].path@);
                assert(spec_has_card_uid(reconciled_seq, incoming[i].path@));
                assert(spec_card_at(r.cards@, incoming[i].path@) == spec_card_at(
                    reconciled_seq,
                    incoming[i].path@,
                ));
                let k = choose|k: int|
                    0 <= k < reconciled_seq.len() && #[trigger] reconciled_seq[k].path@
                        == incoming[i].path@;
                assert(incoming[k].path@ == incoming[i].path@);
                assert(k == i);
            }
            assert forall|uid: Seq<char>| #[trigger]
                spec_has_card_uid(r.cards@, uid) implies (spec_has_card_uid(self.cards@, uid)
                || spec_has_card_uid(incoming, uid)) by {
                if spec_has_card_uid(reconciled_seq, uid) {
                    let k = choose|k: int|
                        0 <= k < reconciled_seq.len() && #[trigger] reconciled_seq[k].path@ == uid;
                    assert(incoming[k].path@ == uid);
                }
            }
            assert forall|uid: Seq<char>|
                spec_has_card_uid(incoming, uid) implies #[trigger] spec_has_card_uid(
                r.cards@,
                uid,
            ) by {
                let k = choose|k: int|
                    0 <= k < incoming.len() && #[trigger] incoming[k].path@ == uid;
                assert(reconciled_seq[k].path@ == uid);
            }
        }
        r
    }

    /// Reconciles freshly derived decks against the stored population: an
    /// incoming deck whose name is already stored keeps its fresh card
    /// paths and adopts the stored coefficients (user tuning survives),
    /// one with a new name passes through unchanged, and the reconciled
    /// list then overrides the stored one.
    pub fn with_merged_decks(self, decks: Vec<Deck>) -> (r: Self)
        requires
            spec_decks_unique(self.decks@),
            spec_decks_unique(decks@),
        ensures
            r.card_parsing_config == self.card_parsing_config,
            r.cards == self.cards,
            spec_decks_unique(r.decks@),
            forall|uid: Seq<char>|
                #[trigger] spec_has_deck_uid(r.decks@, uid) <==> (spec_has_deck_uid(
                    self.decks@,
                    uid,
                ) || spec_has_deck_uid(decks@, uid)),
            forall|i: int|
                0 <= i < decks@.len() ==> #[trigger] spec_deck_at(r.decks@, decks@[i].name@)
                    == spec_merged_deck_view(decks@[i], self.decks@),
            forall|uid: Seq<char>|
                spec_has_deck_uid(self.decks@, uid) && !spec_has_deck_uid(decks@, uid)
                    ==> #[trigger] spec_deck_at(r.decks@, uid) == spec_deck_at(self.decks@, uid),
    {
        let mut reconciled: Vec<Deck> = Vec::new();
        let mut rest: Vec<Deck> = decks;
        let ghost incoming = rest@;
        proof {
            vstd::std_specs::vec::axiom_spec_len(&rest);
        }
        let mut n: usize = 0;
        while rest.len() > 0
            invariant
                n <= incoming.len() <= usize::MAX,
                n + rest@.len() == incoming.len(),
                rest@ == incoming.skip(n as int),
                spec_decks_unique(incoming),
                spec_decks_unique(self.decks@),
                reconciled@.len() == n,
                forall|j: int|
                    0 <= j < n ==> (#[trigger] reconciled@[j])@ == spec_merged_deck_view(
                        incoming[j],
                        self.decks@,
                    ),
                forall|j: int|
                    0 <= j < n ==> (#[trigger] reconciled@[j]).name@ == incoming[j].name@,
            decreases rest@.len(),
        {
            let next: Deck = rest.remove(0);
            proof {
                assert(rest@ =~= incoming.skip(n as int + 1));
                assert(next == incoming[n as int]);
            }
            match find_deck_index(&self.decks, next.name.as_str()) {
                Some(k) => {
                    let merged: Deck = next.merge(&self.decks[k]);
                    proof {
                        let c = choose|c: int|
                            0 <= c < self.decks@.len() && #[trigger] self.decks@[c].name@
                                == incoming[n as int].name@;
                        assert(c == k);
                    }
                    reconciled.push(merged);
                },
                None => {
                    reconciled.push(next);
                },
            }
            n += 1;
        }
        proof {
            lemma_reconciled_decks_unique(reconciled@, incoming);
        }
        let merged_decks: Vec<Deck> = override_decks(&self.decks, reconciled);
        let ghost reconciled_seq = reconciled@;
        let r = Self { decks: merged_decks, ..self };
        proof {
            assert forall|i: int| 0 <= i < incoming.len() implies #[trigger] spec_deck_at(
                r.decks@,
                incoming[i].name@,
            ) == spec_merged_deck_view(incoming[i], self.decks@) by {
                assert(reconciled_seq[i].name@ == incoming[i].name@);
                assert(spec_has_deck_uid(reconciled_seq, incoming[i].name@));
                assert(spec_deck_at(r.decks@, incoming[i].name@) == spec_deck_at(
                    reconciled_seq,
                    incoming[i].name@,
                ));
                let k = choose|k: int|
                    0 <= k < reconciled_seq.len() && #[trigger] reconciled_seq[k].name@
                        == incoming[i].name@;
                assert(incoming[k].name@ == incoming[i].name@);
                assert(k == i);
            }
            assert forall|uid: Seq<char>| #[trigger]
                spec_has_deck_uid(r.decks@, uid) implies (spec_has_deck_uid(self.decks@, uid)
                || spec_has_deck_uid(incoming, uid)) by {
                if spec_has_deck_uid(reconciled_seq, uid) {
                    let k = choose|k: int|
                        0 <= k < reconciled_seq.len() && #[trigger] reconciled_seq[k].name@ == uid;
                    assert(incoming[k].name@ == uid);
                }
            }
            assert forall|uid: Seq<char>|
                spec_has_deck_uid(incoming, uid) implies #[trigger] spec_has_deck_uid(
                r.decks@,
                uid,
            ) by {
                let k = choose|k: int|
                    0 <= k < incoming.len() && #[trigger] incoming[k].name@ == uid;
                assert(reconciled_seq[k].name@ == uid);
            }
        }
        r
    }

    /// The stored deck of the given name, or `MissingDeck` when the
    /// snapshot holds none.
    pub fn get_deck(&self, deck_name: &str) -> (r: Result<&Deck, StateError>)
        ensures
            r matches Ok(d) ==> spec_has_deck_uid(self.decks@, deck_name@) && d.name@ == deck_name@
                && exists|k: int| 0 <= k < self.decks@.len() && *d == #[trigger] self.decks@[k],
            r is Err ==> !spec_has_deck_uid(self.decks@, deck_name@),
            !spec_has_deck_uid(self.decks@, deck_name@) <==> (r matches Err(
                StateError::MissingDeck { name },
            ) && name@ == deck_name@),
    {
        match find_deck_index(&self.decks, deck_name) {
            Some(k) => Ok(&self.decks[k]),
            None => Err(StateError::MissingDeck { name: deck_name.to_owned() }),
        }
    }

    /// Deals a revision session for the named deck from the stored card
    /// population, at the present moment and in an order the random number
    /// generator picks. Fails with `MissingDeck` exactly when no such deck
    /// is stored, with `EmptyDeck` exactly when the deck is stored but has
    /// no member cards, and otherwise either deals a hand of the members
    /// due at the session's moment or answers `NoDueCards` because none is
    /// due at that moment.
    pub fn deal(&self, deck_name: &str) -> (r: Result<Hand, StateError>)
        requires
            self.wf(),
        ensures
            !spec_has_deck_uid(self.decks@, deck_name@) <==> (r matches Err(
                StateError::MissingDeck { name },
            ) && name@ == deck_name@),
            spec_has_deck_uid(self.decks@, deck_name@) && spec_deck_filter(
                spec_card_views(self.cards@),
                deck_name@,
            ).len() == 0 <==> (r matches Err(StateError::EmptyDeck { name }) && name@
                == deck_name@),
            spec_has_deck_uid(self.decks@, deck_name@) && spec_deck_filter(
                spec_card_views(self.cards@),
                deck_name@,
            ).len() > 0 ==> exists|now: i64|
                valid_time(now) && ((r matches Ok(h) && h.queue_views().to_multiset() == (
                #[trigger] spec_due_filter(
                    spec_deck_filter(spec_card_views(self.cards@), deck_name@),
                    now as int,
                )).to_multiset()) || (r matches Err(StateError::NoDueCards { name }) && name@
                    == deck_name@ && spec_due_filter(
                    spec_deck_filter(spec_card_views(self.cards@), deck_name@),
                    now as int,
                ).len() == 0)),
            r matches Ok(h) ==> h.wf() && spec_has_deck_uid(self.decks@, deck_name@)
                && h.interval_coefficients == spec_deck_at(
                self.decks@,
                deck_name@,
            ).interval_coefficients,
    {
        let deck: &Deck = match self.get_deck(deck_name) {
            Ok(deck) => deck,
            Err(e) => {
                return Err(e);
            },
        };
        let mut refs: Vec<&Card> = Vec::new();
        let mut i: usize = 0;
        while i < self.cards.len()
            invariant
                i <= self.cards@.len(),
                refs@.len() == i,
                forall|j: int| 0 <= j < i ==> #[trigger] refs@[j] == &self.cards@[j],
            decreases self.cards@.len() - i,
        {
            refs.push(&self.cards[i]);
            i += 1;
        }
        proof {
            assert(hand::spec_views_of(refs@) =~= spec_card_views(self.cards@));
            assert(hand::spec_all_valid(refs@));
            let k = choose|k: int|
                0 <= k < self.decks@.len() && #[trigger] self.decks@[k].name@ == deck_name@;
            assert(deck.interval_coefficients == spec_deck_at(
                self.decks@,
                deck_name@,
            ).interval_coefficients);
        }
        let dealt: Result<Hand, hand::HandError> = Hand::from(deck, refs);
        proof {
            let ghost views = spec_card_views(self.cards@);
            if spec_deck_filter(views, deck_name@).len() > 0 {
                match &dealt {
                    Ok(h) => {
                        let now = choose|now: i64|
                            valid_time(now) && h.queue_views().to_multiset() == (
                            #[trigger] spec_due_filter(
                                spec_deck_filter(views, deck_name@),
                                now as int,
                            )).to_multiset() && h.queue_views().len() == spec_due_filter(
                                spec_deck_filter(views, deck_name@),
                                now as int,
                            ).len();
                        assert(valid_time(now) && h.queue_views().to_multiset()
                            == spec_due_filter(
                            spec_deck_filter(views, deck_name@),
                            now as int,
                        ).to_multiset());
                    },
                    Err(hand::HandError::EmptyDeck { name }) => {
                        assert(false);
                    },
                    Err(hand::HandError::NoDueCards { name }) => {
                        let now = choose|now: i64|
                            valid_time(now) && (#[trigger] spec_due_filter(
                                spec_deck_filter(views, deck_name@),
                                now as int,
                            )).len() == 0;
                        assert(valid_time(now) && spec_due_filter(
                            spec_deck_filter(views, deck_name@),
                            now as int,
                        ).len() == 0);
                    },
                }
            }
        }
        match dealt {
            Ok(hand) => Ok(hand),
            Err(hand::HandError::EmptyDeck { name }) => Err(StateError::EmptyDeck { name }),
            Err(hand::HandError::NoDueCards { name }) => Err(StateError::NoDueCards { name }),
        }
    }
}

/// Reconciliation keeps each incoming identity once.
proof fn lemma_reconciled_unique(reconciled: Seq<Card>, incoming: Seq<Card>)
    requires
        reconciled.len() == incoming.len(),
        spec_cards_unique(incoming),
        forall|j: int|
            0 <= j < reconciled.len() ==> (#[trigger] reconciled[j]).path@ == incoming[j].path@,
    ensures
        spec_cards_unique(reconciled),
{
}

/// Reconciliation keeps each incoming deck identity once.
proof fn lemma_reconciled_decks_unique(reconciled: Seq<Deck>, incoming: Seq<Deck>)
    requires
        reconciled.len() == incoming.len(),
        spec_decks_unique(incoming),
        forall|j: int|
            0 <= j < reconciled.len() ==> (#[trigger] reconciled[j]).name@ == incoming[j].name@,
    ensures
        spec_decks_unique(reconciled),
{
}

impl Default for State {
    /// An empty snapshot with the stock parsing configuration.
    fn default() -> (r: Self)
        ensures
            r.cards@.len() == 0,
            r.decks@.len() == 0,
            r.wf(),
    {
        Self { card_parsing_config: ParsingConfig::default(), cards: Vec::new(), decks: Vec::new() }
    }
}

/// Replace-or-insert by name, exactly as `override_cards` works by path.
fn override_decks(existing: &Vec<Deck>, incoming: Vec<Deck>) -> (r: Vec<Deck>)
    requires
        spec_decks_unique(existing@),
        spec_decks_unique(incoming@),
    ensures
        spec_decks_unique(r@),
        forall|uid: Seq<char>|
            #[trigger] spec_has_deck_uid(r@, uid) <==> (spec_has_deck_uid(existing@, uid)
                || spec_has_deck_uid(incoming@, uid)),
        forall|uid: Seq<char>|
            spec_has_deck_uid(incoming@, uid) ==> #[trigger] spec_deck_at(r@, uid)
                == spec_deck_at(incoming@, uid),
        forall|uid: Seq<char>|
            spec_has_deck_uid(existing@, uid) && !spec_has_deck_uid(incoming@, uid)
                ==> #[trigger] spec_deck_at(r@, uid) == spec_deck_at(existing@, uid),
        spec_decks_valid(existing@) && spec_decks_valid(incoming@) ==> spec_decks_valid(r@),
{
    let mut r: Vec<Deck> = Vec::new();
    let mut i: usize = 0;
    while i < existing.len()
        invariant
            i <= existing@.len(),
            spec_decks_unique(existing@),
            spec_decks_unique(incoming@),
            forall|k: int|
                0 <= k < r@.len() ==> #[trigger] spec_deck_view_among(
                    existing@,
                    i as int,
                    r@[k]@,
                ),
            forall|j: int|
                0 <= j < i ==> !spec_has_deck_uid(incoming@, (#[trigger] existing@[j]).name@)
                    ==> spec_has_deck_uid(r@, existing@[j].name@) && spec_deck_at(
                    r@,
                    existing@[j].name@,
                ) == existing@[j]@,
            forall|k: int|
                0 <= k < r@.len() ==> !spec_has_deck_uid(
                    incoming@,
                    (#[trigger] r@[k]).name@,
                ),
            spec_decks_unique(r@),
        decreases existing@.len() - i,
    {
        if !has_deck_uid(&incoming, existing[i].name.as_str()) {
            let ghost r_before = r@;
            let kept: Deck = existing[i].clone();
            r.push(kept);
            proof {
                assert(r@[r@.len() - 1]@ == existing@[i as int]@);
                assert(r@[r@.len() - 1].name@ == existing@[i as int].name@);
                assert forall|k: int|
                    0 <= k < r@.len() implies #[trigger] spec_deck_view_among(
                    existing@,
                    i as int + 1,
                    r@[k]@,
                ) by {
                    if k < r@.len() - 1 {
                        assert(r@[k] == r_before[k]);
                        assert(spec_deck_view_among(existing@, i as int, r_before[k]@));
                        let j = choose|j: int|
                            0 <= j < i && (#[trigger] existing@[j])@ == r_before[k]@;
                        assert((existing@[j])@ == (r@[k])@);
                    } else {
                        assert((existing@[i as int])@ == (r@[k])@);
                    }
                }
                assert forall|k: int|
                    0 <= k < r_before.len() implies (#[trigger] r_before[k]).name@
                    != existing@[i as int].name@ by {
                    assert(spec_deck_view_among(existing@, i as int, r_before[k]@));
                    let j = choose|j: int|
                        0 <= j < i && (#[trigger] existing@[j])@ == r_before[k]@;
                    assert(existing@[j].name@ != existing@[i as int].name@);
                }
                assert forall|j: int|
                    0 <= j < i + 1 && !spec_has_deck_uid(
                        incoming@,
                        (#[trigger] existing@[j]).name@,
                    ) implies spec_has_deck_uid(r@, existing@[j].name@) && spec_deck_at(
                    r@,
                    existing@[j].name@,
                ) == existing@[j]@ by {
                    if j < i {
                        assert(spec_has_deck_uid(r_before, existing@[j].name@));
                        let k = choose|k: int|
                            0 <= k < r_before.len() && #[trigger] r_before[k].name@
                                == existing@[j].name@;
                        assert(r@[k].name@ == existing@[j].name@);
                        assert(spec_deck_at(r@, existing@[j].name@) == r@[choose|m: int|
                            0 <= m < r@.len() && #[trigger] r@[m].name@ == existing@[j].name@]@);
                    } else {
                        assert(r@[r@.len() - 1].name@ == existing@[j].name@);
                    }
                }
            }
        } else {
            proof {
                assert forall|k: int|
                    0 <= k < r@.len() implies #[trigger] spec_deck_view_among(
                    existing@,
                    i as int + 1,
                    r@[k]@,
                ) by {
                    assert(spec_deck_view_among(existing@, i as int, r@[k]@));
                    let j = choose|j: int|
                        0 <= j < i && (#[trigger] existing@[j])@ == r@[k]@;
                }
            }
        }
        i += 1;
    }
    let ghost survivors = r@;
    let mut rest: Vec<Deck> = incoming;
    let ghost all_incoming = rest@;
    proof {
        vstd::std_specs::vec::axiom_spec_len(&rest);
    }
    let mut n: usize = 0;
    while rest.len() > 0
        invariant
            n <= all_incoming.len() <= usize::MAX,
            n + rest@.len() == all_incoming.len(),
            rest@ == all_incoming.skip(n as int),
            spec_decks_unique(all_incoming),
            spec_decks_unique(existing@),
            r@ == survivors + all_incoming.take(n as int),
            forall|k: int|
                0 <= k < survivors.len() ==> !spec_has_deck_uid(
                    all_incoming,
                    (#[trigger] survivors[k]).name@,
                ),
            spec_decks_unique(survivors),
            forall|k: int|
                0 <= k < survivors.len() ==> #[trigger] spec_deck_view_among(
                    existing@,
                    existing@.len() as int,
                    survivors[k]@,
                ),
            forall|j: int|
                0 <= j < existing@.len() ==> !spec_has_deck_uid(
                    all_incoming,
                    (#[trigger] existing@[j]).name@,
                ) ==> spec_has_deck_uid(survivors, existing@[j].name@) && spec_deck_at(
                    survivors,
                    existing@[j].name@,
                ) == existing@[j]@,
        decreases rest@.len(),
    {
        let next: Deck = rest.remove(0);
        r.push(next);
        proof {
            assert(rest@ =~= all_incoming.skip(n as int + 1));
            assert(r@ =~= survivors + all_incoming.take(n as int + 1));
        }
        n += 1;
    }
    proof {
        assert(all_incoming.take(all_incoming.len() as int) =~= all_incoming);
        assert(r@ == survivors + all_incoming);
        lemma_override_decks_shape(r@, survivors, all_incoming, existing@);
        if spec_decks_valid(existing@) && spec_decks_valid(all_incoming) {
            assert forall|k: int| 0 <= k < r@.len() implies (
            #[trigger] r@[k]).interval_coefficients.valid() by {
                if spec_deck_view_among(existing@, existing@.len() as int, r@[k]@) {
                    let j = choose|j: int|
                        0 <= j < existing@.len() && (#[trigger] existing@[j])@ == r@[k]@;
                    assert(existing@[j].interval_coefficients.valid());
                    assert(r@[k].interval_coefficients == existing@[j].interval_coefficients);
                } else {
                    let j = choose|j: int|
                        0 <= j < all_incoming.len() && r@[k] == all_incoming[j];
                    assert(all_incoming[j].interval_coefficients.valid());
                }
            }
        }
    }
    r
}

/// The ensures of `override_decks`, read off the concatenated shape of its
/// result.
proof fn lemma_override_decks_shape(
    r: Seq<Deck>,
    survivors: Seq<Deck>,
    incoming: Seq<Deck>,
    existing: Seq<Deck>,
)
    requires
        r == survivors + incoming,
        spec_decks_unique(existing),
        spec_decks_unique(incoming),
        spec_decks_unique(survivors),
        forall|k: int|
            0 <= k < survivors.len() ==> !spec_has_deck_uid(
                incoming,
                (#[trigger] survivors[k]).name@,
            ),
        forall|k: int|
            0 <= k < survivors.len() ==> #[trigger] spec_deck_view_among(
                existing,
                existing.len() as int,
                survivors[k]@,
            ),
        forall|j: int|
            0 <= j < existing.len() ==> !spec_has_deck_uid(
                incoming,
                (#[trigger] existing[j]).name@,
            ) ==> spec_has_deck_uid(survivors, existing[j].name@) && spec_deck_at(
                survivors,
                existing[j].name@,
            ) == existing[j]@,
    ensures
        spec_decks_unique(r),
        forall|uid: Seq<char>|
            #[trigger] spec_has_deck_uid(r, uid) <==> (spec_has_deck_uid(existing, uid)
                || spec_has_deck_uid(incoming, uid)),
        forall|uid: Seq<char>|
            spec_has_deck_uid(incoming, uid) ==> #[trigger] spec_deck_at(r, uid) == spec_deck_at(
                incoming,
                uid,
            ),
        forall|uid: Seq<char>|
            spec_has_deck_uid(existing, uid) && !spec_has_deck_uid(incoming, uid)
                ==> #[trigger] spec_deck_at(r, uid) == spec_deck_at(existing, uid),
        forall|k: int|
            0 <= k < r.len() ==> #[trigger] spec_deck_view_among(
                existing,
                existing.len() as int,
                r[k]@,
            ) || (exists|j: int| 0 <= j < incoming.len() && r[k] == incoming[j]),
{
    assert forall|uid: Seq<char>| #[trigger]
        spec_has_deck_uid(r, uid) implies (spec_has_deck_uid(existing, uid) || spec_has_deck_uid(
        incoming,
        uid,
    )) by {
        let k = choose|k: int| 0 <= k < r.len() && #[trigger] r[k].name@ == uid;
        if k < survivors.len() {
            assert(survivors[k].name@ == uid);
            assert(spec_deck_view_among(existing, existing.len() as int, survivors[k]@));
            let j = choose|j: int|
                0 <= j < existing.len() && (#[trigger] existing[j])@ == survivors[k]@;
            assert(existing[j].name@ == uid);
        } else {
            assert(incoming[k - survivors.len()].name@ == uid);
        }
    }
    assert forall|uid: Seq<char>|
        spec_has_deck_uid(existing, uid) || spec_has_deck_uid(
            incoming,
            uid,
        ) implies #[trigger] spec_has_deck_uid(r, uid) by {
        if spec_has_deck_uid(incoming, uid) {
            let j = choose|j: int|
                0 <= j < incoming.len() && #[trigger] incoming[j].name@ == uid;
            assert(r[survivors.len() + j].name@ == uid);
        } else {
            let j = choose|j: int|
                0 <= j < existing.len() && #[trigger] existing[j].name@ == uid;
            assert(spec_has_deck_uid(survivors, uid));
            let k = choose|k: int|
                0 <= k < survivors.len() && #[trigger] survivors[k].name@ == uid;
            assert(r[k] == survivors[k]);
            assert(r[k].name@ == uid);
        }
    }
    assert forall|i: int, j: int|
        0 <= i < j < r.len() implies (#[trigger] r[i]).name@ != (#[trigger] r[j]).name@ by {
        if j < survivors.len() {
        } else if i >= survivors.len() {
            assert(incoming[i - survivors.len()].name@ != incoming[j - survivors.len()].name@);
        } else {
            assert(!spec_has_deck_uid(incoming, survivors[i].name@));
            assert(incoming[j - survivors.len()].name@ != survivors[i].name@);
        }
    }
    assert forall|uid: Seq<char>|
        spec_has_deck_uid(incoming, uid) implies #[trigger] spec_deck_at(r, uid) == spec_deck_at(
        incoming,
        uid,
    ) by {
        let j = choose|j: int| 0 <= j < incoming.len() && #[trigger] incoming[j].name@ == uid;
        assert(r[survivors.len() + j] == incoming[j]);
        assert(r[survivors.len() + j].name@ == uid);
        assert(spec_has_deck_uid(r, uid));
        let k = choose|k: int| 0 <= k < r.len() && #[trigger] r[k].name@ == uid;
        if k < survivors.len() {
            assert(!spec_has_deck_uid(incoming, survivors[k].name@));
            assert(false);
        }
        assert(incoming[k - survivors.len()].name@ == uid);
        assert(k == survivors.len() + j);
        let m = choose|m: int| 0 <= m < incoming.len() && #[trigger] incoming[m].name@ == uid;
        assert(m == j);
    }
    assert forall|k: int| 0 <= k < r.len() implies #[trigger] spec_deck_view_among(
        existing,
        existing.len() as int,
        r[k]@,
    ) || (exists|j: int| 0 <= j < incoming.len() && r[k] == incoming[j]) by {
        if k < survivors.len() {
            assert(r[k] == survivors[k]);
            assert(spec_deck_view_among(existing, existing.len() as int, survivors[k]@));
        } else {
            assert(r[k] == incoming[k - survivors.len()]);
        }
    }
    assert forall|uid: Seq<char>|
        spec_has_deck_uid(existing, uid) && !spec_has_deck_uid(
            incoming,
            uid,
        ) implies #[trigger] spec_deck_at(r, uid) == spec_deck_at(existing, uid) by {
        let j = choose|j: int| 0 <= j < existing.len() && #[trigger] existing[j].name@ == uid;
        assert(spec_has_deck_uid(survivors, uid));
        let k = choose|k: int| 0 <= k < survivors.len() && #[trigger] survivors[k].name@ == uid;
        assert(spec_deck_at(survivors, uid) == existing[j]@);
        let m = choose|m: int| 0 <= m < survivors.len() && #[trigger] survivors[m].name@ == uid;
        assert(m == k);
        assert(r[k] == survivors[k]);
        assert(r[k].name@ == uid);
        assert(spec_has_deck_uid(r, uid));
        let k2 = choose|k2: int| 0 <= k2 < r.len() && #[trigger] r[k2].name@ == uid;
        if k2 >= survivors.len() {
            assert(incoming[k2 - survivors.len()].name@ == uid);
            assert(false);
        }
        assert(r[k2] == survivors[k2]);
        assert(k2 == k);
        let j2 = choose|j2: int|
            0 <= j2 < existing.len() && #[trigger] existing[j2].name@ == uid;
        assert(j2 == j);
    }
}

} // verus!

