use crate::state::card::{Card, CardView};
use vstd::prelude::*;
use vstd::seq_lib::lemma_multiset_commutative;

verus! {

/// Relies on rand's `thread_rng` and `Rng::gen_range`: a random index drawn
/// from `0..bound`. The range is non-empty by the precondition, so the call
/// does not panic, and whatever is drawn lies below the bound.
#[verifier::external_body]
fn random_below(bound: usize) -> (r: usize)
    requires
        bound > 0,
    ensures
        r < bound,
{
    rand::Rng::gen_range(&mut rand::thread_rng(), 0..bound)
}

/// Two positions of a sequence exchanged.
pub open spec fn spec_swap<A>(s: Seq<A>, a: int, b: int) -> Seq<A>
    recommends
        0 <= a < s.len(),
        0 <= b < s.len(),
{
    s.update(a, s[b]).update(b, s[a])
}

/// The order a pick sequence shuffles a hand into: working down from the
/// last position, step `t` exchanges position `len - 1 - t` with the picked
/// position `picks[t]`.
pub open spec fn spec_shuffled<A>(s: Seq<A>, picks: Seq<usize>, t: int) -> Seq<A>
    decreases picks.len() - t,
{
    if t < 0 || t >= picks.len() {
        s
    } else {
        spec_shuffled(spec_swap(s, s.len() - 1 - t, picks[t] as int), picks, t + 1)
    }
}

/// A pick sequence that can shuffle `n` cards: one pick for every step but
/// the last card, each inside the part not yet fixed.
pub open spec fn picks_valid(picks: Seq<usize>, n: int) -> bool {
    &&& picks.len() == (if n == 0 {
        0int
    } else {
        n - 1
    })
    &&& forall|t: int| 0 <= t < picks.len() ==> (#[trigger] picks[t]) + t + 1 <= n
}

/// Exchanging two positions keeps the same cards.
proof fn lemma_swap_multiset<A>(s: Seq<A>, a: int, b: int)
    requires
        0 <= a < s.len(),
        0 <= b < s.len(),
    ensures
        spec_swap(s, a, b).to_multiset() == s.to_multiset(),
        spec_swap(s, a, b).len() == s.len(),
{
    broadcast use vstd::multiset::group_multiset_axioms;

    if a == b {
        assert(spec_swap(s, a, b) =~= s);
    } else {
        let lo = if a < b {
            a
        } else {
            b
        };
        let hi = if a < b {
            b
        } else {
            a
        };
        let p1 = s.subrange(0, lo);
        let e1 = seq![s[lo]];
        let p2 = s.subrange(lo + 1, hi);
        let e2 = seq![s[hi]];
        let p3 = s.subrange(hi + 1, s.len() as int);
        assert(s =~= p1 + (e1 + (p2 + (e2 + p3))));
        assert(spec_swap(s, a, b) =~= p1 + (e2 + (p2 + (e1 + p3))));
        lemma_multiset_commutative(p1, e1 + (p2 + (e2 + p3)));
        lemma_multiset_commutative(e1, p2 + (e2 + p3));
        lemma_multiset_commutative(p2, e2 + p3);
        lemma_multiset_commutative(e2, p3);
        lemma_multiset_commutative(p1, e2 + (p2 + (e1 + p3)));
        lemma_multiset_commutative(e2, p2 + (e1 + p3));
        lemma_multiset_commutative(p2, e1 + p3);
        lemma_multiset_commutative(e1, p3);
        assert(spec_swap(s, a, b).to_multiset() =~= s.to_multiset());
    }
}

/// A fully applied pick sequence keeps the same cards.
proof fn lemma_shuffled_multiset<A>(s: Seq<A>, picks: Seq<usize>, t: int)
    requires
        0 <= t <= picks.len(),
        picks.len() < s.len() || (s.len() == 0 && picks.len() == 0),
        forall|u: int| 0 <= u < picks.len() ==> (#[trigger] picks[u]) + u + 1 <= s.len(),
    ensures
        spec_shuffled(s, picks, t).to_multiset() == s.to_multiset(),
        spec_shuffled(s, picks, t).len() == s.len(),
    decreases picks.len() - t,
{
    if t < picks.len() {
        let swapped = spec_swap(s, s.len() - 1 - t, picks[t] as int);
        lemma_swap_multiset(s, s.len() - 1 - t, picks[t] as int);
        lemma_shuffled_multiset(swapped, picks, t + 1);
    }
}

/// Exchanges two positions of the hand.
fn swap_cards(v: &mut Vec<Card>, a: usize, b: usize)
    requires
        a < old(v)@.len(),
        b < old(v)@.len(),
    ensures
        final(v)@ == spec_swap(old(v)@, a as int, b as int),
        final(v)@.len() == old(v)@.len(),
{
    if a == b {
        proof {
            assert(spec_swap(v@, a as int, b as int) =~= v@);
        }
        return ;
    }
    let lo: usize = if a < b {
        a
    } else {
        b
    };
    let hi: usize = if a < b {
        b
    } else {
        a
    };
    let ghost s = v@;
    let hi_card: Card = v.remove(hi);
    let lo_card: Card = v.remove(lo);
    v.insert(lo, hi_card);
    v.insert(hi, lo_card);
    proof {
        assert(v@ =~= spec_swap(s, a as int, b as int));
    }
}

/// Shuffles the cards into the exact order the pick sequence dictates: the
/// deterministic core of the shuffle, so that a caller (a test suite above
/// all) can supply a fixed pick sequence and know the resulting order.
pub fn shuffle_cards_with_picks(cards: Vec<Card>, picks: &Vec<usize>) -> (r: Vec<Card>)
    requires
        picks_valid(picks@, cards@.len() as int),
    ensures
        r@ == spec_shuffled(cards@, picks@, 0),
        r@.to_multiset() == cards@.to_multiset(),
        r@.len() == cards@.len(),
        forall|i: int| 0 <= i < r@.len() ==> cards@.contains(#[trigger] r@[i]),
{
    let ghost orig = cards@;
    let mut output: Vec<Card> = cards;
    let mut t: usize = 0;
    while t < picks.len()
        invariant
            t <= picks@.len(),
            picks_valid(picks@, orig.len() as int),
            output@.len() == orig.len(),
            spec_shuffled(orig, picks@, 0) == spec_shuffled(output@, picks@, t as int),
        decreases picks@.len() - t,
    {
        let i: usize = output.len() - 1 - t;
        let k: usize = picks[t];
        let ghost before = output@;
        swap_cards(&mut output, i, k);
        proof {
            assert(spec_shuffled(before, picks@, t as int) == spec_shuffled(
                output@,
                picks@,
                t as int + 1,
            ));
        }
        t += 1;
    }
    proof {
        lemma_shuffled_multiset::<Card>(orig, picks@, 0);
        broadcast use vstd::seq_lib::group_to_multiset_ensures;

        assert forall|i: int| 0 <= i < output@.len() implies orig.contains(
            #[trigger] output@[i],
        ) by {
            assert(output@.contains(output@[i]));
            assert(output@.to_multiset().count(output@[i]) > 0);
            assert(orig.to_multiset().count(output@[i]) > 0);
        }
    }
    output
}

/// Mapping each card to its view commutes with shuffling: the shuffled
/// views are the views of the shuffled cards.
pub proof fn lemma_shuffled_map<A, B>(s: Seq<A>, f: spec_fn(A) -> B, picks: Seq<usize>, t: int)
    requires
        0 <= t <= picks.len(),
        picks.len() < s.len() || (s.len() == 0 && picks.len() == 0),
        forall|u: int| 0 <= u < picks.len() ==> (#[trigger] picks[u]) + u + 1 <= s.len(),
    ensures
        spec_shuffled(s, picks, t).map_values(f) == spec_shuffled(s.map_values(f), picks, t),
    decreases picks.len() - t,
{
    if 0 <= t < picks.len() {
        let a = s.len() - 1 - t;
        let b = picks[t] as int;
        assert(spec_swap(s, a, b).map_values(f) =~= spec_swap(s.map_values(f), a, b));
        assert(spec_swap(s, a, b).len() == s.len());
        lemma_shuffled_map(spec_swap(s, a, b), f, picks, t + 1);
        assert(spec_shuffled(s, picks, t).map_values(f) == spec_shuffled(
            s.map_values(f),
            picks,
            t,
        ));
    } else {
        assert(spec_shuffled(s, picks, t).map_values(f) =~= spec_shuffled(
            s.map_values(f),
            picks,
            t,
        ));
    }
}

/// Shuffles the cards into a random order: the picks are drawn from the
/// random number generator and applied exactly as
/// `shuffle_cards_with_picks` applies them. Which order comes out is the
/// generator's affair; the cards themselves are kept, nothing added and
/// nothing lost.
pub fn shuffle_cards(cards: Vec<Card>) -> (r: Vec<Card>)
    ensures
        r@.to_multiset() == cards@.to_multiset(),
        r@.map_values(|c: Card| c@).to_multiset() == cards@.map_values(|c: Card| c@).to_multiset(),
        r@.len() == cards@.len(),
        forall|i: int| 0 <= i < r@.len() ==> cards@.contains(#[trigger] r@[i]),
{
    let ghost orig = cards@;
    let n: usize = cards.len();
    let mut picks: Vec<usize> = Vec::new();
    while picks.len() + 1 < n
        invariant
            n == cards@.len(),
            n > 0 ==> picks@.len() < n,
            n == 0 ==> picks@.len() == 0,
            forall|t: int| 0 <= t < picks@.len() ==> (#[trigger] picks@[t]) + t + 1 <= n,
        decreases n - picks@.len(),
    {
        let drawn: usize = random_below(n - picks.len());
        picks.push(drawn);
    }
    let r: Vec<Card> = shuffle_cards_with_picks(cards, &picks);
    proof {
        lemma_shuffled_map(orig, |c: Card| c@, picks@, 0);
        lemma_shuffled_multiset::<CardView>(orig.map_values(|c: Card| c@), picks@, 0);
    }
    r
}

} // verus!
