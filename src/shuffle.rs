use vstd::prelude::*;
use rand::Rng;
use crate::card::Card;

verus! {

/// `s` with the entries at positions `i` and `j` exchanged.
pub open spec fn swap_at(s: Seq<Card>, i: int, j: int) -> Seq<Card> {
    s.update(i, s[j]).update(j, s[i])
}

/// Every draw is a position of a deck of `len` cards.
pub open spec fn draws_in_range(draws: Seq<usize>, len: nat) -> bool {
    forall|i: int| 0 <= i < draws.len() ==> #[trigger] draws[i] < len
}

/// The first `k` steps of the shuffle pass: step `i` exchanges position `i`
/// with position `draws[i]`.
pub open spec fn swap_pass(s: Seq<Card>, draws: Seq<usize>, k: nat) -> Seq<Card>
    decreases k,
{
    if k == 0 {
        s
    } else {
        let i = k - 1;
        swap_at(swap_pass(s, draws, i as nat), i, draws[i] as int)
    }
}

/// Exchanging two entries keeps the length and the cards, with their counts.
proof fn lemma_swap_permutes(s: Seq<Card>, i: int, j: int)
    requires
        0 <= i < s.len(),
        0 <= j < s.len(),
    ensures
        swap_at(s, i, j).len() == s.len(),
        swap_at(s, i, j).to_multiset() == s.to_multiset(),
{
    broadcast use vstd::multiset::group_multiset_axioms;
    broadcast use vstd::seq_lib::group_to_multiset_ensures;
    let t = s.update(i, s[j]);
    vstd::seq_lib::to_multiset_update(s, i, s[j]);
    vstd::seq_lib::to_multiset_update(t, j, s[i]);
    assert(t[j] == s[j]);
    assert(s.contains(s[i]));
    assert(s.to_multiset().count(s[i]) > 0);
    assert(swap_at(s, i, j).to_multiset() =~= s.to_multiset());
}

/// A shuffle pass only reorders: with every draw a position of the deck, the
/// result has the same length and the same cards, each as often as before.
pub proof fn lemma_swap_pass_permutes(s: Seq<Card>, draws: Seq<usize>, k: nat)
    requires
        k <= draws.len(),
        k <= s.len(),
        draws_in_range(draws, s.len()),
    ensures
        swap_pass(s, draws, k).len() == s.len(),
        swap_pass(s, draws, k).to_multiset() == s.to_multiset(),
    decreases k,
{
    if k > 0 {
        let i = (k - 1) as nat;
        lemma_swap_pass_permutes(s, draws, i);
        assert(draws[i as int] < s.len());
        lemma_swap_permutes(swap_pass(s, draws, i), i as int, draws[i as int] as int);
    }
}

/// Shuffles `deck` in place with the given draws: for each position `i` in
/// turn, the card there is exchanged with the card at position `draws[i]`.
pub fn shuffle_with_draws(deck: &mut Vec<Card>, draws: &Vec<usize>)
    requires
        draws@.len() == old(deck)@.len(),
        draws_in_range(draws@, old(deck)@.len()),
    ensures
        final(deck)@ == swap_pass(old(deck)@, draws@, draws@.len()),
        final(deck)@.len() == old(deck)@.len(),
        final(deck)@.to_multiset() == old(deck)@.to_multiset(),
{
    let ghost start = deck@;
    let mut idx: usize = 0;
    while idx < deck.len()
        invariant
            draws@.len() == start.len(),
            draws_in_range(draws@, start.len()),
            idx <= start.len(),
            deck@ == swap_pass(start, draws@, idx as nat),
            deck@.len() == start.len(),
        decreases start.len() - idx,
    {
        let j = draws[idx];
        assert(draws@[idx as int] < start.len());
        let a = deck[idx];
        let b = deck[j];
        deck.set(idx, b);
        deck.set(j, a);
        proof {
            lemma_swap_pass_permutes(start, draws@, idx as nat);
            assert(deck@ =~= swap_pass(start, draws@, (idx + 1) as nat));
        }
        idx = idx + 1;
    }
    proof {
        lemma_swap_pass_permutes(start, draws@, draws@.len());
    }
}

/// Relies on rand::thread_rng and Rng::gen_range: a number drawn from the
/// thread-local generator, in `0..bound`. gen_range panics on an empty range.
#[verifier::external_body]
fn random_below(bound: usize) -> (r: usize)
    requires
        bound > 0,
    ensures
        r < bound,
{
    rand::thread_rng().gen_range(0..bound)
}

/// Shuffles `deck` in place: for each position in turn, the card there is
/// exchanged with the card at a position drawn at random from the whole deck.
/// Whatever is drawn, the deck keeps its cards; only their order changes.
pub fn shuffle_the_card(deck: &mut Vec<Card>)
    ensures
        final(deck)@.len() == old(deck)@.len(),
        final(deck)@.to_multiset() == old(deck)@.to_multiset(),
        exists|draws: Seq<usize>|
            #![trigger swap_pass(old(deck)@, draws, draws.len())]
            draws.len() == old(deck)@.len() && draws_in_range(draws, old(deck)@.len())
                && final(deck)@ == swap_pass(old(deck)@, draws, draws.len()),
{
    let len = deck.len();
    let mut draws: Vec<usize> = Vec::new();
    while draws.len() < len
        invariant
            draws@.len() <= len,
            draws_in_range(draws@, len as nat),
        decreases len - draws@.len(),
    {
        let r = random_below(len);
        draws.push(r);
    }
    shuffle_with_draws(deck, &draws);
}

} // verus!
