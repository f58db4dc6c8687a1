use vstd::prelude::*;
use vstd::arithmetic::div_mod::lemma_fundamental_div_mod;
use vstd::arithmetic::div_mod::lemma_fundamental_div_mod_converse;
use crate::card::{Card, RANK_COUNT, SUIT_COUNT};

verus! {

/// Number of cards in a full deck.
pub const DECK_SIZE: usize = 52;

/// The card at position `i` of an unshuffled deck: suits in the order Heart,
/// Spade, Diamond, Club, and within each suit the ranks Ace to King.
pub open spec fn standard_card(i: int) -> Card {
    Card { c_number: (i % 13 + 1) as u32, c_type: (i / 13 + 1) as u32 }
}

/// The unshuffled deck.
pub open spec fn standard_deck() -> Seq<Card> {
    Seq::new(DECK_SIZE as nat, |i: int| standard_card(i))
}

/// The unshuffled deck holds each valid card exactly once and nothing else.
pub proof fn lemma_standard_deck_complete()
    ensures
        standard_deck().len() == DECK_SIZE,
        standard_deck().no_duplicates(),
        forall|c: Card| #![trigger standard_deck().contains(c)] standard_deck().contains(c) <==> c.valid(),
{
    let d = standard_deck();
    assert forall|i: int| 0 <= i < DECK_SIZE implies #[trigger] d[i].valid() && i == (d[i].c_type - 1) * 13 + (d[i].c_number - 1) by {
        lemma_fundamental_div_mod(i, 13);
    }
    assert forall|i: int, j: int| 0 <= i < d.len() && 0 <= j < d.len() && i != j implies d[i] != d[j] by {
        assert(i == (d[i].c_type - 1) * 13 + (d[i].c_number - 1));
        assert(j == (d[j].c_type - 1) * 13 + (d[j].c_number - 1));
    }
    assert forall|c: Card| #![trigger d.contains(c)] c.valid() implies d.contains(c) by {
        let i = (c.c_type - 1) * 13 + (c.c_number - 1);
        lemma_fundamental_div_mod_converse(i, 13, c.c_type - 1, c.c_number - 1);
        assert(d[i] == c);
    }
}

/// Builds the unshuffled deck: 52 distinct cards, suits Heart, Spade,
/// Diamond, Club in turn, each from Ace to King.
pub fn setup_deck_of_card() -> (deck: Vec<Card>)
    ensures
        deck@ == standard_deck(),
        deck@.len() == DECK_SIZE,
        deck@.no_duplicates(),
        forall|c: Card| #![trigger deck@.contains(c)] deck@.contains(c) <==> c.valid(),
{
    let mut deck: Vec<Card> = Vec::new();
    let mut c_type: u32 = 1;
    while c_type <= SUIT_COUNT
        invariant
            1 <= c_type <= SUIT_COUNT + 1,
            deck@.len() == (c_type - 1) * 13,
            forall|i: int| 0 <= i < deck@.len() ==> #[trigger] deck@[i] == standard_card(i),
        decreases SUIT_COUNT + 1 - c_type,
    {
        let mut c_number: u32 = 1;
        while c_number <= RANK_COUNT
            invariant
                1 <= c_type <= SUIT_COUNT,
                1 <= c_number <= RANK_COUNT + 1,
                deck@.len() == (c_type - 1) * 13 + (c_number - 1),
                forall|i: int| 0 <= i < deck@.len() ==> #[trigger] deck@[i] == standard_card(i),
            decreases RANK_COUNT + 1 - c_number,
        {
            proof {
                let i = (c_type - 1) * 13 + (c_number - 1);
                lemma_fundamental_div_mod_converse(i, 13, c_type - 1, c_number - 1);
            }
            deck.push(Card { c_number, c_type });
            c_number = c_number + 1;
        }
        c_type = c_type + 1;
    }
    proof {
        assert(deck@ =~= standard_deck());
        lemma_standard_deck_complete();
    }
    deck
}

} // verus!
