use vstd::prelude::*;
use vstd::arithmetic::div_mod::lemma_fundamental_div_mod_converse;
use vstd::multiset::Multiset;
use crate::card::Card;
use crate::player::Player;

verus! {

/// Why a deal did not take place.
#[derive(Clone, Copy, Debug, PartialEq, Eq, Structural)]
pub enum DealError {
    /// There was nobody to deal to.
    NoPlayers,
}

impl DealError {
    /// The diagnostic reported when a deal does not take place.
    pub fn message(&self) -> (text: &'static str)
        ensures
            text@ == "There are no players to distribute !!"@,
    {
        match self {
            DealError::NoPlayers => "There are no players to distribute !!",
        }
    }
}

/// How many of the first `m` deck positions fall to player `p` when dealing
/// round-robin to `n` players: the positions `p, p + n, p + 2n, ...` below `m`.
pub open spec fn dealt_count(m: nat, n: nat, p: nat) -> nat {
    if p < m {
        ((m - 1 - p) / (n as int) + 1) as nat
    } else {
        0
    }
}

/// The cards that player `p` of `n` receives from the first `m` deck positions,
/// in deck order: positions `p, p + n, p + 2n, ...`.
pub open spec fn dealt_prefix(deck: Seq<Card>, n: nat, p: nat, m: nat) -> Seq<Card> {
    Seq::new(dealt_count(m, n, p), |k: int| deck[p + k * n])
}

/// The cards that player `p` of `n` receives from the whole deck.
pub open spec fn dealt_hand(deck: Seq<Card>, n: nat, p: nat) -> Seq<Card> {
    dealt_prefix(deck, n, p, deck.len())
}

/// Dealing position `m` extends exactly the hand of player `m mod n`.
proof fn lemma_deal_step(deck: Seq<Card>, n: nat, p: nat, m: nat)
    requires
        0 < n,
        p < n,
        m < deck.len(),
    ensures
        dealt_prefix(deck, n, p, m + 1) == if (m as int) % (n as int) == p {
            dealt_prefix(deck, n, p, m).push(deck[m as int])
        } else {
            dealt_prefix(deck, n, p, m)
        },
{
    let ni = n as int;
    if p > m {
        assert((m as int) % ni == m) by {
            lemma_fundamental_div_mod_converse(m as int, ni, 0, m as int);
        }
        assert(dealt_prefix(deck, n, p, m + 1) =~= dealt_prefix(deck, n, p, m));
    } else if p == m {
        assert((m as int) % ni == m) by {
            lemma_fundamental_div_mod_converse(m as int, ni, 0, m as int);
        }
        assert(dealt_count(m + 1, n, p) == 1) by {
            lemma_fundamental_div_mod_converse(0, ni, 0, 0);
        }
        assert(dealt_prefix(deck, n, p, m + 1) =~= dealt_prefix(deck, n, p, m).push(deck[m as int]));
    } else {
        let x = m - p;
        let q = (x - 1) / ni;
        let r = (x - 1) % ni;
        assert(x - 1 == q * ni + r && 0 <= r < ni) by {
            vstd::arithmetic::div_mod::lemma_fundamental_div_mod(x - 1, ni);
        }
        assert(dealt_count(m, n, p) == q + 1);
        if r == ni - 1 {
            assert(x == (q + 1) * ni) by (nonlinear_arith)
                requires x - 1 == q * ni + r, r == ni - 1;
            assert(x / ni == q + 1 && x % ni == 0) by {
                lemma_fundamental_div_mod_converse(x, ni, q + 1, 0);
            }
            assert((m as int) % ni == p) by {
                assert(m == (q + 1) * ni + p);
                lemma_fundamental_div_mod_converse(m as int, ni, q + 1, p as int);
            }
            assert(dealt_count(m + 1, n, p) == q + 2);
            assert(p + (q + 1) * ni == m);
            assert(dealt_prefix(deck, n, p, m + 1) =~= dealt_prefix(deck, n, p, m).push(deck[m as int]));
        } else {
            assert(x == q * ni + (r + 1));
            assert(x / ni == q) by {
                lemma_fundamental_div_mod_converse(x, ni, q, r + 1);
            }
            assert((m as int) % ni != p) by {
                if p + r + 1 < ni {
                    assert(m == q * ni + (p + r + 1));
                    lemma_fundamental_div_mod_converse(m as int, ni, q, p + r + 1);
                } else {
                    assert(m == (q + 1) * ni + (p + r + 1 - ni)) by (nonlinear_arith)
                        requires m == p + x, x == q * ni + (r + 1);
                    lemma_fundamental_div_mod_converse(m as int, ni, q + 1, p + r + 1 - ni);
                }
            }
            assert(dealt_count(m + 1, n, p) == q + 1);
            assert(dealt_prefix(deck, n, p, m + 1) =~= dealt_prefix(deck, n, p, m));
        }
    }
}

/// The cards of the hands of players `0..m` of `n`, dealt from the first
/// `len` deck positions, taken together.
pub open spec fn hands_union(deck: Seq<Card>, n: nat, m: nat, len: nat) -> Multiset<Card>
    decreases m,
{
    if m == 0 {
        Multiset::empty()
    } else {
        hands_union(deck, n, (m - 1) as nat, len).add(dealt_prefix(deck, n, (m - 1) as nat, len).to_multiset())
    }
}

/// Dealing position `i` adds its card to the union of hands `0..m` exactly
/// when its player is among them.
proof fn lemma_union_step(deck: Seq<Card>, n: nat, m: nat, i: nat)
    requires
        0 < n,
        m <= n,
        i < deck.len(),
    ensures
        hands_union(deck, n, m, i + 1) == if (i as int) % (n as int) < m {
            hands_union(deck, n, m, i).insert(deck[i as int])
        } else {
            hands_union(deck, n, m, i)
        },
    decreases m,
{
    broadcast use vstd::multiset::group_multiset_axioms;
    broadcast use vstd::seq_lib::group_to_multiset_ensures;
    if m > 0 {
        let q = (m - 1) as nat;
        lemma_union_step(deck, n, q, i);
        lemma_deal_step(deck, n, q, i);
        if (i as int) % (n as int) == q {
            assert(hands_union(deck, n, m, i + 1) =~= hands_union(deck, n, m, i).insert(deck[i as int]));
        } else {
            assert(hands_union(deck, n, m, i + 1) =~= if (i as int) % (n as int) < m {
                hands_union(deck, n, m, i).insert(deck[i as int])
            } else {
                hands_union(deck, n, m, i)
            });
        }
    }
}

/// Dealing to `n` players hands out every card of the deck exactly once: the
/// hands, taken together, hold the same cards as the deck, counted with
/// multiplicity.
pub proof fn lemma_deal_partitions_deck(deck: Seq<Card>, n: nat)
    requires
        0 < n,
    ensures
        hands_union(deck, n, n, deck.len()) == deck.to_multiset(),
{
    broadcast use vstd::multiset::group_multiset_axioms;
    broadcast use vstd::seq_lib::group_to_multiset_ensures;
    lemma_union_prefix(deck, n, deck.len());
    assert(deck.subrange(0, deck.len() as int) =~= deck);
}

/// The hands dealt from the first `i` positions hold exactly those cards.
proof fn lemma_union_prefix(deck: Seq<Card>, n: nat, i: nat)
    requires
        0 < n,
        i <= deck.len(),
    ensures
        hands_union(deck, n, n, i) == deck.subrange(0, i as int).to_multiset(),
    decreases i,
{
    broadcast use vstd::multiset::group_multiset_axioms;
    broadcast use vstd::seq_lib::group_to_multiset_ensures;
    if i == 0 {
        lemma_union_empty(deck, n, n);
        assert(deck.subrange(0, 0) =~= Seq::<Card>::empty());
    } else {
        let j = (i - 1) as nat;
        lemma_union_prefix(deck, n, j);
        lemma_union_step(deck, n, n, j);
        assert(deck.subrange(0, i as int) =~= deck.subrange(0, j as int).push(deck[j as int]));
    }
}

/// Before any position is dealt, every hand is empty.
proof fn lemma_union_empty(deck: Seq<Card>, n: nat, m: nat)
    ensures
        hands_union(deck, n, m, 0) == Multiset::<Card>::empty(),
    decreases m,
{
    broadcast use vstd::multiset::group_multiset_axioms;
    broadcast use vstd::seq_lib::group_to_multiset_ensures;
    if m > 0 {
        lemma_union_empty(deck, n, (m - 1) as nat);
        assert(dealt_prefix(deck, n, (m - 1) as nat, 0) =~= Seq::<Card>::empty());
        assert(hands_union(deck, n, m, 0) =~= Multiset::<Card>::empty());
    }
}

/// Dealing `len` cards to `n` players gives each player `len / n` cards, and
/// one more to each of the first `len mod n` players.
pub proof fn lemma_hand_sizes(deck: Seq<Card>, n: nat, p: nat)
    requires
        p < n,
    ensures
        dealt_hand(deck, n, p).len() == deck.len() / n + if p < deck.len() % n { 1nat } else { 0nat },
{
    let len = deck.len() as int;
    let ni = n as int;
    let q = len / ni;
    let r = len % ni;
    assert(len == q * ni + r && 0 <= r < ni) by {
        vstd::arithmetic::div_mod::lemma_fundamental_div_mod(len, ni);
    }
    if p < r {
        assert(len - 1 - p == q * ni + (r - 1 - p));
        lemma_fundamental_div_mod_converse(len - 1 - p, ni, q, r - 1 - p);
    } else if p < len {
        assert(q >= 1) by (nonlinear_arith)
            requires len == q * ni + r, r <= p, p < len, ni > 0, r >= 0, p < ni;
        assert(len - 1 - p == (q - 1) * ni + (ni + r - 1 - p)) by (nonlinear_arith)
            requires len == q * ni + r;
        lemma_fundamental_div_mod_converse(len - 1 - p, ni, q - 1, ni + r - 1 - p);
    } else {
        assert(q == 0) by (nonlinear_arith)
            requires len == q * ni + r, r >= 0, len <= p, p < ni, q >= 0;
    }
}

/// Round-robin order: the card at deck position `i` is the `i / n`-th card
/// (counting from zero) of the hand of player `i mod n`.
pub proof fn lemma_position_goes_to_player(deck: Seq<Card>, n: nat, i: nat)
    requires
        0 < n,
        i < deck.len(),
    ensures
        ({
            let p = ((i as int) % (n as int)) as nat;
            let k = (i as int) / (n as int);
            &&& p < n
            &&& 0 <= k < dealt_hand(deck, n, p).len()
            &&& dealt_hand(deck, n, p)[k] == deck[i as int]
        }),
{
    let ni = n as int;
    let p = (i as int) % ni;
    let k = (i as int) / ni;
    assert(i == k * ni + p && 0 <= p < ni) by {
        vstd::arithmetic::div_mod::lemma_fundamental_div_mod(i as int, ni);
    }
    assert(k >= 0) by (nonlinear_arith)
        requires i == k * ni + p, 0 <= p < ni, i >= 0;
    assert((k * ni) / ni == k) by {
        lemma_fundamental_div_mod_converse(k * ni, ni, k, 0);
    }
    assert((deck.len() - 1 - p) / ni >= k) by {
        vstd::arithmetic::div_mod::lemma_div_is_ordered(k * ni, deck.len() - 1 - p, ni);
    }
    assert(p + k * ni == i);
}

/// Deals the whole deck round-robin: the card at position `i` is appended to
/// the hand of player `i mod n`, where `n` is the number of players. With no
/// players nothing is dealt and `NoPlayers` is returned.
pub fn distribute_the_card(deck: &Vec<Card>, players: &mut Vec<Player>) -> (r: Result<(), DealError>)
    ensures
        r is Err <==> old(players)@.len() == 0,
        r is Err ==> r == Err::<(), DealError>(DealError::NoPlayers) && final(players)@ == old(players)@,
        final(players)@.len() == old(players)@.len(),
        forall|p: int|
            #![trigger final(players)@[p]]
            0 <= p < old(players)@.len() ==> {
                &&& final(players)@[p].p_name@ == old(players)@[p].p_name@
                &&& final(players)@[p].p_card@ == old(players)@[p].p_card@ + dealt_hand(
                    deck@,
                    old(players)@.len(),
                    p as nat,
                )
            },
{
    let n = players.len();
    if n == 0 {
        return Err(DealError::NoPlayers);
    }
    let ghost start = players@;
    let mut idx: usize = 0;
    while idx < deck.len()
        invariant
            n == players@.len(),
            n == start.len(),
            0 < n,
            idx <= deck.len(),
            forall|p: int|
                #![trigger players@[p]]
                0 <= p < n ==> {
                    &&& players@[p].p_name@ == start[p].p_name@
                    &&& players@[p].p_card@ == start[p].p_card@ + dealt_prefix(
                        deck@,
                        n as nat,
                        p as nat,
                        idx as nat,
                    )
                },
        decreases deck.len() - idx,
    {
        let player_index = idx % n;
        let card = deck[idx];
        let ghost before = players@;
        players[player_index].p_card.push(card);
        proof {
            assert(players@.len() == n);
            assert(players@[player_index as int].p_card@ == before[player_index as int].p_card@.push(card));
            assert(players@[player_index as int].p_name == before[player_index as int].p_name);
            assert(forall|p: int| 0 <= p < n && p != player_index ==> players@[p] == before[p]);
            assert forall|p: int| 0 <= p < n implies {
                &&& #[trigger] players@[p].p_name@ == start[p].p_name@
                &&& players@[p].p_card@ == start[p].p_card@ + dealt_prefix(
                    deck@,
                    n as nat,
                    p as nat,
                    (idx + 1) as nat,
                )
            } by {
                lemma_deal_step(deck@, n as nat, p as nat, idx as nat);
                if p == player_index {
                    assert(start[p].p_card@ + dealt_prefix(deck@, n as nat, p as nat, idx as nat).push(card)
                        =~= (start[p].p_card@ + dealt_prefix(deck@, n as nat, p as nat, idx as nat)).push(card));
                }
            }
        }
        idx = idx + 1;
    }
    Ok(())
}

} // verus!
