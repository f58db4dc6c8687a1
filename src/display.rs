use vstd::prelude::*;
use vstd::string::StringExecFns;
use crate::card::{Card, rank_label, suit_label, rank_name, suit_name};
use crate::player::Player;

verus! {

/// The line that shows a card: its rank name, a space, its suit name.
pub open spec fn card_text(c: Card) -> Seq<char> {
    rank_label(c.c_number) + " "@ + suit_label(c.c_type)
}

/// One line per card, in order.
pub open spec fn cards_text(cards: Seq<Card>) -> Seq<Seq<char>> {
    cards.map_values(|c: Card| card_text(c))
}

/// The lines that show a player: a separator, the name followed by `" :"`,
/// then one line per card of the hand.
pub open spec fn player_text(p: Player) -> Seq<Seq<char>> {
    seq!["====================="@, p.p_name@ + " :"@] + cards_text(p.p_card@)
}

/// The lines of all players, in registration order.
pub open spec fn players_text(players: Seq<Player>) -> Seq<Seq<char>>
    decreases players.len(),
{
    if players.len() == 0 {
        Seq::empty()
    } else {
        players_text(players.drop_last()) + player_text(players.last())
    }
}

/// The full report: the deck, card by card, then every player.
pub open spec fn report_text(deck: Seq<Card>, players: Seq<Player>) -> Seq<Seq<char>> {
    cards_text(deck) + players_text(players)
}

/// The text of each line.
pub open spec fn lines_view(lines: Seq<String>) -> Seq<Seq<char>> {
    lines.map_values(|s: String| s@)
}

/// Every card in `cards` has rank and suit codes in range.
pub open spec fn all_valid(cards: Seq<Card>) -> bool {
    forall|i: int| 0 <= i < cards.len() ==> #[trigger] cards[i].valid()
}

/// The line that shows `c`, such as `"Ace Heart"`.
pub fn card_line(c: Card) -> (line: String)
    requires
        c.valid(),
    ensures
        line@ == card_text(c),
{
    let mut line = String::from_str(rank_name(c.c_number));
    line.append(" ");
    line.append(suit_name(c.c_type));
    line
}

/// Appends one line per card of `cards` to `out`.
fn push_card_lines(out: &mut Vec<String>, cards: &Vec<Card>)
    requires
        all_valid(cards@),
    ensures
        lines_view(final(out)@) == lines_view(old(out)@) + cards_text(cards@),
{
    let ghost start = out@;
    let mut idx: usize = 0;
    while idx < cards.len()
        invariant
            all_valid(cards@),
            idx <= cards@.len(),
            lines_view(out@) == lines_view(start) + cards_text(cards@.subrange(0, idx as int)),
        decreases cards@.len() - idx,
    {
        let line = card_line(cards[idx]);
        let ghost mid = out@;
        out.push(line);
        proof {
            assert(lines_view(out@) =~= lines_view(mid).push(line@));
            let done = cards@.subrange(0, idx as int);
            assert(cards_text(done.push(cards@[idx as int])) =~= cards_text(done).push(card_text(cards@[idx as int])));
            assert(cards@.subrange(0, idx + 1 as int) =~= cards@.subrange(0, idx as int).push(cards@[idx as int]));
            assert(lines_view(out@) =~= lines_view(start) + cards_text(cards@.subrange(0, idx + 1 as int)));
        }
        idx = idx + 1;
    }
    assert(cards@.subrange(0, cards@.len() as int) =~= cards@);
}

/// Every line of the report: one per card of the deck, then for each player
/// in turn a separator, the name followed by `" :"`, and one per card held.
pub fn render_report(deck: &Vec<Card>, players: &Vec<Player>) -> (lines: Vec<String>)
    requires
        all_valid(deck@),
        forall|p: int| 0 <= p < players@.len() ==> all_valid(#[trigger] players@[p].p_card@),
    ensures
        lines_view(lines@) == report_text(deck@, players@),
{
    let mut lines: Vec<String> = Vec::new();
    assert(lines_view(lines@) =~= Seq::<Seq<char>>::empty());
    push_card_lines(&mut lines, deck);
    let mut idx: usize = 0;
    while idx < players.len()
        invariant
            forall|p: int| 0 <= p < players@.len() ==> all_valid(#[trigger] players@[p].p_card@),
            idx <= players@.len(),
            lines_view(lines@) == cards_text(deck@) + players_text(players@.subrange(0, idx as int)),
        decreases players@.len() - idx,
    {
        let player = &players[idx];
        let ghost before = lines@;
        let separator = String::from_str("=====================");
        lines.push(separator);
        let mut heading = player.p_name.clone();
        heading.append(" :");
        let ghost heading_text = heading@;
        lines.push(heading);
        let ghost mid = lines@;
        push_card_lines(&mut lines, &player.p_card);
        proof {
            assert(heading_text == player.p_name@ + " :"@);
            assert(lines_view(mid) =~= lines_view(before) + seq!["====================="@, heading_text]);
            let done = players@.subrange(0, idx + 1 as int);
            assert(done.drop_last() =~= players@.subrange(0, idx as int));
            assert(done.last() == players@[idx as int]);
            assert(lines_view(lines@) =~= cards_text(deck@) + players_text(done));
        }
        idx = idx + 1;
    }
    assert(players@.subrange(0, players@.len() as int) =~= players@);
    lines
}

} // verus!
