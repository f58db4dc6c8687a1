use card_dealer::card::{rank_name, suit_name, Card};
use card_dealer::deal::{distribute_the_card, DealError};
use card_dealer::deck::setup_deck_of_card;
use card_dealer::display::{card_line, render_report};
use card_dealer::player::{player_name, setup_the_player, Player};
use card_dealer::shuffle::{shuffle_the_card, shuffle_with_draws};

fn card(c_number: u32, c_type: u32) -> Card {
    Card { c_number, c_type }
}

fn sorted_pairs(cards: &[Card]) -> Vec<(u32, u32)> {
    let mut pairs: Vec<(u32, u32)> = cards.iter().map(|c| (c.c_type, c.c_number)).collect();
    pairs.sort();
    pairs
}

fn full_pairs() -> Vec<(u32, u32)> {
    let mut pairs = Vec::new();
    for s in 1..=4 {
        for r in 1..=13 {
            pairs.push((s, r));
        }
    }
    pairs
}

#[test]
fn deck_holds_each_card_once() {
    let deck = setup_deck_of_card();
    assert_eq!(deck.len(), 52);
    assert_eq!(sorted_pairs(&deck), full_pairs());
    for c in deck.iter() {
        assert!(1 <= c.c_number && c.c_number <= 13);
        assert!(1 <= c.c_type && c.c_type <= 4);
    }
}

#[test]
fn deck_order_is_suit_by_suit() {
    let deck = setup_deck_of_card();
    assert_eq!(deck[0], card(1, 1));
    assert_eq!(deck[12], card(13, 1));
    assert_eq!(deck[13], card(1, 2));
    assert_eq!(deck[26], card(1, 3));
    assert_eq!(deck[51], card(13, 4));
}

#[test]
fn shuffle_keeps_every_card() {
    for _ in 0..200 {
        let mut deck = setup_deck_of_card();
        shuffle_the_card(&mut deck);
        assert_eq!(deck.len(), 52);
        assert_eq!(sorted_pairs(&deck), full_pairs());
    }
}

#[test]
fn shuffle_of_empty_deck_does_nothing() {
    let mut deck: Vec<Card> = Vec::new();
    shuffle_the_card(&mut deck);
    assert!(deck.is_empty());
}

#[test]
fn shuffle_with_draws_swaps_in_turn() {
    let a = card(1, 1);
    let b = card(2, 1);
    let c = card(3, 1);
    let mut deck = vec![a, b, c];
    shuffle_with_draws(&mut deck, &vec![2, 0, 1]);
    assert_eq!(deck, vec![b, a, c]);
}

#[test]
fn shuffle_with_identity_draws_keeps_order() {
    let mut deck = setup_deck_of_card();
    let draws: Vec<usize> = (0..52).collect();
    shuffle_with_draws(&mut deck, &draws);
    assert_eq!(deck, setup_deck_of_card());
}

#[test]
fn four_players_get_thirteen_each() {
    let mut deck = setup_deck_of_card();
    shuffle_the_card(&mut deck);
    let mut players = setup_the_player(4);
    assert_eq!(distribute_the_card(&deck, &mut players), Ok(()));
    let mut all: Vec<Card> = Vec::new();
    for p in players.iter() {
        assert_eq!(p.p_card.len(), 13);
        all.extend(p.p_card.iter().copied());
    }
    assert_eq!(sorted_pairs(&all), full_pairs());
}

#[test]
fn five_players_split_the_remainder() {
    let deck = setup_deck_of_card();
    let mut players = setup_the_player(5);
    assert_eq!(distribute_the_card(&deck, &mut players), Ok(()));
    let sizes: Vec<usize> = players.iter().map(|p| p.p_card.len()).collect();
    assert_eq!(sizes, vec![11, 11, 10, 10, 10]);
}

#[test]
fn zero_players_get_nothing() {
    let deck = setup_deck_of_card();
    let mut players = setup_the_player(0);
    assert!(players.is_empty());
    let r = distribute_the_card(&deck, &mut players);
    assert_eq!(r, Err(DealError::NoPlayers));
    assert!(players.is_empty());
    assert_eq!(DealError::NoPlayers.message(), "There are no players to distribute !!");
}

#[test]
fn position_seven_goes_to_player_three() {
    let mut deck = setup_deck_of_card();
    shuffle_the_card(&mut deck);
    let mut players = setup_the_player(4);
    distribute_the_card(&deck, &mut players).unwrap();
    assert_eq!(players[3].p_card[1], deck[7]);
    for (i, c) in deck.iter().enumerate() {
        assert_eq!(players[i % 4].p_card[i / 4], *c);
    }
}

#[test]
fn dealing_appends_to_existing_hands() {
    let deck = vec![card(5, 2), card(6, 2), card(7, 2)];
    let mut players = vec![Player { p_name: String::from("A"), p_card: vec![card(1, 4)] }];
    distribute_the_card(&deck, &mut players).unwrap();
    assert_eq!(players[0].p_name, "A");
    assert_eq!(players[0].p_card, vec![card(1, 4), card(5, 2), card(6, 2), card(7, 2)]);
}

#[test]
fn players_are_named_in_order() {
    let players = setup_the_player(4);
    let names: Vec<&str> = players.iter().map(|p| p.p_name.as_str()).collect();
    assert_eq!(names, vec!["Player 1", "Player 2", "Player 3", "Player 4"]);
    assert!(players.iter().all(|p| p.p_card.is_empty()));
}

#[test]
fn player_names_use_decimal_numbers() {
    assert_eq!(player_name(0), "Player 0");
    assert_eq!(player_name(9), "Player 9");
    assert_eq!(player_name(10), "Player 10");
    assert_eq!(player_name(1234), "Player 1234");
    assert_eq!(player_name(usize::MAX), format!("Player {}", usize::MAX));
    let players = setup_the_player(12);
    assert_eq!(players[11].p_name, "Player 12");
}

#[test]
fn rank_and_suit_names() {
    let ranks = [
        "Ace", "Two", "Three", "Four", "Five", "Six", "Seven", "Eight", "Nine", "Ten", "Jack",
        "Queen", "King",
    ];
    for (i, name) in ranks.iter().enumerate() {
        assert_eq!(rank_name(i as u32 + 1), *name);
    }
    assert_eq!(suit_name(1), "Heart");
    assert_eq!(suit_name(2), "Spade");
    assert_eq!(suit_name(3), "Diamond");
    assert_eq!(suit_name(4), "Club");
}

#[test]
fn card_lines_name_rank_then_suit() {
    assert_eq!(card_line(card(1, 1)), "Ace Heart");
    assert_eq!(card_line(card(10, 3)), "Ten Diamond");
    assert_eq!(card_line(card(13, 4)), "King Club");
}

#[test]
fn report_lists_deck_then_players() {
    let deck = vec![card(1, 1), card(12, 2), card(7, 4)];
    let mut players = setup_the_player(2);
    distribute_the_card(&deck, &mut players).unwrap();
    let lines = render_report(&deck, &players);
    assert_eq!(
        lines,
        vec![
            "Ace Heart",
            "Queen Spade",
            "Seven Club",
            "=====================",
            "Player 1 :",
            "Ace Heart",
            "Seven Club",
            "=====================",
            "Player 2 :",
            "Queen Spade",
        ]
    );
}

#[test]
fn report_of_full_game_has_every_line() {
    let deck = setup_deck_of_card();
    let mut players = setup_the_player(4);
    distribute_the_card(&deck, &mut players).unwrap();
    let lines = render_report(&deck, &players);
    assert_eq!(lines.len(), 52 + 4 * (2 + 13));
    assert_eq!(lines[52], "=====================");
    assert_eq!(lines[53], "Player 1 :");
    assert_eq!(lines[54], "Ace Heart");
    assert_eq!(lines[55], "Five Heart");
}
