use vstd::prelude::*;
use vstd::string::StringExecFns;
use crate::card::Card;

verus! {

/// A named player and the cards dealt to them, in the order received.
#[derive(Debug)]
pub struct Player {
    pub p_name: String,
    pub p_card: Vec<Card>,
}

/// The character of a decimal digit.
pub open spec fn digit_char(d: nat) -> char {
    if d == 0 { '0' }
    else if d == 1 { '1' }
    else if d == 2 { '2' }
    else if d == 3 { '3' }
    else if d == 4 { '4' }
    else if d == 5 { '5' }
    else if d == 6 { '6' }
    else if d == 7 { '7' }
    else if d == 8 { '8' }
    else { '9' }
}

/// The decimal notation of `n`, without leading zeros.
pub open spec fn decimal(n: nat) -> Seq<char>
    decreases n,
{
    if n < 10 {
        seq![digit_char(n)]
    } else {
        decimal(n / 10) + seq![digit_char(n % 10)]
    }
}

/// The name of the player registered in position `number` (counting from one).
pub open spec fn player_label(number: nat) -> Seq<char> {
    "Player "@ + decimal(number)
}

/// The one-character text of a decimal digit.
fn digit_str(d: usize) -> (r: &'static str)
    requires
        d < 10,
    ensures
        r@ == seq![digit_char(d as nat)],
{
    proof {
        reveal_strlit("0");
        reveal_strlit("1");
        reveal_strlit("2");
        reveal_strlit("3");
        reveal_strlit("4");
        reveal_strlit("5");
        reveal_strlit("6");
        reveal_strlit("7");
        reveal_strlit("8");
        reveal_strlit("9");
    }
    let r = match d {
        0 => "0",
        1 => "1",
        2 => "2",
        3 => "3",
        4 => "4",
        5 => "5",
        6 => "6",
        7 => "7",
        8 => "8",
        _ => "9",
    };
    assert(r@ =~= seq![digit_char(d as nat)]);
    r
}

/// Appends the decimal notation of `n` to `s`.
fn append_decimal(s: &mut String, n: usize)
    ensures
        final(s)@ == old(s)@ + decimal(n as nat),
    decreases n,
{
    if n >= 10 {
        append_decimal(s, n / 10);
    }
    s.append(digit_str(n % 10));
    assert(final(s)@ =~= old(s)@ + decimal(n as nat)) by {
        if n >= 10 {
            assert(decimal(n as nat) == decimal((n / 10) as nat) + seq![digit_char((n % 10) as nat)]);
        }
    }
}

/// The name given to the player registered in position `number`
/// (counting from one): `"Player <number>"`.
pub fn player_name(number: usize) -> (name: String)
    ensures
        name@ == player_label(number as nat),
{
    let mut name = String::from_str("Player ");
    append_decimal(&mut name, number);
    name
}

/// Registers `player_number` players named `"Player 1"` to
/// `"Player <player_number>"`, in that order, each with an empty hand.
pub fn setup_the_player(player_number: usize) -> (players: Vec<Player>)
    ensures
        players@.len() == player_number,
        forall|i: int|
            #![trigger players@[i]]
            0 <= i < player_number ==> {
                &&& players@[i].p_name@ == player_label((i + 1) as nat)
                &&& players@[i].p_card@.len() == 0
            },
{
    let mut players: Vec<Player> = Vec::new();
    let mut p_number: usize = 0;
    while p_number < player_number
        invariant
            p_number <= player_number,
            players@.len() == p_number,
            forall|i: int|
                #![trigger players@[i]]
                0 <= i < p_number ==> {
                    &&& players@[i].p_name@ == player_label((i + 1) as nat)
                    &&& players@[i].p_card@.len() == 0
                },
        decreases player_number - p_number,
    {
        players.push(Player { p_name: player_name(p_number + 1), p_card: Vec::new() });
        p_number = p_number + 1;
    }
    players
}

} // verus!
