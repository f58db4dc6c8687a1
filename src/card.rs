use vstd::prelude::*;

verus! {

/// Number of ranks in a suit (Ace through King).
pub const RANK_COUNT: u32 = 13;

/// Number of suits (Heart, Spade, Diamond, Club).
pub const SUIT_COUNT: u32 = 4;

/// A playing card: `c_number` is the rank (1 = Ace ... 13 = King) and
/// `c_type` the suit (1 = Heart, 2 = Spade, 3 = Diamond, 4 = Club).
#[derive(Clone, Copy, Debug, PartialEq, Eq, Structural)]
pub struct Card {
    pub c_number: u32,
    pub c_type: u32,
}

impl Card {
    /// A card whose rank and suit codes are both in range.
    pub open spec fn valid(self) -> bool {
        1 <= self.c_number <= RANK_COUNT && 1 <= self.c_type <= SUIT_COUNT
    }
}

/// Display name of a rank code.
pub open spec fn rank_label(r: u32) -> Seq<char> {
    if r == 1 { "Ace"@ }
    else if r == 2 { "Two"@ }
    else if r == 3 { "Three"@ }
    else if r == 4 { "Four"@ }
    else if r == 5 { "Five"@ }
    else if r == 6 { "Six"@ }
    else if r == 7 { "Seven"@ }
    else if r == 8 { "Eight"@ }
    else if r == 9 { "Nine"@ }
    else if r == 10 { "Ten"@ }
    else if r == 11 { "Jack"@ }
    else if r == 12 { "Queen"@ }
    else { "King"@ }
}

/// Display name of a suit code.
pub open spec fn suit_label(s: u32) -> Seq<char> {
    if s == 1 { "Heart"@ }
    else if s == 2 { "Spade"@ }
    else if s == 3 { "Diamond"@ }
    else { "Club"@ }
}

/// The display name of a rank code; codes outside 1..=13 are never produced.
pub fn rank_name(r: u32) -> (name: &'static str)
    requires
        1 <= r <= RANK_COUNT,
    ensures
        name@ == rank_label(r),
{
    match r {
        1 => "Ace",
        2 => "Two",
        3 => "Three",
        4 => "Four",
        5 => "Five",
        6 => "Six",
        7 => "Seven",
        8 => "Eight",
        9 => "Nine",
        10 => "Ten",
        11 => "Jack",
        12 => "Queen",
        _ => "King",
    }
}

/// The display name of a suit code; codes outside 1..=4 are never produced.
pub fn suit_name(s: u32) -> (name: &'static str)
    requires
        1 <= s <= SUIT_COUNT,
    ensures
        name@ == suit_label(s),
{
    match s {
        1 => "Heart",
        2 => "Spade",
        3 => "Diamond",
        _ => "Club",
    }
}

} // verus!
