use vstd::prelude::*;

verus! {

/// The thirteen ranks of a standard deck.
#[derive(Clone, Copy, Debug, PartialEq, Eq, Structural)]
pub enum Rank {
    Two,
    Three,
    Four,
    Five,
    Six,
    Seven,
    Eight,
    Nine,
    Ten,
    Jack,
    Queen,
    King,
    Ace,
}

/// The four suits; a suit has a display colour and no effect on value.
#[derive(Clone, Copy, Debug, PartialEq, Eq, Structural)]
pub enum Suit {
    Spade,
    Club,
    Diamond,
    Heart,
}

/// The colour in which a suit is drawn.
#[derive(Clone, Copy, Debug, PartialEq, Eq, Structural)]
pub enum CardColor {
    Black,
    Red,
}

/// A playing card: a rank and a suit.
#[derive(Clone, Copy, Debug, PartialEq, Eq, Structural)]
pub struct Card {
    pub rank: Rank,
    pub suit: Suit,
}

/// Nominal point value of a rank: face cards count ten, an ace eleven.
pub open spec fn rank_points(r: Rank) -> nat {
    match r {
        Rank::Two => 2,
        Rank::Three => 3,
        Rank::Four => 4,
        Rank::Five => 5,
        Rank::Six => 6,
        Rank::Seven => 7,
        Rank::Eight => 8,
        Rank::Nine => 9,
        Rank::Ten | Rank::Jack | Rank::Queen | Rank::King => 10,
        Rank::Ace => 11,
    }
}

/// Short label of a rank as printed in a card's corner.
pub open spec fn rank_label(r: Rank) -> Seq<char> {
    match r {
        Rank::Two => "2"@,
        Rank::Three => "3"@,
        Rank::Four => "4"@,
        Rank::Five => "5"@,
        Rank::Six => "6"@,
        Rank::Seven => "7"@,
        Rank::Eight => "8"@,
        Rank::Nine => "9"@,
        Rank::Ten => "10"@,
        Rank::Jack => "J"@,
        Rank::Queen => "Q"@,
        Rank::King => "K"@,
        Rank::Ace => "A"@,
    }
}

/// The symbol printed for a suit.
pub open spec fn suit_symbol(s: Suit) -> Seq<char> {
    match s {
        Suit::Spade => "♠"@,
        Suit::Club => "♣"@,
        Suit::Diamond => "♦"@,
        Suit::Heart => "♥"@,
    }
}

pub open spec fn suit_color(s: Suit) -> CardColor {
    match s {
        Suit::Spade | Suit::Club => CardColor::Black,
        Suit::Diamond | Suit::Heart => CardColor::Red,
    }
}

/// Position of a rank in the order Two .. Ace.
pub open spec fn rank_index(r: Rank) -> int {
    match r {
        Rank::Two => 0,
        Rank::Three => 1,
        Rank::Four => 2,
        Rank::Five => 3,
        Rank::Six => 4,
        Rank::Seven => 5,
        Rank::Eight => 6,
        Rank::Nine => 7,
        Rank::Ten => 8,
        Rank::Jack => 9,
        Rank::Queen => 10,
        Rank::King => 11,
        Rank::Ace => 12,
    }
}

/// Position of a suit in the order Spade, Club, Diamond, Heart.
pub open spec fn suit_index(s: Suit) -> int {
    match s {
        Suit::Spade => 0,
        Suit::Club => 1,
        Suit::Diamond => 2,
        Suit::Heart => 3,
    }
}

/// The rank at position `i` of the order Two .. Ace.
pub open spec fn rank_at(i: int) -> Rank {
    if i <= 0 {
        Rank::Two
    } else if i == 1 {
        Rank::Three
    } else if i == 2 {
        Rank::Four
    } else if i == 3 {
        Rank::Five
    } else if i == 4 {
        Rank::Six
    } else if i == 5 {
        Rank::Seven
    } else if i == 6 {
        Rank::Eight
    } else if i == 7 {
        Rank::Nine
    } else if i == 8 {
        Rank::Ten
    } else if i == 9 {
        Rank::Jack
    } else if i == 10 {
        Rank::Queen
    } else if i == 11 {
        Rank::King
    } else {
        Rank::Ace
    }
}

/// The suit at position `i` of the order Spade, Club, Diamond, Heart.
pub open spec fn suit_at(i: int) -> Suit {
    if i <= 0 {
        Suit::Spade
    } else if i == 1 {
        Suit::Club
    } else if i == 2 {
        Suit::Diamond
    } else {
        Suit::Heart
    }
}

/// Position of a card in the canonical deck: suit by suit, each suit from Two to Ace.
pub open spec fn card_index(c: Card) -> int {
    13 * suit_index(c.suit) + rank_index(c.rank)
}

/// The card at position `i` of the canonical deck.
pub open spec fn card_at(i: int) -> Card {
    Card { rank: rank_at(i % 13), suit: suit_at(i / 13) }
}

/// The 52 cards in canonical order.
pub open spec fn canonical_deck() -> Seq<Card> {
    Seq::new(52, |i: int| card_at(i))
}

/// Every card sits at its own position of the canonical deck.
pub proof fn lemma_card_index_round_trip(c: Card)
    ensures
        0 <= card_index(c) < 52,
        card_at(card_index(c)) == c,
{
    let i = card_index(c);
    assert(i % 13 == rank_index(c.rank));
    assert(i / 13 == suit_index(c.suit));
}

/// Distinct positions of the canonical deck hold distinct cards.
pub proof fn lemma_card_at_round_trip(i: int)
    requires
        0 <= i < 52,
    ensures
        card_index(card_at(i)) == i,
{
}

/// The canonical deck holds 52 distinct cards, and every card is among them.
pub proof fn lemma_canonical_deck()
    ensures
        canonical_deck().len() == 52,
        canonical_deck().no_duplicates(),
        forall|c: Card| canonical_deck().contains(c),
{
    assert forall|i: int, j: int|
        0 <= i < 52 && 0 <= j < 52 && i != j implies canonical_deck()[i] != canonical_deck()[j] by {
        lemma_card_at_round_trip(i);
        lemma_card_at_round_trip(j);
    }
    assert forall|c: Card| canonical_deck().contains(c) by {
        lemma_card_index_round_trip(c);
        assert(canonical_deck()[card_index(c)] == c);
    }
}

impl Rank {
    /// Nominal point value: Two to Ten at face, Jack, Queen and King ten, Ace eleven.
    pub fn get_value(&self) -> (r: u8)
        ensures
            r == rank_points(*self),
    {
        match self {
            Rank::Two => 2,
            Rank::Three => 3,
            Rank::Four => 4,
            Rank::Five => 5,
            Rank::Six => 6,
            Rank::Seven => 7,
            Rank::Eight => 8,
            Rank::Nine => 9,
            Rank::Ten => 10,
            Rank::Jack => 10,
            Rank::Queen => 10,
            Rank::King => 10,
            Rank::Ace => 11,
        }
    }

    /// Short label printed in a card's corner ("2" .. "10", "J", "Q", "K", "A").
    pub fn get_rank(&self) -> (r: &'static str)
        ensures
            r@ == rank_label(*self),
    {
        match self {
            Rank::Two => "2",
            Rank::Three => "3",
            Rank::Four => "4",
            Rank::Five => "5",
            Rank::Six => "6",
            Rank::Seven => "7",
            Rank::Eight => "8",
            Rank::Nine => "9",
            Rank::Ten => "10",
            Rank::Jack => "J",
            Rank::Queen => "Q",
            Rank::King => "K",
            Rank::Ace => "A",
        }
    }

    /// The rank at position `i` of the order Two .. Ace.
    pub fn from_index(i: u8) -> (r: Rank)
        requires
            i < 13,
        ensures
            r == rank_at(i as int),
            rank_index(r) == i,
    {
        if i == 0 {
            Rank::Two
        } else if i == 1 {
            Rank::Three
        } else if i == 2 {
            Rank::Four
        } else if i == 3 {
            Rank::Five
        } else if i == 4 {
            Rank::Six
        } else if i == 5 {
            Rank::Seven
        } else if i == 6 {
            Rank::Eight
        } else if i == 7 {
            Rank::Nine
        } else if i == 8 {
            Rank::Ten
        } else if i == 9 {
            Rank::Jack
        } else if i == 10 {
            Rank::Queen
        } else if i == 11 {
            Rank::King
        } else {
            Rank::Ace
        }
    }
}

impl Suit {
    /// Spades and clubs are black, diamonds and hearts red.
    pub fn color(&self) -> (r: CardColor)
        ensures
            r == suit_color(*self),
    {
        match self {
            Suit::Spade => CardColor::Black,
            Suit::Club => CardColor::Black,
            Suit::Diamond => CardColor::Red,
            Suit::Heart => CardColor::Red,
        }
    }

    /// The suit's symbol: ♠, ♣, ♦ or ♥.
    pub fn symbol(&self) -> (r: &'static str)
        ensures
            r@ == suit_symbol(*self),
    {
        match self {
            Suit::Spade => "♠",
            Suit::Club => "♣",
            Suit::Diamond => "♦",
            Suit::Heart => "♥",
        }
    }

    /// The suit at position `i` of the order Spade, Club, Diamond, Heart.
    pub fn from_index(i: u8) -> (r: Suit)
        requires
            i < 4,
        ensures
            r == suit_at(i as int),
            suit_index(r) == i,
    {
        if i == 0 {
            Suit::Spade
        } else if i == 1 {
            Suit::Club
        } else if i == 2 {
            Suit::Diamond
        } else {
            Suit::Heart
        }
    }
}

impl Card {
    pub fn new(rank: Rank, suit: Suit) -> (r: Card)
        ensures
            r.rank == rank,
            r.suit == suit,
    {
        Card { rank, suit }
    }

    pub fn is_ace(&self) -> (r: bool)
        ensures
            r == (self.rank == Rank::Ace),
    {
        match self.rank {
            Rank::Ace => true,
            _ => false,
        }
    }
}

} // verus!
