//! Cards, suits and the text they are shown with.

use vstd::prelude::*;

verus! {

pub const KING_RANK: u8 = 13;

pub const LOWEST_RANK: u8 = 2;

#[derive(Clone, Copy, PartialEq, Eq, Debug, Structural)]
pub enum Suit {
    Clubs,
    Diamonds,
    Hearts,
    Spades,
}

#[derive(Clone, Copy, PartialEq, Eq, Debug, Structural)]
pub enum Card {
    /// A regular card. `rank` runs from 2 (lowest) to 14 (Ace, highest),
    /// with 11/12/13 standing in for Jack/Queen/King.
    Normal { rank: u8, suit: Suit },
    /// The wildcard Comet card (physically the 9 of Diamonds). It can be
    /// played on top of any rank and simply raises the run's required
    /// rank by one.
    Comet,
}

/// The symbol a suit is displayed with.
pub open spec fn suit_symbol(suit: Suit) -> Seq<char> {
    match suit {
        Suit::Clubs => "♣"@,
        Suit::Diamonds => "♦"@,
        Suit::Hearts => "♥"@,
        Suit::Spades => "♠"@,
    }
}

/// The character of a decimal digit `d < 10`.
pub open spec fn digit_char(d: nat) -> char {
    if d == 0 {
        '0'
    } else if d == 1 {
        '1'
    } else if d == 2 {
        '2'
    } else if d == 3 {
        '3'
    } else if d == 4 {
        '4'
    } else if d == 5 {
        '5'
    } else if d == 6 {
        '6'
    } else if d == 7 {
        '7'
    } else if d == 8 {
        '8'
    } else {
        '9'
    }
}

/// The decimal notation of `n`, most significant digit first.
pub open spec fn decimal(n: nat) -> Seq<char>
    decreases n,
{
    if n < 10 {
        seq![digit_char(n)]
    } else {
        decimal(n / 10).push(digit_char(n % 10))
    }
}

/// How a rank is written: J, Q, K and A for 11 to 14, the number otherwise.
pub open spec fn rank_text(rank: u8) -> Seq<char> {
    if rank == 11 {
        "J"@
    } else if rank == 12 {
        "Q"@
    } else if rank == 13 {
        "K"@
    } else if rank == 14 {
        "A"@
    } else {
        decimal(rank as nat)
    }
}

/// How a card is shown in the game log.
pub open spec fn card_text(card: Card) -> Seq<char> {
    match card {
        Card::Comet => "☄ Comet"@,
        Card::Normal { rank, suit } => rank_text(rank) + suit_symbol(suit),
    }
}

pub open spec fn is_king_card(card: Card) -> bool {
    card matches Card::Normal { rank, .. } && rank == KING_RANK
}

impl Suit {
    fn symbol(self) -> (s: &'static str)
        ensures
            s@ == suit_symbol(self),
    {
        match self {
            Suit::Clubs => "♣",
            Suit::Diamonds => "♦",
            Suit::Hearts => "♥",
            Suit::Spades => "♠",
        }
    }
}

impl Card {
    pub fn is_king(self) -> (b: bool)
        ensures
            b == is_king_card(self),
    {
        match self {
            Card::Normal { rank, .. } => rank == KING_RANK,
            Card::Comet => false,
        }
    }

    pub fn display(self) -> (s: String)
        ensures
            s@ == card_text(self),
    {
        match self {
            Card::Comet => "☄ Comet".to_string(),
            Card::Normal { rank, suit } => {
                let mut s = rank_label(rank);
                s.append(suit.symbol());
                s
            },
        }
    }
}

fn digit_str(d: u8) -> (s: &'static str)
    requires
        d < 10,
    ensures
        s@ == seq![digit_char(d as nat)],
{
    proof {
        reveal_strlit("0");
        reveal_strlit("1");
        reveal_strlit("2");
        reveal_strlit("3");
        reveal_strlit("4");
        reveal_strlit("5");
        reveal_strlit("6");
        reveal_strlit("7");
        reveal_strlit("8");
        reveal_strlit("9");
    }
    match d {
        0 => "0",
        1 => "1",
        2 => "2",
        3 => "3",
        4 => "4",
        5 => "5",
        6 => "6",
        7 => "7",
        8 => "8",
        _ => "9",
    }
}

/// The decimal notation of `n`.
pub fn decimal_string(n: u8) -> (s: String)
    ensures
        s@ == decimal(n as nat),
{
    if n < 10 {
        String::from_str(digit_str(n))
    } else if n < 100 {
        let mut s = String::from_str(digit_str(n / 10));
        s.append(digit_str(n % 10));
        assert(decimal(n as nat) == decimal((n / 10) as nat).push(digit_char((n % 10) as nat)));
        s
    } else {
        let mut s = String::from_str(digit_str(n / 100));
        s.append(digit_str((n / 10) % 10));
        s.append(digit_str(n % 10));
        assert(decimal((n / 10) as nat) == decimal((n / 100) as nat).push(digit_char(((n / 10) % 10) as nat)));
        s
    }
}

pub fn rank_label(rank: u8) -> (s: String)
    ensures
        s@ == rank_text(rank),
{
    match rank {
        11 => "J".to_string(),
        12 => "Q".to_string(),
        13 => "K".to_string(),
        14 => "A".to_string(),
        n => decimal_string(n),
    }
}

} // verus!
