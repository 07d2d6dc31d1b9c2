use vstd::prelude::*;
use crate::text::{lower_of, same_text, to_lower, trim_text, trimmed_of};

verus! {

/// One of the four suits.
#[derive(Clone, Copy, Debug, PartialEq, Eq, Structural)]
pub enum Suit {
    Club,
    Diamond,
    Heart,
    Spade,
}

/// One of the thirteen ranks, lowest first.
#[derive(Clone, Copy, Debug, PartialEq, Eq, Structural)]
pub enum Number {
    Two,
    Three,
    Four,
    Five,
    Six,
    Seven,
    Eight,
    Nine,
    Ten,
    Jack,
    Queen,
    King,
    Ace,
}

/// A playing card: a suit and a rank. Two cards are equal when both agree.
#[derive(Clone, Copy, Debug, PartialEq, Eq, Structural)]
pub struct Card {
    suit: Suit,
    number: Number,
}

/// Position of a suit in declaration order.
pub open spec fn suit_index(s: Suit) -> int {
    match s {
        Suit::Club => 0,
        Suit::Diamond => 1,
        Suit::Heart => 2,
        Suit::Spade => 3,
    }
}

/// The suit at a position of declaration order (positions 0 to 3).
pub open spec fn suit_at(i: int) -> Suit {
    if i == 0 {
        Suit::Club
    } else if i == 1 {
        Suit::Diamond
    } else if i == 2 {
        Suit::Heart
    } else {
        Suit::Spade
    }
}

/// Position of a rank in declaration order.
pub open spec fn number_index(n: Number) -> int {
    match n {
        Number::Two => 0,
        Number::Three => 1,
        Number::Four => 2,
        Number::Five => 3,
        Number::Six => 4,
        Number::Seven => 5,
        Number::Eight => 6,
        Number::Nine => 7,
        Number::Ten => 8,
        Number::Jack => 9,
        Number::Queen => 10,
        Number::King => 11,
        Number::Ace => 12,
    }
}

/// The rank at a position of declaration order (positions 0 to 12).
pub open spec fn number_at(i: int) -> Number {
    if i == 0 {
        Number::Two
    } else if i == 1 {
        Number::Three
    } else if i == 2 {
        Number::Four
    } else if i == 3 {
        Number::Five
    } else if i == 4 {
        Number::Six
    } else if i == 5 {
        Number::Seven
    } else if i == 6 {
        Number::Eight
    } else if i == 7 {
        Number::Nine
    } else if i == 8 {
        Number::Ten
    } else if i == 9 {
        Number::Jack
    } else if i == 10 {
        Number::Queen
    } else if i == 11 {
        Number::King
    } else {
        Number::Ace
    }
}

/// Each suit has a position among the four, and that position names it.
pub proof fn lemma_suit_index(s: Suit)
    ensures
        0 <= suit_index(s) < 4,
        suit_at(suit_index(s)) == s,
{
}

/// Each rank has a position among the thirteen, and that position names it.
pub proof fn lemma_number_index(n: Number)
    ensures
        0 <= number_index(n) < 13,
        number_at(number_index(n)) == n,
{
}

impl Card {
    /// The card's suit.
    pub closed spec fn suit_of(self) -> Suit {
        self.suit
    }

    /// The card's rank.
    pub closed spec fn number_of(self) -> Number {
        self.number
    }

    /// The card with rank `n` and suit `s`.
    pub closed spec fn make(n: Number, s: Suit) -> Card {
        Card { suit: s, number: n }
    }

    /// A card made from a rank and a suit has that rank and that suit.
    pub broadcast proof fn lemma_make(n: Number, s: Suit)
        ensures
            #[trigger] Card::make(n, s).suit_of() == s,
            Card::make(n, s).number_of() == n,
    {
    }

    /// A card is determined by its suit and its rank.
    pub broadcast proof fn lemma_fields(c: Card)
        ensures
            #[trigger] Card::make(c.number_of(), c.suit_of()) == c,
    {
    }

    pub fn new(n: Number, s: Suit) -> (r: Card)
        ensures
            r == Card::make(n, s),
    {
        Card { suit: s, number: n }
    }

    pub fn get_suit(self) -> (r: Suit)
        ensures
            r == self.suit_of(),
    {
        self.suit
    }

    pub fn get_number(self) -> (r: Number)
        ensures
            r == self.number_of(),
    {
        self.number
    }
}

pub open spec fn suit_of_token(t: Seq<char>) -> Option<Suit> {
    if t == "club"@ {
        Some(Suit::Club)
    } else if t == "heart"@ {
        Some(Suit::Heart)
    } else if t == "spade"@ {
        Some(Suit::Spade)
    } else if t == "diamond"@ {
        Some(Suit::Diamond)
    } else {
        None
    }
}

pub open spec fn number_of_token(t: Seq<char>) -> Option<Number> {
    if t == "two"@ {
        Some(Number::Two)
    } else if t == "three"@ {
        Some(Number::Three)
    } else if t == "four"@ {
        Some(Number::Four)
    } else if t == "five"@ {
        Some(Number::Five)
    } else if t == "six"@ {
        Some(Number::Six)
    } else if t == "seven"@ {
        Some(Number::Seven)
    } else if t == "eight"@ {
        Some(Number::Eight)
    } else if t == "nine"@ {
        Some(Number::Nine)
    } else if t == "ten"@ {
        Some(Number::Ten)
    } else if t == "jack"@ {
        Some(Number::Jack)
    } else if t == "queen"@ {
        Some(Number::Queen)
    } else if t == "king"@ {
        Some(Number::King)
    } else if t == "ace"@ {
        Some(Number::Ace)
    } else {
        None
    }
}

/// The name of each suit, as a deck listing shows it.
pub open spec fn suit_name(x: Suit) -> Seq<char> {
    match x {
        Suit::Club => "Club"@,
        Suit::Diamond => "Diamond"@,
        Suit::Heart => "Heart"@,
        Suit::Spade => "Spade"@,
    }
}

/// The name of each rank, as a deck listing shows it.
pub open spec fn number_name(x: Number) -> Seq<char> {
    match x {
        Number::Two => "Two"@,
        Number::Three => "Three"@,
        Number::Four => "Four"@,
        Number::Five => "Five"@,
        Number::Six => "Six"@,
        Number::Seven => "Seven"@,
        Number::Eight => "Eight"@,
        Number::Nine => "Nine"@,
        Number::Ten => "Ten"@,
        Number::Jack => "Jack"@,
        Number::Queen => "Queen"@,
        Number::King => "King"@,
        Number::Ace => "Ace"@,
    }
}

/// The message for a text that names no value of the type `ty`.
pub open spec fn invalid_text(s: Seq<char>, ty: Seq<char>) -> Seq<char> {
    "'"@ + s + "' is not a valid value for "@ + ty
}

fn invalid_message(s: &str, ty: &str) -> (r: String)
    ensures
        r@ == invalid_text(s@, ty@),
{
    let mut m = String::from_str("'");
    m.append(s);
    m.append("' is not a valid value for ");
    m.append(ty);
    m
}

impl Suit {
    /// The suit that an already lower-cased, trimmed token names.
    pub fn from_token(t: &str) -> (r: Option<Suit>)
        ensures
            r == suit_of_token(t@),
    {
        if same_text(t, "club") {
            Some(Suit::Club)
        } else if same_text(t, "heart") {
            Some(Suit::Heart)
        } else if same_text(t, "spade") {
            Some(Suit::Spade)
        } else if same_text(t, "diamond") {
            Some(Suit::Diamond)
        } else {
            None
        }
    }

    /// The name of this suit, as a deck listing shows it.
    pub fn name(self) -> (r: &'static str)
        ensures
            r@ == suit_name(self),
    {
        match self {
            Suit::Club => "Club",
            Suit::Diamond => "Diamond",
            Suit::Heart => "Heart",
            Suit::Spade => "Spade",
        }
    }

    /// Reads a suit from text, ignoring case and surrounding white space.
    /// An unknown word gives a message that names it and the type.
    pub fn parse(s: &str) -> (r: Result<Suit, String>)
        ensures
            match suit_of_token(trimmed_of(lower_of(s@))) {
                Some(x) => r == Ok::<Suit, String>(x),
                None => r is Err && r->Err_0@ == invalid_text(s@, "Suit"@),
            },
    {
        let lower = to_lower(s);
        let token = trim_text(lower.as_str());
        match Suit::from_token(token) {
            Some(x) => Ok(x),
            None => Err(invalid_message(s, "Suit")),
        }
    }
}

impl Number {
    /// The rank that an already lower-cased, trimmed token names.
    pub fn from_token(t: &str) -> (r: Option<Number>)
        ensures
            r == number_of_token(t@),
    {
        if same_text(t, "two") {
            Some(Number::Two)
        } else if same_text(t, "three") {
            Some(Number::Three)
        } else if same_text(t, "four") {
            Some(Number::Four)
        } else if same_text(t, "five") {
            Some(Number::Five)
        } else if same_text(t, "six") {
            Some(Number::Six)
        } else if same_text(t, "seven") {
            Some(Number::Seven)
        } else if same_text(t, "eight") {
            Some(Number::Eight)
        } else if same_text(t, "nine") {
            Some(Number::Nine)
        } else if same_text(t, "ten") {
            Some(Number::Ten)
        } else if same_text(t, "jack") {
            Some(Number::Jack)
        } else if same_text(t, "queen") {
            Some(Number::Queen)
        } else if same_text(t, "king") {
            Some(Number::King)
        } else if same_text(t, "ace") {
            Some(Number::Ace)
        } else {
            None
        }
    }

    /// The name of this rank, as a deck listing shows it.
    pub fn name(self) -> (r: &'static str)
        ensures
            r@ == number_name(self),
    {
        match self {
            Number::Two => "Two",
            Number::Three => "Three",
            Number::Four => "Four",
            Number::Five => "Five",
            Number::Six => "Six",
            Number::Seven => "Seven",
            Number::Eight => "Eight",
            Number::Nine => "Nine",
            Number::Ten => "Ten",
            Number::Jack => "Jack",
            Number::Queen => "Queen",
            Number::King => "King",
            Number::Ace => "Ace",
        }
    }

    /// Reads a rank from text, ignoring case and surrounding white space.
    /// An unknown word gives a message that names it and the type.
    pub fn parse(s: &str) -> (r: Result<Number, String>)
        ensures
            match number_of_token(trimmed_of(lower_of(s@))) {
                Some(x) => r == Ok::<Number, String>(x),
                None => r is Err && r->Err_0@ == invalid_text(s@, "Number"@),
            },
    {
        let lower = to_lower(s);
        let token = trim_text(lower.as_str());
        match Number::from_token(token) {
            Some(x) => Ok(x),
            None => Err(invalid_message(s, "Number")),
        }
    }
}

impl std::str::FromStr for Suit {
    type Err = String;

    /// Same as `Suit::parse`.
    fn from_str(s: &str) -> (r: Result<Suit, String>)
        ensures
            match suit_of_token(trimmed_of(lower_of(s@))) {
                Some(x) => r == Ok::<Suit, String>(x),
                None => r is Err && r->Err_0@ == invalid_text(s@, "Suit"@),
            },
    {
        Suit::parse(s)
    }
}

impl std::str::FromStr for Number {
    type Err = String;

    /// Same as `Number::parse`.
    fn from_str(s: &str) -> (r: Result<Number, String>)
        ensures
            match number_of_token(trimmed_of(lower_of(s@))) {
                Some(x) => r == Ok::<Number, String>(x),
                None => r is Err && r->Err_0@ == invalid_text(s@, "Number"@),
            },
    {
        Number::parse(s)
    }
}

pub broadcast group group_card {
    Card::lemma_make,
    Card::lemma_fields,
}

} // verus!
