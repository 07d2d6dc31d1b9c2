use std::str::FromStr;

use cards_lib::card::{Number, Suit};

#[test]
fn suit_parses_any_case_and_padding() {
    assert_eq!(Suit::from_str("SPADE"), Ok(Suit::Spade));
    assert_eq!(Suit::from_str(" spade "), Ok(Suit::Spade));
    assert_eq!(Suit::from_str("club"), Ok(Suit::Club));
    assert_eq!(Suit::from_str("Diamond"), Ok(Suit::Diamond));
    assert_eq!("\tHeart\n".parse::<Suit>(), Ok(Suit::Heart));
}

#[test]
fn suit_rejects_unknown_word() {
    assert_eq!(
        Suit::from_str("invalid"),
        Err("'invalid' is not a valid value for Suit".to_string())
    );
    assert_eq!(
        Suit::parse("spades"),
        Err("'spades' is not a valid value for Suit".to_string())
    );
    assert!(Suit::parse("").is_err());
}

#[test]
fn number_parses_every_rank() {
    let words = [
        "two", "three", "four", "five", "six", "seven", "eight", "nine", "ten", "jack", "queen",
        "king", "ace",
    ];
    let ranks = [
        Number::Two,
        Number::Three,
        Number::Four,
        Number::Five,
        Number::Six,
        Number::Seven,
        Number::Eight,
        Number::Nine,
        Number::Ten,
        Number::Jack,
        Number::Queen,
        Number::King,
        Number::Ace,
    ];
    for (w, r) in words.iter().zip(ranks.iter()) {
        assert_eq!(Number::from_str(w), Ok(*r));
    }
    assert_eq!(Number::from_str(" ACE "), Ok(Number::Ace));
}

#[test]
fn number_rejects_unknown_word() {
    assert_eq!(
        Number::from_str(" One "),
        Err("' One ' is not a valid value for Number".to_string())
    );
}

#[test]
fn token_lookup_takes_prepared_text() {
    assert_eq!(Suit::from_token("heart"), Some(Suit::Heart));
    assert_eq!(Suit::from_token("Heart"), None);
    assert_eq!(Number::from_token("queen"), Some(Number::Queen));
    assert_eq!(Number::from_token(" queen"), None);
}

#[test]
fn names_match_listing() {
    assert_eq!(Suit::Club.name(), "Club");
    assert_eq!(Number::Seven.name(), "Seven");
}

#[test]
fn listing_names_parse_back() {
    for s in [Suit::Club, Suit::Diamond, Suit::Heart, Suit::Spade] {
        assert_eq!(Suit::from_str(s.name()), Ok(s));
        assert_eq!(Suit::from_str(&format!(" {} ", s.name()).to_uppercase()), Ok(s));
    }
    assert_eq!(Number::from_str(Number::Jack.name()), Ok(Number::Jack));
    assert_eq!(
        Number::from_str("10"),
        Err("'10' is not a valid value for Number".to_string())
    );
}
