use cards_lib::card::{Card, Number, Suit};
use cards_lib::deck::{generate_deck, Deck};

const SUITS: [Suit; 4] = [Suit::Club, Suit::Diamond, Suit::Heart, Suit::Spade];
const NUMBERS: [Number; 13] = [
    Number::Two,
    Number::Three,
    Number::Four,
    Number::Five,
    Number::Six,
    Number::Seven,
    Number::Eight,
    Number::Nine,
    Number::Ten,
    Number::Jack,
    Number::Queen,
    Number::King,
    Number::Ace,
];

fn key(c: &Card) -> (usize, usize) {
    let s = SUITS.iter().position(|x| *x == c.get_suit()).unwrap();
    let n = NUMBERS.iter().position(|x| *x == c.get_number()).unwrap();
    (s, n)
}

fn sorted_keys(cards: &[Card]) -> Vec<(usize, usize)> {
    let mut keys: Vec<(usize, usize)> = cards.iter().map(key).collect();
    keys.sort();
    keys
}

#[test]
fn fresh_deck_has_every_card_once() {
    let mut deck = generate_deck();
    assert_eq!(deck.size(), 52);
    let keys = sorted_keys(&deck.0);
    let mut expected = Vec::new();
    for s in 0..4 {
        for n in 0..13 {
            expected.push((s, n));
        }
    }
    assert_eq!(keys, expected);
    assert_eq!(deck.deal(None), Some(Card::new(Number::Ace, Suit::Spade)));
}

#[test]
fn fresh_deck_is_in_declaration_order() {
    let deck = generate_deck();
    assert_eq!(deck.0[0], Card::new(Number::Two, Suit::Club));
    assert_eq!(deck.0[12], Card::new(Number::Ace, Suit::Club));
    assert_eq!(deck.0[13], Card::new(Number::Two, Suit::Diamond));
    assert_eq!(deck.0[51], Card::new(Number::Ace, Suit::Spade));
}

#[test]
fn card_getters_return_fields() {
    let c = Card::new(Number::Queen, Suit::Heart);
    assert_eq!(c.get_number(), Number::Queen);
    assert_eq!(c.get_suit(), Suit::Heart);
}

#[test]
fn deal_named_card_removes_one_occurrence() {
    let mut deck = generate_deck();
    let c = Card::new(Number::Seven, Suit::Diamond);
    assert_eq!(deck.deal(Some(c)), Some(c));
    assert_eq!(deck.size(), 51);
    assert!(!deck.has_card((Some(Suit::Diamond), Some(Number::Seven))));
    assert!(deck.has_card((Some(Suit::Diamond), Some(Number::Six))));
    assert_eq!(deck.0[18], Card::new(Number::Eight, Suit::Diamond));
}

#[test]
fn deal_named_card_with_duplicate_keeps_other() {
    let c = Card::new(Number::King, Suit::Club);
    let d = Card::new(Number::Two, Suit::Heart);
    let mut deck = Deck(vec![d, c, d, c]);
    assert_eq!(deck.deal(Some(c)), Some(c));
    assert_eq!(deck.0, vec![d, d, c]);
    assert!(deck.has_card((Some(Suit::Club), Some(Number::King))));
}

#[test]
fn deal_missing_card_returns_none() {
    let mut deck = generate_deck();
    let c = Card::new(Number::Three, Suit::Spade);
    assert_eq!(deck.deal(Some(c)), Some(c));
    assert_eq!(deck.deal(Some(c)), None);
    assert_eq!(deck.size(), 51);
}

#[test]
fn deal_from_top_until_empty() {
    let mut deck = generate_deck();
    let before = deck.0.clone();
    let mut dealt = Vec::new();
    while deck.size() > 0 {
        dealt.push(deck.deal(None).unwrap());
    }
    assert_eq!(dealt.len(), 52);
    let mut reversed = before.clone();
    reversed.reverse();
    assert_eq!(dealt, reversed);
    assert_eq!(sorted_keys(&dealt), sorted_keys(&before));
}

#[test]
fn deal_from_empty_deck_returns_none() {
    let mut deck = Deck(Vec::new());
    assert_eq!(deck.deal(None), None);
    assert_eq!(deck.size(), 0);
}

#[test]
fn deal_n_from_top_leaves_rest() {
    for n in 0..=52usize {
        let mut deck = generate_deck();
        let hand = deck.deal_n(None, n);
        assert_eq!(hand.len(), n);
        assert_eq!(deck.size(), 52 - n);
        let fresh = generate_deck();
        for (i, c) in hand.iter().enumerate() {
            assert_eq!(*c, fresh.0[51 - i]);
        }
        assert_eq!(deck.0[..], fresh.0[..52 - n]);
    }
}

#[test]
fn has_card_hearts_until_all_dealt() {
    let mut deck = generate_deck();
    assert!(deck.has_card((Some(Suit::Heart), None)));
    for n in NUMBERS {
        assert!(deck.deal(Some(Card::new(n, Suit::Heart))).is_some());
    }
    assert!(!deck.has_card((Some(Suit::Heart), None)));
    assert!(deck.has_card((Some(Suit::Spade), None)));
    assert_eq!(deck.size(), 39);
}

#[test]
fn has_card_by_rank_only() {
    let mut deck = Deck(vec![Card::new(Number::Ten, Suit::Club)]);
    assert!(deck.has_card((None, Some(Number::Ten))));
    assert!(!deck.has_card((None, Some(Number::Jack))));
    assert!(!deck.has_card((Some(Suit::Heart), Some(Number::Ten))));
    deck.deal(None);
    assert!(!deck.has_card((None, Some(Number::Ten))));
}

#[test]
fn shuffle_keeps_the_same_cards() {
    let mut deck = generate_deck();
    let before = sorted_keys(&deck.0);
    deck.shuffle();
    assert_eq!(deck.size(), 52);
    assert_eq!(sorted_keys(&deck.0), before);
}

#[test]
fn deal_n_named_cards_in_request_order() {
    let mut deck = generate_deck();
    let wanted = vec![
        Card::new(Number::Ace, Suit::Spade),
        Card::new(Number::Two, Suit::Club),
        Card::new(Number::Jack, Suit::Heart),
    ];
    let hand = deck.deal_n(Some(wanted.clone()), 0);
    assert_eq!(hand, wanted);
    assert_eq!(deck.size(), 49);
    for c in &wanted {
        assert!(!deck.has_card((Some(c.get_suit()), Some(c.get_number()))));
    }
    assert_eq!(deck.0[0], Card::new(Number::Three, Suit::Club));
}

#[test]
fn render_lists_one_line_per_card() {
    let deck = Deck(vec![
        Card::new(Number::Ace, Suit::Spade),
        Card::new(Number::Ten, Suit::Diamond),
    ]);
    assert_eq!(deck.render(), "Ace Spade\nTen Diamond\n");
    assert_eq!(Deck(Vec::new()).render(), "");
}
