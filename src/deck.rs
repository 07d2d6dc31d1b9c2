use vstd::prelude::*;
use vstd::arithmetic::div_mod::lemma_fundamental_div_mod_converse;
use rand::seq::SliceRandom;
use crate::card::{Card, Number, Suit, group_card, number_at, number_name, suit_at, suit_name};

verus! {

broadcast use group_card;

/// The cards that remain to be dealt. The last card is the top of the deck.
#[derive(Debug)]
pub struct Deck(pub Vec<Card>);

impl View for Deck {
    type V = Seq<Card>;

    open spec fn view(&self) -> Seq<Card> {
        self.0@
    }
}

/// The card at position `i` of a freshly built deck: suits in declaration
/// order, and within each suit the ranks in declaration order.
pub open spec fn full_deck_card(i: int) -> Card {
    Card::make(number_at(i % 13), suit_at(i / 13))
}

/// A freshly built deck.
pub open spec fn full_deck() -> Seq<Card> {
    Seq::new(52, |i: int| full_deck_card(i))
}

/// Position of the first occurrence of `c` in `s`, or `s.len()` when absent.
pub open spec fn first_index_of(s: Seq<Card>, c: Card) -> int
    decreases s.len(),
{
    if s.len() == 0 {
        0
    } else if s[0] == c {
        0
    } else {
        1 + first_index_of(s.drop_first(), c)
    }
}

/// `s` without its first occurrence of `c`; `s` itself when `c` is absent.
pub open spec fn remove_first(s: Seq<Card>, c: Card) -> Seq<Card> {
    if s.contains(c) {
        s.remove(first_index_of(s, c))
    } else {
        s
    }
}

proof fn lemma_first_index_of(s: Seq<Card>, c: Card, i: int)
    requires
        0 <= i < s.len(),
        s[i] == c,
        forall|j: int| 0 <= j < i ==> s[j] != c,
    ensures
        first_index_of(s, c) == i,
    decreases i,
{
    if i > 0 {
        assert(s[0] != c);
        lemma_first_index_of(s.drop_first(), c, i - 1);
    }
}

/// A card taken out of `s` by identity leaves one occurrence fewer of it.
pub proof fn lemma_remove_first_multiset(s: Seq<Card>, c: Card)
    ensures
        remove_first(s, c).to_multiset() == s.to_multiset().remove(c),
        s.contains(c) ==> remove_first(s, c).len() == s.len() - 1,
        !s.contains(c) ==> remove_first(s, c) == s,
{
    broadcast use vstd::seq_lib::group_to_multiset_ensures;
    if s.contains(c) {
        let k = choose|k: int| 0 <= k < s.len() && s[k] == c;
        lemma_first_in_range(s, c, k);
        assert(s.remove(first_index_of(s, c)).to_multiset() == s.to_multiset().remove(
            s[first_index_of(s, c)],
        ));
    } else {
        assert(s.to_multiset().count(c) == 0);
        assert(s.to_multiset().remove(c) =~= s.to_multiset());
    }
}

proof fn lemma_first_in_range(s: Seq<Card>, c: Card, k: int)
    requires
        0 <= k < s.len(),
        s[k] == c,
    ensures
        0 <= first_index_of(s, c) <= k,
        s[first_index_of(s, c)] == c,
        forall|j: int| 0 <= j < first_index_of(s, c) ==> s[j] != c,
    decreases s.len(),
{
    if s[0] != c {
        lemma_first_in_range(s.drop_first(), c, k - 1);
        assert forall|j: int| 0 <= j < first_index_of(s, c) implies s[j] != c by {
            if j > 0 {
                assert(s[j] == s.drop_first()[j - 1]);
            }
        }
    }
}

/// The first `n` cards dealt from the top of `s`: its last card first.
pub open spec fn top_cards(s: Seq<Card>, n: int) -> Seq<Card> {
    Seq::new(n as nat, |i: int| s[s.len() - 1 - i])
}

/// `s` after dealing, one at a time and in order, each card of `l` by identity.
pub open spec fn remove_each(s: Seq<Card>, l: Seq<Card>) -> Seq<Card>
    decreases l.len(),
{
    if l.len() == 0 {
        s
    } else {
        remove_first(remove_each(s, l.drop_last()), l.last())
    }
}

/// Dealing the cards of `l` one by one from a deck that holds all of them
/// (as many times as `l` names them) never misses, and takes out exactly
/// those cards.
pub proof fn lemma_remove_each_multiset(s: Seq<Card>, l: Seq<Card>)
    requires
        l.to_multiset().subset_of(s.to_multiset()),
    ensures
        remove_each(s, l).to_multiset() == s.to_multiset().sub(l.to_multiset()),
        remove_each(s, l).len() == s.len() - l.len(),
        l.len() > 0 ==> remove_each(s, l.drop_last()).contains(l.last()),
    decreases l.len(),
{
    broadcast use vstd::seq_lib::group_to_multiset_ensures;
    broadcast use vstd::multiset::group_multiset_axioms;

    if l.len() == 0 {
        assert(s.to_multiset().sub(l.to_multiset()) =~= s.to_multiset());
    } else {
        let p = l.drop_last();
        let x = l.last();
        assert(l == p.push(x));
        assert(l.to_multiset() == p.to_multiset().insert(x));
        lemma_remove_each_multiset(s, p);
        let r = remove_each(s, p);
        assert(r.to_multiset().count(x) > 0);
        lemma_remove_first_multiset(r, x);
        assert(remove_each(s, l).to_multiset() =~= s.to_multiset().sub(l.to_multiset()));
        assert(l.len() == l.to_multiset().len());
    }
}

/// Within a request whose cards the deck all holds, each card in turn is
/// still there when its turn comes.
proof fn lemma_prefix_dealable(s: Seq<Card>, l: Seq<Card>, k: int)
    requires
        l.to_multiset().subset_of(s.to_multiset()),
        0 <= k < l.len(),
    ensures
        remove_each(s, l.take(k)).contains(l[k]),
{
    broadcast use vstd::multiset::group_multiset_axioms;

    let p = l.take(k + 1);
    assert(l == p + l.skip(k + 1));
    vstd::seq_lib::lemma_multiset_commutative(p, l.skip(k + 1));
    assert(p.to_multiset().subset_of(s.to_multiset()));
    lemma_remove_each_multiset(s, p);
    assert(p.drop_last() == l.take(k));
}

/// The listing line of one card: its rank, a space, its suit.
pub open spec fn card_line(c: Card) -> Seq<char> {
    number_name(c.number_of()) + " "@ + suit_name(c.suit_of()) + "\n"@
}

/// The listing of a deck: one line per card, bottom card first.
pub open spec fn listing(s: Seq<Card>) -> Seq<char>
    decreases s.len(),
{
    if s.len() == 0 {
        Seq::empty()
    } else {
        listing(s.drop_last()) + card_line(s.last())
    }
}

/// Whether some card of `s` answers the query `q`.
pub open spec fn any_match(s: Seq<Card>, q: (Option<Suit>, Option<Number>)) -> bool {
    exists|i: int| 0 <= i < s.len() && matches_query(#[trigger] s[i], q)
}

/// Whether card `c` answers the query `q`: a suit, a rank, or both; a part
/// that is absent matches any card.
pub open spec fn matches_query(c: Card, q: (Option<Suit>, Option<Number>)) -> bool {
    &&& match q.0 {
        Some(s) => c.suit_of() == s,
        None => true,
    }
    &&& match q.1 {
        Some(n) => c.number_of() == n,
        None => true,
    }
}

/// Relies on rand's `SliceRandom::shuffle` with the thread-local generator:
/// it only swaps elements, so the cards stay the same and only their order
/// changes.
#[verifier::external_body]
fn shuffle_cards(cards: &mut Vec<Card>)
    ensures
        final(cards)@.to_multiset() == old(cards)@.to_multiset(),
{
    cards.shuffle(&mut rand::thread_rng());
}

/// Position of the first card equal to `c`, if any.
fn position_of(cards: &Vec<Card>, c: Card) -> (r: Option<usize>)
    ensures
        match r {
            Some(i) => {
                &&& i < cards@.len()
                &&& cards@[i as int] == c
                &&& forall|j: int| 0 <= j < i ==> cards@[j] != c
            },
            None => !cards@.contains(c),
        },
{
    let mut i: usize = 0;
    while i < cards.len()
        invariant
            i <= cards@.len(),
            forall|j: int| 0 <= j < i ==> cards@[j] != c,
        decreases cards@.len() - i,
    {
        if cards[i] == c {
            return Some(i);
        }
        i += 1;
    }
    None
}

impl Deck {
    /// Puts the cards in a random order; the same cards remain.
    pub fn shuffle(&mut self)
        ensures
            final(self)@.to_multiset() == old(self)@.to_multiset(),
            final(self)@.len() == old(self)@.len(),
    {
        shuffle_cards(&mut self.0);
        proof {
            self@.to_multiset_ensures();
            old(self)@.to_multiset_ensures();
        }
    }

    /// Deals one card. With `Some(c)`, takes out the first card equal to `c`
    /// and returns it, or returns `None` and leaves the deck alone when there
    /// is none. With `None`, takes the top (last) card, or returns `None` when
    /// the deck is empty.
    pub fn deal(&mut self, card: Option<Card>) -> (r: Option<Card>)
        ensures
            match card {
                Some(c) => {
                    &&& final(self)@ == remove_first(old(self)@, c)
                    &&& r == if old(self)@.contains(c) {
                        Some(c)
                    } else {
                        None::<Card>
                    }
                },
                None => if old(self)@.len() > 0 {
                    &&& r == Some(old(self)@.last())
                    &&& final(self)@ == old(self)@.drop_last()
                } else {
                    &&& r is None
                    &&& final(self)@ == old(self)@
                },
            },
    {
        match card {
            Some(c) => match position_of(&self.0, c) {
                Some(i) => {
                    proof {
                        lemma_first_index_of(self@, c, i as int);
                    }
                    Some(self.0.remove(i))
                },
                None => None,
            },
            None => self.0.pop(),
        }
    }

    /// Deals several cards into a hand. With `Some(list)`, deals each card of
    /// the list by identity, in list order; the deck must hold them all. With
    /// `None`, deals `n_cards` cards from the top; the deck must hold that many.
    pub fn deal_n(&mut self, cards: Option<Vec<Card>>, n_cards: usize) -> (hand: Vec<Card>)
        requires
            match cards {
                Some(list) => list@.to_multiset().subset_of(old(self)@.to_multiset()),
                None => n_cards <= old(self)@.len(),
            },
        ensures
            match cards {
                Some(list) => {
                    &&& hand@ == list@
                    &&& final(self)@ == remove_each(old(self)@, list@)
                    &&& final(self)@.to_multiset() == old(self)@.to_multiset().sub(list@.to_multiset())
                    &&& final(self)@.len() == old(self)@.len() - list@.len()
                },
                None => {
                    &&& hand@ == top_cards(old(self)@, n_cards as int)
                    &&& final(self)@ == old(self)@.take(old(self)@.len() - n_cards)
                    &&& hand@.len() == n_cards
                    &&& final(self)@.len() == old(self)@.len() - n_cards
                },
            },
    {
        let mut hand: Vec<Card> = Vec::with_capacity(n_cards);
        match cards {
            Some(list) => {
                let mut k: usize = 0;
                while k < list.len()
                    invariant
                        k <= list@.len(),
                        list@.to_multiset().subset_of(old(self)@.to_multiset()),
                        hand@ == list@.take(k as int),
                        self@ == remove_each(old(self)@, list@.take(k as int)),
                    decreases list@.len() - k,
                {
                    let c = list[k];
                    proof {
                        lemma_prefix_dealable(old(self)@, list@, k as int);
                        assert(list@.take(k + 1).drop_last() == list@.take(k as int));
                    }
                    if let Some(x) = self.deal(Some(c)) {
                        hand.push(x);
                    }
                    assert(hand@ == list@.take(k + 1));
                    k += 1;
                }
                proof {
                    assert(list@.take(list@.len() as int) == list@);
                    lemma_remove_each_multiset(old(self)@, list@);
                }
            },
            None => {
                let mut k: usize = 0;
                while k < n_cards
                    invariant
                        k <= n_cards <= old(self)@.len(),
                        hand@ == top_cards(old(self)@, k as int),
                        self@ == old(self)@.take(old(self)@.len() - k),
                    decreases n_cards - k,
                {
                    if let Some(x) = self.deal(None) {
                        hand.push(x);
                    }
                    assert(hand@ =~= top_cards(old(self)@, k + 1));
                    k += 1;
                }
            },
        }
        hand
    }

    /// The deck as text: one line per card, "<rank> <suit>", bottom card
    /// first.
    pub fn render(&self) -> (r: String)
        ensures
            r@ == listing(self@),
    {
        let mut out = String::new();
        let mut i: usize = 0;
        while i < self.0.len()
            invariant
                i <= self@.len(),
                out@ == listing(self@.take(i as int)),
            decreases self@.len() - i,
        {
            let card = self.0[i];
            out.append(card.get_number().name());
            out.append(" ");
            out.append(card.get_suit().name());
            out.append("\n");
            assert(self@.take(i + 1).drop_last() == self@.take(i as int));
            i += 1;
        }
        assert(self@.take(self@.len() as int) == self@);
        out
    }

    /// Number of cards left.
    pub fn size(&self) -> (r: usize)
        ensures
            r == self@.len(),
    {
        self.0.len()
    }

    /// Whether some card answers the query: the suit, the rank, or both.
    /// At least one of them must be given.
    pub fn has_card(&self, pair: (Option<Suit>, Option<Number>)) -> (r: bool)
        requires
            pair.0 is Some || pair.1 is Some,
        ensures
            r == any_match(self@, pair),
    {
        let mut i: usize = 0;
        while i < self.0.len()
            invariant
                i <= self@.len(),
                forall|j: int| 0 <= j < i ==> !matches_query(#[trigger] self@[j], pair),
            decreases self@.len() - i,
        {
            let card = self.0[i];
            let suit_ok = match pair.0 {
                Some(suit) => card.get_suit() == suit,
                None => true,
            };
            let number_ok = match pair.1 {
                Some(number) => card.get_number() == number,
                None => true,
            };
            let hit = suit_ok && number_ok;
            if hit {
                return true;
            }
            i += 1;
        }
        false
    }
}

/// Builds a full deck of 52 cards, in declaration order of suits and, within
/// each suit, of ranks.
pub fn generate_deck() -> (deck: Deck)
    ensures
        deck@ == full_deck(),
{
    let suits: [Suit; 4] = [Suit::Club, Suit::Diamond, Suit::Heart, Suit::Spade];
    let numbers: [Number; 13] = [
        Number::Two,
        Number::Three,
        Number::Four,
        Number::Five,
        Number::Six,
        Number::Seven,
        Number::Eight,
        Number::Nine,
        Number::Ten,
        Number::Jack,
        Number::Queen,
        Number::King,
        Number::Ace,
    ];
    assert(forall|i: int| 0 <= i < 4 ==> suits@[i] == suit_at(i));
    assert(forall|i: int| 0 <= i < 13 ==> numbers@[i] == number_at(i));
    let mut deck = Deck(Vec::with_capacity(52));
    let mut si: usize = 0;
    while si < 4
        invariant
            si <= 4,
            deck@.len() == 13 * si,
            forall|k: int| 0 <= k < deck@.len() ==> deck@[k] == full_deck_card(k),
            forall|i: int| 0 <= i < 4 ==> suits@[i] == suit_at(i),
            forall|i: int| 0 <= i < 13 ==> numbers@[i] == number_at(i),
        decreases 4 - si,
    {
        let mut ni: usize = 0;
        while ni < 13
            invariant
                si < 4,
                ni <= 13,
                deck@.len() == 13 * si + ni,
                forall|k: int| 0 <= k < deck@.len() ==> deck@[k] == full_deck_card(k),
                forall|i: int| 0 <= i < 4 ==> suits@[i] == suit_at(i),
                forall|i: int| 0 <= i < 13 ==> numbers@[i] == number_at(i),
            decreases 13 - ni,
        {
            proof {
                lemma_fundamental_div_mod_converse(
                    13 * si + ni,
                    13,
                    si as int,
                    ni as int,
                );
            }
            deck.0.push(Card::new(numbers[ni], suits[si]));
            ni += 1;
        }
        si += 1;
    }
    assert(deck@ =~= full_deck());
    deck
}

} // verus!
