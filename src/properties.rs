use vstd::prelude::*;
use vstd::multiset::Multiset;
use vstd::arithmetic::div_mod::{
    lemma_fundamental_div_mod, lemma_fundamental_div_mod_converse, lemma_mod_pos_bound,
};
use crate::card::{
    Card, Number, Suit, group_card, lemma_number_index, lemma_suit_index, number_at, number_index, suit_at,
    suit_index,
};
use crate::deck::{
    any_match, full_deck, full_deck_card, lemma_remove_each_multiset,
    lemma_remove_first_multiset, matches_query, remove_each, remove_first, top_cards,
};

verus! {

broadcast use group_card;

/// The suit and rank positions of a position of the full deck.
proof fn lemma_split_position(i: int)
    requires
        0 <= i < 52,
    ensures
        0 <= i / 13 < 4,
        0 <= i % 13 < 13,
        i == 13 * (i / 13) + i % 13,
{
    lemma_fundamental_div_mod(i, 13);
    lemma_mod_pos_bound(i, 13);
    let q = i / 13;
    let r = i % 13;
    assert(0 <= q < 4) by (nonlinear_arith)
        requires
            i == 13 * q + r,
            0 <= r < 13,
            0 <= i < 52,
    ;
}

proof fn lemma_suit_at(i: int)
    requires
        0 <= i < 4,
    ensures
        suit_index(suit_at(i)) == i,
{
}

proof fn lemma_number_at(i: int)
    requires
        0 <= i < 13,
    ensures
        number_index(number_at(i)) == i,
{
}

/// Whether some card of `s` has suit `st` and rank `n`.
pub open spec fn has_pair(s: Seq<Card>, st: Suit, n: Number) -> bool {
    exists|i: int| 0 <= i < s.len() && (#[trigger] s[i]).suit_of() == st && s[i].number_of() == n
}

/// A freshly built deck has 52 cards, no two alike, and every card of the
/// 4 x 13 combinations, that is every suit with every rank, is among them.
pub proof fn lemma_full_deck()
    ensures
        full_deck().len() == 52,
        full_deck().no_duplicates(),
        forall|c: Card| #[trigger] full_deck().contains(c),
        forall|st: Suit, n: Number| #[trigger] has_pair(full_deck(), st, n),
{
    assert forall|i: int, j: int|
        0 <= i < 52 && 0 <= j < 52 && i != j implies full_deck()[i] != full_deck()[j] by {
        lemma_split_position(i);
        lemma_split_position(j);
        if full_deck_card(i) == full_deck_card(j) {
            lemma_suit_at(i / 13);
            lemma_suit_at(j / 13);
            lemma_number_at(i % 13);
            lemma_number_at(j % 13);
            assert(full_deck_card(i).suit_of() == suit_at(i / 13));
            assert(full_deck_card(j).suit_of() == suit_at(j / 13));
            assert(full_deck_card(i).number_of() == number_at(i % 13));
            assert(full_deck_card(j).number_of() == number_at(j % 13));
            assert(i / 13 == j / 13);
            assert(i % 13 == j % 13);
        }
    }
    assert forall|c: Card| #[trigger] full_deck().contains(c) by {
        let q = suit_index(c.suit_of());
        let r = number_index(c.number_of());
        lemma_suit_index(c.suit_of());
        lemma_number_index(c.number_of());
        lemma_fundamental_div_mod_converse(13 * q + r, 13, q, r);
        assert(full_deck()[13 * q + r] == c);
    }
    assert forall|st: Suit, n: Number| #[trigger] has_pair(full_deck(), st, n) by {
        let c = Card::make(n, st);
        assert(full_deck().contains(c));
        let i = choose|i: int| 0 <= i < 52 && full_deck()[i] == c;
        assert(full_deck()[i].suit_of() == st);
    }
}

/// Dealing a card by identity that the deck holds takes out exactly one
/// occurrence of it, so the deck is one card smaller, and afterwards a query
/// for its suit and rank answers true only if the deck held it twice or more.
pub proof fn lemma_deal_present_card(s: Seq<Card>, c: Card)
    requires
        s.contains(c),
    ensures
        remove_first(s, c).len() == s.len() - 1,
        remove_first(s, c).to_multiset() == s.to_multiset().remove(c),
        any_match(remove_first(s, c), (Some(c.suit_of()), Some(c.number_of())))
            <==> s.to_multiset().count(c) > 1,
{
    broadcast use vstd::seq_lib::group_to_multiset_ensures;
    broadcast use vstd::multiset::group_multiset_axioms;

    lemma_remove_first_multiset(s, c);
    let t = remove_first(s, c);
    let q = (Some(c.suit_of()), Some(c.number_of()));
    assert forall|d: Card| matches_query(d, q) <==> d == c by {
        if matches_query(d, q) {
            assert(Card::make(d.number_of(), d.suit_of()) == d);
        }
    }
    if any_match(t, q) {
        let i = choose|i: int| 0 <= i < t.len() && matches_query(#[trigger] t[i], q);
        assert(t[i] == c);
        assert(t.to_multiset().count(c) > 0);
    }
    if s.to_multiset().count(c) > 1 {
        assert(t.to_multiset().count(c) > 0);
        assert(t.contains(c));
        let i = choose|i: int| 0 <= i < t.len() && t[i] == c;
        assert(matches_query(t[i], q));
    }
}

/// Dealing from the top until the deck is empty: each deal hands out the
/// current last card and leaves the rest, so after `k` deals the hand is
/// `top_cards(s, k)` and the deck is the first `s.len() - k` cards. Once the
/// deck is empty the hand is the deck reversed and holds each of its cards as
/// many times as the deck did.
pub proof fn lemma_deal_until_empty(s: Seq<Card>)
    ensures
        forall|k: int|
            0 <= k < s.len() ==> {
                &&& #[trigger] top_cards(s, k).push(s.take(s.len() - k).last()) == top_cards(s, k + 1)
                &&& s.take(s.len() - k).drop_last() == s.take(s.len() - k - 1)
            },
        top_cards(s, s.len() as int) == s.reverse(),
        top_cards(s, s.len() as int).to_multiset() == s.to_multiset(),
    decreases s.len(),
{
    broadcast use vstd::seq_lib::group_to_multiset_ensures;
    broadcast use vstd::multiset::group_multiset_axioms;

    assert forall|k: int| 0 <= k < s.len() implies {
        &&& #[trigger] top_cards(s, k).push(s.take(s.len() - k).last()) == top_cards(s, k + 1)
        &&& s.take(s.len() - k).drop_last() == s.take(s.len() - k - 1)
    } by {
        assert(top_cards(s, k).push(s.take(s.len() - k).last()) =~= top_cards(s, k + 1));
        assert(s.take(s.len() - k).drop_last() =~= s.take(s.len() - k - 1));
    }
    assert(top_cards(s, s.len() as int) =~= s.reverse());
    if s.len() > 0 {
        let p = s.drop_last();
        lemma_deal_until_empty(p);
        assert(top_cards(s, s.len() as int) =~= seq![s.last()] + top_cards(p, p.len() as int));
        vstd::seq_lib::lemma_multiset_commutative(
            seq![s.last()],
            top_cards(p, p.len() as int),
        );
        assert(s == p.push(s.last()));
        assert(seq![s.last()].to_multiset() =~= Multiset::empty().insert(s.last()));
        assert(top_cards(s, s.len() as int).to_multiset() =~= s.to_multiset());
    } else {
        assert(top_cards(s, 0) =~= s);
    }
}

/// The (suit, rank) pair of each card of `s`, in order.
pub open spec fn pairs(s: Seq<Card>) -> Seq<(Suit, Number)> {
    s.map_values(|c: Card| (c.suit_of(), c.number_of()))
}

/// A (suit, rank) pair occurs in `pairs(s)` as often as its card occurs in `s`.
pub proof fn lemma_pairs_count(s: Seq<Card>, c: Card)
    ensures
        pairs(s).to_multiset().count((c.suit_of(), c.number_of())) == s.to_multiset().count(c),
    decreases s.len(),
{
    broadcast use vstd::seq_lib::group_to_multiset_ensures;
    broadcast use vstd::multiset::group_multiset_axioms;

    if s.len() == 0 {
        assert(pairs(s) =~= Seq::<(Suit, Number)>::empty());
    } else {
        let p = s.drop_last();
        let d = s.last();
        lemma_pairs_count(p, c);
        assert(s == p.push(d));
        assert(pairs(s) =~= pairs(p).push((d.suit_of(), d.number_of())));
        if (d.suit_of(), d.number_of()) == (c.suit_of(), c.number_of()) {
            assert(Card::make(d.number_of(), d.suit_of()) == d);
            assert(Card::make(c.number_of(), c.suit_of()) == c);
        }
    }
}

/// Two decks with the same cards, in whatever order, hold the same
/// (suit, rank) pairs as often; so a shuffle keeps the pairs.
pub proof fn lemma_same_cards_same_pairs(a: Seq<Card>, b: Seq<Card>)
    requires
        a.to_multiset() == b.to_multiset(),
    ensures
        pairs(a).to_multiset() == pairs(b).to_multiset(),
        pairs(a).len() == pairs(b).len(),
{
    broadcast use vstd::seq_lib::group_to_multiset_ensures;

    assert forall|q: (Suit, Number)| pairs(a).to_multiset().count(q) == pairs(b).to_multiset().count(q) by {
        let c = Card::make(q.1, q.0);
        lemma_pairs_count(a, c);
        lemma_pairs_count(b, c);
    }
    assert(pairs(a).to_multiset() =~= pairs(b).to_multiset());
    assert(a.len() == a.to_multiset().len());
    assert(b.len() == b.to_multiset().len());
}

/// Dealing a list of cards that the deck holds takes out exactly the
/// (suit, rank) pairs of the list.
pub proof fn lemma_deal_list_pairs(s: Seq<Card>, l: Seq<Card>)
    requires
        l.to_multiset().subset_of(s.to_multiset()),
    ensures
        pairs(remove_each(s, l)).to_multiset() == pairs(s).to_multiset().sub(
            pairs(l).to_multiset(),
        ),
{
    broadcast use vstd::multiset::group_multiset_axioms;

    lemma_remove_each_multiset(s, l);
    let r = remove_each(s, l);
    assert forall|q: (Suit, Number)|
        pairs(r).to_multiset().count(q) == pairs(s).to_multiset().sub(
            pairs(l).to_multiset(),
        ).count(q) by {
        let c = Card::make(q.1, q.0);
        lemma_pairs_count(r, c);
        lemma_pairs_count(s, c);
        lemma_pairs_count(l, c);
    }
    assert(pairs(r).to_multiset() =~= pairs(s).to_multiset().sub(pairs(l).to_multiset()));
}

} // verus!
