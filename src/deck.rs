use vstd::prelude::*;
use rand::seq::SliceRandom;
use crate::card::{Card, Rank, Suit, canonical_deck, card_at, lemma_canonical_deck};
use crate::hand::{Hand, HandOwner, HandStatus};

verus! {

/// An ordered pile of distinct cards; cards are drawn from its end.
#[derive(Debug)]
pub struct Deck {
    cards: Vec<Card>,
}

/// `after` is a reordering of `before`.
pub open spec fn is_permutation(before: Seq<Card>, after: Seq<Card>) -> bool {
    after.to_multiset() == before.to_multiset()
}

/// One draw: the last card leaves a non-empty deck; an empty deck is first
/// replaced by a full, freshly shuffled one, whose last card is then drawn.
pub open spec fn draw_step(before: Seq<Card>, after: Seq<Card>, card: Card) -> bool {
    if before.len() > 0 {
        card == before.last() && after == before.drop_last()
    } else {
        after.len() == 51 && is_permutation(canonical_deck(), after.push(card))
    }
}

/// `cards` are the top cards of `before` in the order they were drawn, and
/// `after` is what remains of it.
pub open spec fn dealt_from(before: Seq<Card>, after: Seq<Card>, cards: Seq<Card>) -> bool {
    &&& cards.len() <= before.len()
    &&& after == before.take(before.len() - cards.len())
    &&& forall|j: int| 0 <= j < cards.len() ==> #[trigger] cards[j] == before[before.len() - 1 - j]
}

proof fn lemma_draws_shrink(decks: Seq<Seq<Card>>, drawn: Seq<Card>, i: int)
    requires
        0 <= i <= 52,
        decks.len() > 52,
        drawn.len() >= 52,
        decks[0].len() == 52,
        forall|j: int| 0 <= j < 52 ==> draw_step(#[trigger] decks[j], decks[j + 1], drawn[j]),
    ensures
        decks[i].len() == 52 - i,
        decks[i].to_multiset().add(drawn.take(i).to_multiset()) == decks[0].to_multiset(),
    decreases i,
{
    broadcast use vstd::seq_lib::group_to_multiset_ensures;
    if i > 0 {
        lemma_draws_shrink(decks, drawn, i - 1);
        assert(draw_step(decks[i - 1], decks[i], drawn[i - 1]));
        assert(decks[i - 1] =~= decks[i].push(drawn[i - 1]));
        assert(drawn.take(i) =~= drawn.take(i - 1).push(drawn[i - 1]));
        assert(decks[i].to_multiset().add(drawn.take(i).to_multiset()) =~= decks[0].to_multiset());
    } else {
        assert(drawn.take(0) =~= Seq::<Card>::empty());
        assert(decks[0].to_multiset().add(drawn.take(0).to_multiset()) =~= decks[0].to_multiset());
    }
}

/// Fifty-two draws from a full deck yield each canonical card once and empty
/// it, and the next draw still yields a card: the deck is refilled and 51
/// cards remain, which together with the drawn card make up the canonical 52.
pub proof fn lemma_exhaustion_refills(decks: Seq<Seq<Card>>, drawn: Seq<Card>)
    requires
        decks.len() == 54,
        drawn.len() == 53,
        is_permutation(canonical_deck(), decks[0]),
        forall|j: int| 0 <= j < 53 ==> draw_step(#[trigger] decks[j], decks[j + 1], drawn[j]),
    ensures
        is_permutation(canonical_deck(), drawn.take(52)),
        drawn.take(52).no_duplicates(),
        decks[52].len() == 0,
        decks[53].len() == 51,
        is_permutation(canonical_deck(), decks[53].push(drawn[52])),
{
    lemma_canonical_deck();
    decks[0].to_multiset_ensures();
    canonical_deck().to_multiset_ensures();
    assert(decks[0].len() == 52);
    lemma_draws_shrink(decks, drawn, 52);
    assert(decks[52] =~= Seq::<Card>::empty());
    decks[52].to_multiset_ensures();
    assert(decks[52].to_multiset() =~= vstd::multiset::Multiset::empty());
    assert(drawn.take(52).to_multiset() =~= decks[0].to_multiset()) by {
        broadcast use vstd::multiset::group_multiset_axioms;
    }
    lemma_permutation_keeps_distinct(canonical_deck(), drawn.take(52));
    assert(draw_step(decks[52], decks[53], drawn[52]));
}

/// Relies on rand's `SliceRandom::shuffle` with the thread-local generator:
/// it only swaps elements, so the result is a reordering of the input.
#[verifier::external_body]
fn shuffle_cards(cards: &mut Vec<Card>)
    ensures
        final(cards)@.to_multiset() == old(cards)@.to_multiset(),
{
    cards.shuffle(&mut rand::thread_rng());
}

/// A sequence that is a reordering of one without duplicates has none either.
pub proof fn lemma_permutation_keeps_distinct(before: Seq<Card>, after: Seq<Card>)
    requires
        before.no_duplicates(),
        is_permutation(before, after),
    ensures
        after.no_duplicates(),
        after.len() == before.len(),
        forall|c: Card| after.contains(c) == before.contains(c),
{
    before.to_multiset_ensures();
    after.to_multiset_ensures();
    before.lemma_multiset_has_no_duplicates();
    after.lemma_multiset_has_no_duplicates_conv();
    assert forall|c: Card| after.contains(c) == before.contains(c) by {
        assert(after.to_multiset().count(c) == before.to_multiset().count(c));
    }
}

/// The canonical 52 cards, in order.
fn canonical_cards() -> (r: Vec<Card>)
    ensures
        r@ == canonical_deck(),
{
    let mut cards: Vec<Card> = Vec::new();
    let mut s: u8 = 0;
    while s < 4
        invariant
            s <= 4,
            cards@.len() == 13 * s,
            forall|i: int| 0 <= i < cards@.len() ==> cards@[i] == card_at(i),
        decreases 4 - s,
    {
        let suit = Suit::from_index(s);
        let mut r: u8 = 0;
        while r < 13
            invariant
                s < 4,
                r <= 13,
                suit == crate::card::suit_at(s as int),
                cards@.len() == 13 * s + r,
                forall|i: int| 0 <= i < cards@.len() ==> cards@[i] == card_at(i),
            decreases 13 - r,
        {
            let rank = Rank::from_index(r);
            proof {
                let k = 13 * s + r;
                assert(k % 13 == r as int);
                assert(k / 13 == s as int);
            }
            cards.push(Card::new(rank, suit));
            r = r + 1;
        }
        s = s + 1;
    }
    assert(cards@ =~= canonical_deck());
    cards
}

impl Deck {
    /// The deck's cards, bottom first; the last one is drawn next.
    pub closed spec fn view(&self) -> Seq<Card> {
        self.cards@
    }

    /// Well-formed: no card occurs twice (so at most 52 are held).
    pub open spec fn wf(&self) -> bool {
        self.view().no_duplicates()
    }

    /// A full deck of the 52 distinct cards, shuffled once.
    pub fn new() -> (d: Deck)
        ensures
            d.wf(),
            d.view().len() == 52,
            is_permutation(canonical_deck(), d.view()),
            forall|c: Card| d.view().contains(c),
    {
        let mut d = Deck { cards: canonical_cards() };
        proof {
            lemma_canonical_deck();
        }
        d.shuffle(1);
        proof {
            lemma_permutation_keeps_distinct(canonical_deck(), d.view());
        }
        d
    }

    /// A deck holding exactly the given cards, the last of them on top.
    pub fn from_cards(cards: Vec<Card>) -> (d: Deck)
        requires
            cards@.no_duplicates(),
        ensures
            d.wf(),
            d.view() == cards@,
    {
        Deck { cards }
    }

    /// Number of cards left.
    pub fn len(&self) -> (r: usize)
        ensures
            r == self.view().len(),
    {
        self.cards.len()
    }

    /// Reorders the deck at random, `num` times over.
    pub fn shuffle(&mut self, num: u8)
        ensures
            is_permutation(old(self).view(), final(self).view()),
            old(self).wf() ==> final(self).wf(),
            num == 0 ==> final(self).view() == old(self).view(),
    {
        let ghost start = self.cards@;
        let mut i: u8 = 0;
        while i < num
            invariant
                i <= num,
                self.cards@.to_multiset() == start.to_multiset(),
                i == 0 ==> self.cards@ == start,
            decreases num - i,
        {
            shuffle_cards(&mut self.cards);
            i = i + 1;
        }
        proof {
            if old(self).wf() {
                lemma_permutation_keeps_distinct(start, self.cards@);
            }
        }
    }

    /// Deals a fresh, active two-card hand for `owner` from the top of the deck.
    pub fn new_hand(&mut self, owner: HandOwner) -> (h: Hand)
        requires
            old(self).wf(),
        ensures
            final(self).wf(),
            h.wf(),
            h.view().cards.len() == 2,
            h.view().status == HandStatus::Active,
            h.view().owner == owner,
            exists|mid: Seq<Card>|
                draw_step(old(self).view(), mid, h.view().cards[0]) && draw_step(
                    mid,
                    final(self).view(),
                    h.view().cards[1],
                ),
            old(self).view().len() >= 2 ==> {
                &&& h.view().cards == seq![
                    old(self).view().last(),
                    old(self).view()[old(self).view().len() - 2],
                ]
                &&& final(self).view() == old(self).view().take(old(self).view().len() - 2)
            },
    {
        let first = self.draw();
        let ghost mid = self.view();
        let second = self.draw();
        let h = Hand::new(owner, first, second);
        assert(draw_step(old(self).view(), mid, h.view().cards[0]));
        proof {
            let start = old(self).view();
            if start.len() >= 2 {
                assert(self.view() =~= start.take(start.len() - 2));
                assert(h.view().cards =~= seq![start.last(), start[start.len() - 2]]);
            }
        }
        h
    }

    /// Removes and returns the top card; an empty deck is first replaced by a
    /// full shuffled one, so a draw never fails.
    pub fn draw(&mut self) -> (c: Card)
        requires
            old(self).wf(),
        ensures
            final(self).wf(),
            draw_step(old(self).view(), final(self).view(), c),
    {
        if self.cards.len() == 0 {
            *self = Deck::new();
        }
        let ghost full = self.cards@;
        let c = self.cards.pop().unwrap();
        proof {
            assert(full =~= self.cards@.push(c));
            assert(self.cards@ =~= full.drop_last());
        }
        c
    }
}

} // verus!
