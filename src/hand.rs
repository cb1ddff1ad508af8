use vstd::prelude::*;
use crate::card::{Card, Rank, rank_points};
use crate::deck::{Deck, draw_step};

verus! {

/// Whether a hand may still draw, has stood, or (a dealer's) shows its hidden card.
#[derive(Clone, Copy, Debug, PartialEq, Eq, Structural)]
pub enum HandStatus {
    Active,
    Held,
    Revealed,
}

/// The role that owns a hand; a dealer's first card is hidden until revealed.
#[derive(Clone, Copy, Debug, PartialEq, Eq, Structural)]
pub enum HandOwner {
    Player,
    Dealer,
}

/// A hand's cards in the order they were dealt, its owner and its status.
#[derive(Debug)]
pub struct Hand {
    cards: Vec<Card>,
    status: HandStatus,
    owner: HandOwner,
}

/// What a hand holds, as mathematical values.
pub struct HandView {
    pub cards: Seq<Card>,
    pub status: HandStatus,
    pub owner: HandOwner,
}

/// Sum of the point values of the cards that are not aces.
pub open spec fn non_ace_sum(s: Seq<Card>) -> int
    decreases s.len(),
{
    if s.len() == 0 {
        0
    } else {
        non_ace_sum(s.drop_last()) + if s.last().rank == Rank::Ace {
            0
        } else {
            rank_points(s.last().rank) as int
        }
    }
}

/// Number of aces.
pub open spec fn ace_count(s: Seq<Card>) -> nat
    decreases s.len(),
{
    if s.len() == 0 {
        0
    } else {
        ace_count(s.drop_last()) + if s.last().rank == Rank::Ace {
            1nat
        } else {
            0nat
        }
    }
}

/// Adds `n` aces to `total` one at a time, each as 11 where that keeps the
/// total at most 21 and as 1 otherwise.
pub open spec fn resolve_aces(total: int, n: nat) -> int
    decreases n,
{
    if n == 0 {
        total
    } else if total + 11 > 21 {
        resolve_aces(total + 1, (n - 1) as nat)
    } else {
        resolve_aces(total + 11, (n - 1) as nat)
    }
}

/// Value of a hand: the non-aces at face, then each ace in turn soft or hard.
pub open spec fn hand_value(s: Seq<Card>) -> int {
    resolve_aces(non_ace_sum(s), ace_count(s))
}

/// Value of a hand with every ace counted as 1.
pub open spec fn hard_value(s: Seq<Card>) -> int {
    non_ace_sum(s) + ace_count(s)
}

/// Resolving aces one by one makes at most one of them soft.
pub proof fn lemma_resolve_aces(total: int, n: nat)
    requires
        total >= 0,
    ensures
        resolve_aces(total, n) == if n > 0 && total <= 10 {
            total + 10 + n
        } else {
            total + n
        },
    decreases n,
{
    if n > 0 {
        if total + 11 > 21 {
            lemma_resolve_aces(total + 1, (n - 1) as nat);
        } else {
            lemma_resolve_aces(total + 11, (n - 1) as nat);
        }
    }
}

pub proof fn lemma_non_ace_sum_nonneg(s: Seq<Card>)
    ensures
        non_ace_sum(s) >= 0,
    decreases s.len(),
{
    if s.len() > 0 {
        lemma_non_ace_sum_nonneg(s.drop_last());
    }
}

/// A hand's value is its hard value, plus ten when one ace can stay soft.
pub proof fn lemma_hand_value(s: Seq<Card>)
    ensures
        hand_value(s) == if ace_count(s) > 0 && non_ace_sum(s) <= 10 {
            hard_value(s) + 10
        } else {
            hard_value(s)
        },
        hand_value(s) >= hard_value(s),
        hard_value(s) >= non_ace_sum(s) >= 0,
{
    lemma_non_ace_sum_nonneg(s);
    lemma_resolve_aces(non_ace_sum(s), ace_count(s));
}

/// One more card raises the hard value by at least one and the value by at most eleven.
pub proof fn lemma_value_after_push(s: Seq<Card>, c: Card)
    ensures
        hard_value(s.push(c)) >= hard_value(s) + 1,
        hand_value(s.push(c)) <= hand_value(s) + 11,
{
    assert(s.push(c).drop_last() =~= s);
    lemma_hand_value(s);
    lemma_hand_value(s.push(c));
}

/// Any two cards are worth at most 21.
pub proof fn lemma_two_cards_value(s: Seq<Card>)
    requires
        s.len() == 2,
    ensures
        hand_value(s) <= 21,
{
    let one = s.drop_last();
    assert(one.drop_last() =~= Seq::<Card>::empty());
    assert(one.last() == s[0]);
    assert(non_ace_sum(one.drop_last()) == 0 && ace_count(one.drop_last()) == 0);
    assert(non_ace_sum(one) <= 10 && ace_count(one) <= 1);
    lemma_hand_value(s);
}

/// The sum over a prefix never exceeds the sum over a longer prefix.
proof fn lemma_non_ace_sum_prefix(s: Seq<Card>, i: int, j: int)
    requires
        0 <= i <= j <= s.len(),
    ensures
        non_ace_sum(s.take(i)) <= non_ace_sum(s.take(j)),
    decreases j - i,
{
    if i < j {
        assert(s.take(j).drop_last() =~= s.take(j - 1));
        lemma_non_ace_sum_prefix(s, i, j - 1);
    }
}

impl HandOwner {
    /// The role's name as shown above its hand.
    pub fn label(&self) -> (r: &'static str)
        ensures
            *self == HandOwner::Player ==> r@ == "Player"@,
            *self == HandOwner::Dealer ==> r@ == "Dealer"@,
    {
        match self {
            HandOwner::Player => "Player",
            HandOwner::Dealer => "Dealer",
        }
    }
}

impl Hand {
    pub closed spec fn view(&self) -> HandView {
        HandView { cards: self.cards@, status: self.status, owner: self.owner }
    }

    /// Well-formed: at least the two cards dealt, and only a dealer's hand is revealed.
    pub open spec fn wf(&self) -> bool {
        &&& self.view().cards.len() >= 2
        &&& self.view().status == HandStatus::Revealed ==> self.view().owner == HandOwner::Dealer
    }

    /// A fresh, active hand of two cards for `owner`.
    pub fn new(owner: HandOwner, first: Card, second: Card) -> (h: Hand)
        ensures
            h.wf(),
            h.view().cards == seq![first, second],
            h.view().status == HandStatus::Active,
            h.view().owner == owner,
    {
        let mut cards: Vec<Card> = Vec::new();
        cards.push(first);
        cards.push(second);
        Hand { cards, status: HandStatus::Active, owner }
    }

    /// The cards, in the order they were dealt.
    pub fn cards(&self) -> (r: &Vec<Card>)
        ensures
            r@ == self.view().cards,
    {
        &self.cards
    }

    pub fn status(&self) -> (r: HandStatus)
        ensures
            r == self.view().status,
    {
        self.status
    }

    pub fn owner(&self) -> (r: HandOwner)
        ensures
            r == self.view().owner,
    {
        self.owner
    }

    /// The hand's value: non-aces at face, then each ace as 11 if the total
    /// stays at most 21, else as 1.
    pub fn count_value(&self) -> (r: u8)
        requires
            hand_value(self.view().cards) <= u8::MAX,
        ensures
            r == hand_value(self.view().cards),
    {
        let ghost s = self.cards@;
        proof {
            lemma_hand_value(s);
            assert(s.take(s.len() as int) =~= s);
        }
        let mut base: u8 = 0;
        let mut aces: usize = 0;
        let mut i: usize = 0;
        while i < self.cards.len()
            invariant
                s == self.cards@,
                i <= s.len(),
                base == non_ace_sum(s.take(i as int)),
                aces == ace_count(s.take(i as int)),
                aces <= i,
                non_ace_sum(s) <= u8::MAX,
            decreases s.len() - i,
        {
            proof {
                assert(s.take(i + 1).drop_last() =~= s.take(i as int));
                assert(s.take(i + 1).last() == s[i as int]);
                lemma_non_ace_sum_prefix(s, i + 1, s.len() as int);
                assert(s.take(s.len() as int) =~= s);
            }
            if self.cards[i].is_ace() {
                aces = aces + 1;
            } else {
                base = base + self.cards[i].rank.get_value();
            }
            i = i + 1;
        }
        let mut total: u8 = base;
        let mut k: usize = 0;
        while k < aces
            invariant
                k <= aces,
                resolve_aces(total as int, (aces - k) as nat) == hand_value(s),
                hand_value(s) <= u8::MAX,
            decreases aces - k,
        {
            proof {
                lemma_resolve_aces(total as int, (aces - k) as nat);
            }
            assert(total as int + 1 <= hand_value(s));
            if total > 10 {
                total = total + 1;
            } else {
                total = total + 11;
            }
            k = k + 1;
        }
        total
    }

    /// A hand is bust when its value exceeds 21.
    pub fn is_bust(&self) -> (r: bool)
        requires
            hand_value(self.view().cards) <= u8::MAX,
        ensures
            r == (hand_value(self.view().cards) > 21),
    {
        self.count_value() > 21
    }

    /// Appends one card drawn from `deck`.
    pub fn hit(&mut self, deck: &mut Deck)
        requires
            old(deck).wf(),
        ensures
            final(deck).wf(),
            final(self).view().cards.len() == old(self).view().cards.len() + 1,
            final(self).view().cards.drop_last() == old(self).view().cards,
            draw_step(old(deck).view(), final(deck).view(), final(self).view().cards.last()),
            final(self).view().status == old(self).view().status,
            final(self).view().owner == old(self).view().owner,
    {
        let c = deck.draw();
        self.cards.push(c);
        proof {
            assert(self.cards@.drop_last() =~= old(self).cards@);
        }
    }

    pub fn is_active(&self) -> (r: bool)
        ensures
            r == (self.view().status == HandStatus::Active),
    {
        match self.status {
            HandStatus::Active => true,
            _ => false,
        }
    }

    /// Stands: the hand draws no more.
    pub fn hold(&mut self)
        ensures
            final(self).view().status == HandStatus::Held,
            final(self).view().cards == old(self).view().cards,
            final(self).view().owner == old(self).view().owner,
    {
        self.status = HandStatus::Held;
    }

    /// One step of the dealer's policy: below 16 draw a card, else stand.
    pub fn do_dealer_action(&mut self, deck: &mut Deck)
        requires
            old(self).view().owner == HandOwner::Dealer,
            hand_value(old(self).view().cards) <= u8::MAX,
            old(deck).wf(),
        ensures
            final(deck).wf(),
            final(self).view().owner == HandOwner::Dealer,
            hand_value(old(self).view().cards) < 16 ==> {
                &&& final(self).view().cards.len() == old(self).view().cards.len() + 1
                &&& final(self).view().cards.drop_last() == old(self).view().cards
                &&& draw_step(
                    old(deck).view(),
                    final(deck).view(),
                    final(self).view().cards.last(),
                )
                &&& final(self).view().status == old(self).view().status
            },
            hand_value(old(self).view().cards) >= 16 ==> {
                &&& final(self).view().cards == old(self).view().cards
                &&& final(self).view().status == HandStatus::Held
                &&& final(deck).view() == old(deck).view()
            },
    {
        if self.count_value() < 16 {
            self.hit(deck);
        } else {
            self.hold();
        }
    }

    /// Shows a dealer's hidden first card.
    pub fn reveal_hand(&mut self)
        requires
            old(self).view().owner == HandOwner::Dealer,
        ensures
            final(self).view().status == HandStatus::Revealed,
            final(self).view().cards == old(self).view().cards,
            final(self).view().owner == old(self).view().owner,
    {
        self.status = HandStatus::Revealed;
    }
}

} // verus!
