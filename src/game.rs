use vstd::prelude::*;
use crate::card::{Card, canonical_deck};
use crate::deck::{Deck, dealt_from, draw_step};
use crate::hand::{
    Hand, HandOwner, HandStatus, HandView, hand_value, hard_value, lemma_hand_value,
    lemma_two_cards_value, lemma_value_after_push,
};

verus! {

/// How a round ended.
#[derive(Clone, Copy, Debug, PartialEq, Eq, Structural)]
pub enum HandResult {
    PlayerWin,
    DealerWin,
    Push,
    Bust,
}

/// The round controller's state: a hand in play, or its result on screen.
#[derive(Clone, Copy, Debug, PartialEq, Eq, Structural)]
pub enum GameState {
    PlayingHand,
    HandScoreScreen(HandResult),
}

/// The controller's data: the shared deck, both hands and the state.
pub struct GameView {
    pub deck: Seq<Card>,
    pub player: HandView,
    pub dealer: HandView,
    pub state: GameState,
}

/// The end condition of a round, checked in order: a bust player loses, a
/// bust dealer loses, and once neither hand is active the higher value wins.
pub open spec fn round_outcome(player: HandView, dealer: HandView) -> Option<HandResult> {
    let pv = hand_value(player.cards);
    let dv = hand_value(dealer.cards);
    if pv > 21 {
        Some(HandResult::Bust)
    } else if dv > 21 {
        Some(HandResult::PlayerWin)
    } else if player.status != HandStatus::Active && dealer.status != HandStatus::Active {
        if pv > dv {
            Some(HandResult::PlayerWin)
        } else if pv == dv {
            Some(HandResult::Push)
        } else {
            Some(HandResult::DealerWin)
        }
    } else {
        None
    }
}

/// The state that the end condition selects for two hands.
pub open spec fn state_for(player: HandView, dealer: HandView) -> GameState {
    match round_outcome(player, dealer) {
        Some(o) => GameState::HandScoreScreen(o),
        None => GameState::PlayingHand,
    }
}

/// Revealing the dealer's hand does not change a round's outcome once it has one.
proof fn lemma_outcome_stable(player: HandView, dealer: HandView, revealed: HandView)
    requires
        round_outcome(player, dealer) is Some,
        revealed.cards == dealer.cards,
        revealed.status == HandStatus::Revealed,
    ensures
        round_outcome(player, revealed) == round_outcome(player, dealer),
{
}

/// Evaluates the end condition: on a result, moves to the score screen with
/// it, else leaves the state as it was; whenever the resulting state is the
/// score screen the dealer's hand is revealed.
pub fn check_hand(player: &Hand, dealer: &mut Hand, game_state: &mut GameState)
    requires
        hand_value(player.view().cards) <= u8::MAX,
        hand_value(old(dealer).view().cards) <= u8::MAX,
        old(dealer).view().owner == HandOwner::Dealer,
    ensures
        round_outcome(player.view(), old(dealer).view()) is None ==> *final(game_state) == *old(
            game_state,
        ),
        round_outcome(player.view(), old(dealer).view()) is Some ==> *final(game_state)
            == GameState::HandScoreScreen(round_outcome(player.view(), old(dealer).view())->0),
        final(dealer).view().cards == old(dealer).view().cards,
        final(dealer).view().owner == HandOwner::Dealer,
        *final(game_state) is HandScoreScreen ==> final(dealer).view().status
            == HandStatus::Revealed,
        *final(game_state) is PlayingHand ==> final(dealer).view() == old(dealer).view(),
{
    if player.is_bust() {
        *game_state = GameState::HandScoreScreen(HandResult::Bust);
    } else if dealer.is_bust() {
        *game_state = GameState::HandScoreScreen(HandResult::PlayerWin);
    } else if !player.is_active() && !dealer.is_active() {
        let player_value = player.count_value();
        let dealer_value = dealer.count_value();
        let result = if player_value > dealer_value {
            HandResult::PlayerWin
        } else if player_value == dealer_value {
            HandResult::Push
        } else {
            HandResult::DealerWin
        };
        *game_state = GameState::HandScoreScreen(result);
    }
    match game_state {
        GameState::HandScoreScreen(_) => dealer.reveal_hand(),
        GameState::PlayingHand => {},
    }
}

/// On the score screen the dealer's hand is always revealed.
pub proof fn lemma_score_screen_revealed(g: &Game)
    requires
        g.wf(),
    ensures
        g.view().state != GameState::PlayingHand ==> g.view().dealer.status
            == HandStatus::Revealed,
{
}

/// One round of blackjack between a player and the dealer, over a shared deck.
pub struct Game {
    deck: Deck,
    player: Hand,
    dealer: Hand,
    state: GameState,
}

impl Game {
    pub closed spec fn view(&self) -> GameView {
        GameView {
            deck: self.deck.view(),
            player: self.player.view(),
            dealer: self.dealer.view(),
            state: self.state,
        }
    }

    /// Well-formed: a valid deck and hands in their roles; while a hand is in
    /// play no end condition holds, the player is active and the dealer's
    /// card is hidden; on the score screen the result is the end condition's
    /// and the dealer's hand is revealed.
    pub open spec fn wf(&self) -> bool {
        let v = self.view();
        &&& v.deck.no_duplicates()
        &&& v.player.cards.len() >= 2
        &&& v.player.owner == HandOwner::Player
        &&& v.player.status != HandStatus::Revealed
        &&& v.dealer.cards.len() >= 2
        &&& v.dealer.owner == HandOwner::Dealer
        &&& hand_value(v.player.cards) <= 32
        &&& hand_value(v.dealer.cards) <= 32
        &&& v.dealer.status == HandStatus::Held ==> hand_value(v.dealer.cards) >= 16
        &&& match v.state {
            GameState::PlayingHand => {
                &&& round_outcome(v.player, v.dealer) is None
                &&& v.player.status == HandStatus::Active
                &&& v.dealer.status != HandStatus::Revealed
            },
            GameState::HandScoreScreen(o) => {
                &&& round_outcome(v.player, v.dealer) == Some(o)
                &&& v.dealer.status == HandStatus::Revealed
            },
        }
    }

    /// A new game: a full shuffled deck, two dealt hands, a hand in play.
    pub fn new() -> (g: Game)
        ensures
            g.wf(),
            g.view().state == GameState::PlayingHand,
            g.view().player.cards.len() == 2,
            g.view().dealer.cards.len() == 2,
            g.view().player.status == HandStatus::Active,
            g.view().dealer.status == HandStatus::Active,
            g.view().deck.len() == 48,
            g.view().deck.to_multiset().add(g.view().player.cards.to_multiset()).add(
                g.view().dealer.cards.to_multiset(),
            ) == canonical_deck().to_multiset(),
    {
        let mut deck = Deck::new();
        let ghost full = deck.view();
        let player = deck.new_hand(HandOwner::Player);
        let dealer = deck.new_hand(HandOwner::Dealer);
        proof {
            broadcast use vstd::seq_lib::lemma_multiset_commutative;
            let rest = deck.view();
            assert(full =~= rest + dealer.view().cards.reverse() + player.view().cards.reverse());
            assert(dealer.view().cards.reverse() =~= seq![full[48]] + seq![full[49]]);
            assert(dealer.view().cards =~= seq![full[49]] + seq![full[48]]);
            assert(player.view().cards.reverse() =~= seq![full[50]] + seq![full[51]]);
            assert(player.view().cards =~= seq![full[51]] + seq![full[50]]);
            assert(dealer.view().cards.reverse().to_multiset() =~= dealer.view().cards.to_multiset());
            assert(player.view().cards.reverse().to_multiset() =~= player.view().cards.to_multiset());
            assert(full.to_multiset() =~= rest.to_multiset().add(player.view().cards.to_multiset()).add(
                dealer.view().cards.to_multiset(),
            ));
            lemma_two_cards_value(player.view().cards);
            lemma_two_cards_value(dealer.view().cards);
        }
        Game { deck, player, dealer, state: GameState::PlayingHand }
    }

    /// A game whose hand in play is made of the given deck and hands.
    pub fn from_hands(deck: Deck, player: Hand, dealer: Hand) -> (g: Game)
        requires
            deck.wf(),
            player.wf(),
            dealer.wf(),
            player.view().owner == HandOwner::Player,
            dealer.view().owner == HandOwner::Dealer,
            player.view().status == HandStatus::Active,
            dealer.view().status == HandStatus::Active,
            hand_value(player.view().cards) <= 21,
            hand_value(dealer.view().cards) <= 21,
        ensures
            g.wf(),
            g.view().state == GameState::PlayingHand,
            g.view().deck == deck.view(),
            g.view().player == player.view(),
            g.view().dealer == dealer.view(),
    {
        Game { deck, player, dealer, state: GameState::PlayingHand }
    }

    /// The player draws a card, the dealer takes one policy step, and the end
    /// condition is evaluated.
    pub fn hit(&mut self)
        requires
            old(self).wf(),
            old(self).view().state == GameState::PlayingHand,
        ensures
            final(self).wf(),
            final(self).view().player.cards.len() == old(self).view().player.cards.len() + 1,
            final(self).view().player.cards.drop_last() == old(self).view().player.cards,
            final(self).view().player.status == HandStatus::Active,
            hand_value(old(self).view().dealer.cards) < 16 ==> {
                &&& final(self).view().dealer.cards.len() == old(self).view().dealer.cards.len()
                    + 1
                &&& final(self).view().dealer.cards.drop_last() == old(self).view().dealer.cards
            },
            hand_value(old(self).view().dealer.cards) >= 16 ==> {
                &&& final(self).view().dealer.cards == old(self).view().dealer.cards
                &&& final(self).view().dealer.status != HandStatus::Active
            },
            final(self).view().state == state_for(final(self).view().player, final(self).view().dealer),
            exists|mid: Seq<Card>|
                {
                    &&& draw_step(
                        old(self).view().deck,
                        mid,
                        final(self).view().player.cards.last(),
                    )
                    &&& hand_value(old(self).view().dealer.cards) < 16 ==> draw_step(
                        mid,
                        final(self).view().deck,
                        final(self).view().dealer.cards.last(),
                    )
                    &&& hand_value(old(self).view().dealer.cards) >= 16 ==> final(self).view().deck
                        == mid
                },
    {
        let ghost p0 = self.player.view().cards;
        let ghost d0 = self.dealer.view().cards;
        proof {
            lemma_hand_value(p0);
            lemma_hand_value(d0);
        }
        self.player.hit(&mut self.deck);
        let ghost mid_deck = self.deck.view();
        self.dealer.do_dealer_action(&mut self.deck);
        proof {
            assert(self.player.view().cards =~= p0.push(self.player.view().cards.last()));
            lemma_value_after_push(p0, self.player.view().cards.last());
            if hand_value(d0) < 16 {
                assert(self.dealer.view().cards =~= d0.push(self.dealer.view().cards.last()));
                lemma_value_after_push(d0, self.dealer.view().cards.last());
            }
        }
        let ghost mid = self.dealer.view();
        check_hand(&self.player, &mut self.dealer, &mut self.state);
        proof {
            if round_outcome(self.player.view(), mid) is Some {
                lemma_outcome_stable(self.player.view(), mid, self.dealer.view());
            }
            assert(draw_step(old(self).view().deck, mid_deck, self.player.view().cards.last()));
        }
    }

    /// The player stands; the dealer then follows its policy until it stands
    /// or busts, and the round is scored.
    pub fn hold(&mut self)
        requires
            old(self).wf(),
            old(self).view().state == GameState::PlayingHand,
        ensures
            final(self).wf(),
            final(self).view().player.cards == old(self).view().player.cards,
            final(self).view().player.status == HandStatus::Held,
            final(self).view().dealer.cards.len() >= old(self).view().dealer.cards.len(),
            final(self).view().dealer.cards.take(old(self).view().dealer.cards.len() as int)
                == old(self).view().dealer.cards,
            forall|k: int|
                old(self).view().dealer.cards.len() <= k < final(self).view().dealer.cards.len()
                    ==> hand_value(#[trigger] final(self).view().dealer.cards.take(k)) < 16,
            hand_value(final(self).view().dealer.cards) >= 16,
            final(self).view().state == state_for(final(self).view().player, final(self).view().dealer),
            final(self).view().state != GameState::PlayingHand,
            final(self).view().dealer.cards.len() - old(self).view().dealer.cards.len()
                <= old(self).view().deck.len() ==> dealt_from(
                old(self).view().deck,
                final(self).view().deck,
                final(self).view().dealer.cards.skip(old(self).view().dealer.cards.len() as int),
            ),
            hand_value(old(self).view().dealer.cards) >= 16 ==> {
                &&& final(self).view().dealer.cards == old(self).view().dealer.cards
                &&& final(self).view().deck == old(self).view().deck
            },
    {
        let ghost d0 = self.dealer.view().cards;
        let ghost deck0 = self.deck.view();
        self.player.hold();
        proof {
            lemma_hand_value(self.player.view().cards);
            lemma_hand_value(d0);
            assert(d0.take(d0.len() as int) =~= d0);
            assert(deck0.take(deck0.len() as int) =~= deck0);
            assert(self.dealer.view().cards.skip(d0.len() as int) =~= Seq::<Card>::empty());
        }
        while self.dealer.is_active() && !self.dealer.is_bust()
            invariant
                self.deck.view().no_duplicates(),
                self.player.view().cards == old(self).view().player.cards,
                self.player.view().status == HandStatus::Held,
                self.player.view().owner == HandOwner::Player,
                hand_value(self.player.view().cards) <= 21,
                self.dealer.view().owner == HandOwner::Dealer,
                self.dealer.view().cards.len() >= d0.len(),
                self.dealer.view().cards.take(d0.len() as int) == d0,
                forall|k: int|
                    d0.len() <= k < self.dealer.view().cards.len() ==> hand_value(
                        #[trigger] self.dealer.view().cards.take(k),
                    ) < 16,
                self.dealer.view().cards.len() - d0.len() <= deck0.len() ==> dealt_from(
                    deck0,
                    self.deck.view(),
                    self.dealer.view().cards.skip(d0.len() as int),
                ),
                hand_value(d0) >= 16 ==> self.dealer.view().cards == d0,
                hand_value(self.dealer.view().cards) <= 32,
                hard_value(self.dealer.view().cards) <= hand_value(self.dealer.view().cards),
                self.dealer.view().status != HandStatus::Active ==> hand_value(
                    self.dealer.view().cards,
                ) >= 16,
                match self.state {
                    GameState::PlayingHand => self.dealer.view().status != HandStatus::Revealed,
                    GameState::HandScoreScreen(o) => {
                        &&& round_outcome(self.player.view(), self.dealer.view()) == Some(o)
                        &&& self.dealer.view().status == HandStatus::Revealed
                    },
                },
            decreases 2 * (32 - hard_value(self.dealer.view().cards)) + if self.dealer.view().status
                == HandStatus::Active {
                1int
            } else {
                0int
            },
        {
            let ghost before = self.dealer.view().cards;
            let ghost deck_before = self.deck.view();
            self.dealer.do_dealer_action(&mut self.deck);
            proof {
                let after = self.dealer.view().cards;
                if hand_value(before) < 16 {
                    if before.len() > d0.len() {
                        assert(before.take(d0.len() as int) =~= d0);
                    }
                    let c = after.last();
                    assert(after.skip(d0.len() as int) =~= before.skip(d0.len() as int).push(c));
                    if after.len() - d0.len() <= deck0.len() {
                        let n = before.len() - d0.len();
                        assert(deck_before.len() == deck0.len() - n);
                        assert(self.deck.view() =~= deck0.take(deck0.len() - (n + 1)));
                        assert(c == deck0[deck0.len() - 1 - n]);
                    }
                    assert(after =~= before.push(after.last()));
                    lemma_value_after_push(before, after.last());
                    assert(after.take(d0.len() as int) =~= before.take(d0.len() as int));
                    assert(after.take(before.len() as int) =~= before);
                    assert forall|k: int| d0.len() <= k < after.len() implies hand_value(
                        #[trigger] after.take(k),
                    ) < 16 by {
                        if k < before.len() {
                            assert(after.take(k) =~= before.take(k));
                        }
                    }
                }
                lemma_hand_value(after);
            }
            let ghost mid = self.dealer.view();
            check_hand(&self.player, &mut self.dealer, &mut self.state);
            proof {
                if round_outcome(self.player.view(), mid) is Some {
                    lemma_outcome_stable(self.player.view(), mid, self.dealer.view());
                }
            }
        }
        let ghost mid = self.dealer.view();
        check_hand(&self.player, &mut self.dealer, &mut self.state);
        proof {
            if round_outcome(self.player.view(), mid) is Some {
                lemma_outcome_stable(self.player.view(), mid, self.dealer.view());
            }
        }
    }

    /// From the score screen: deals fresh hands to the player and the dealer
    /// from the shared deck and puts a new hand in play.
    pub fn new_round(&mut self)
        requires
            old(self).wf(),
            old(self).view().state != GameState::PlayingHand,
        ensures
            old(self).view().deck.len() >= 4 ==> {
                let d = old(self).view().deck;
                &&& final(self).view().player.cards == seq![d[d.len() - 1], d[d.len() - 2]]
                &&& final(self).view().dealer.cards == seq![d[d.len() - 3], d[d.len() - 4]]
                &&& final(self).view().deck == d.take(d.len() - 4)
            },
            final(self).wf(),
            final(self).view().state == GameState::PlayingHand,
            final(self).view().player.cards.len() == 2,
            final(self).view().dealer.cards.len() == 2,
            final(self).view().player.status == HandStatus::Active,
            final(self).view().dealer.status == HandStatus::Active,
    {
        self.player = self.deck.new_hand(HandOwner::Player);
        self.dealer = self.deck.new_hand(HandOwner::Dealer);
        self.state = GameState::PlayingHand;
        proof {
            lemma_two_cards_value(self.player.view().cards);
            lemma_two_cards_value(self.dealer.view().cards);
        }
    }

    pub fn state(&self) -> (r: GameState)
        ensures
            r == self.view().state,
    {
        self.state
    }

    pub fn player(&self) -> (r: &Hand)
        ensures
            r.view() == self.view().player,
    {
        &self.player
    }

    pub fn dealer(&self) -> (r: &Hand)
        ensures
            r.view() == self.view().dealer,
    {
        &self.dealer
    }

    pub fn deck(&self) -> (r: &Deck)
        ensures
            r.view() == self.view().deck,
    {
        &self.deck
    }
}

} // verus!
