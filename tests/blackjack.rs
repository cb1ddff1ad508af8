use blackjack::card::{Card, CardColor, Rank, Suit};
use blackjack::deck::Deck;
use blackjack::game::{check_hand, Game, GameState, HandResult};
use blackjack::hand::{Hand, HandOwner, HandStatus};

fn card(rank: Rank, suit: Suit) -> Card {
    Card::new(rank, suit)
}

fn player(a: Rank, b: Rank) -> Hand {
    Hand::new(HandOwner::Player, card(a, Suit::Spade), card(b, Suit::Heart))
}

fn dealer(a: Rank, b: Rank) -> Hand {
    Hand::new(HandOwner::Dealer, card(a, Suit::Club), card(b, Suit::Diamond))
}

fn canonical() -> Vec<Card> {
    let mut v = Vec::new();
    for s in 0..4u8 {
        for r in 0..13u8 {
            v.push(Card::new(Rank::from_index(r), Suit::from_index(s)));
        }
    }
    v
}

#[test]
fn two_aces_count_twelve() {
    assert_eq!(player(Rank::Ace, Rank::Ace).count_value(), 12);
}

#[test]
fn ace_king_counts_twenty_one() {
    assert_eq!(player(Rank::Ace, Rank::King).count_value(), 21);
}

#[test]
fn ace_ace_nine_counts_twenty_one() {
    let mut h = player(Rank::Ace, Rank::Ace);
    let mut deck = Deck::from_cards(vec![card(Rank::Nine, Suit::Club)]);
    h.hit(&mut deck);
    assert_eq!(h.cards().len(), 3);
    assert_eq!(h.count_value(), 21);
    assert_eq!(deck.len(), 0);
}

#[test]
fn ten_king_counts_twenty() {
    assert_eq!(player(Rank::Ten, Rank::King).count_value(), 20);
}

#[test]
fn ace_turns_hard_after_non_aces_pass_ten() {
    let mut h = player(Rank::Ace, Rank::Five);
    assert_eq!(h.count_value(), 16);
    let mut deck = Deck::from_cards(vec![card(Rank::Seven, Suit::Club)]);
    h.hit(&mut deck);
    assert_eq!(h.count_value(), 13);
    assert!(!h.is_bust());
}

#[test]
fn bust_is_value_over_twenty_one() {
    let mut h = player(Rank::Ten, Rank::King);
    assert!(!h.is_bust());
    let mut deck = Deck::from_cards(vec![card(Rank::Two, Suit::Club), card(Rank::Ace, Suit::Club)]);
    h.hit(&mut deck);
    assert_eq!(h.count_value(), 21);
    assert!(!h.is_bust());
    h.hit(&mut deck);
    assert_eq!(h.count_value(), 23);
    assert!(h.is_bust());
}

#[test]
fn rank_values_and_labels() {
    assert_eq!(Rank::Two.get_value(), 2);
    assert_eq!(Rank::Nine.get_value(), 9);
    assert_eq!(Rank::Queen.get_value(), 10);
    assert_eq!(Rank::Ace.get_value(), 11);
    assert_eq!(Rank::Ten.get_rank(), "10");
    assert_eq!(Rank::Jack.get_rank(), "J");
    assert_eq!(Rank::Ace.get_rank(), "A");
    assert_eq!(Rank::Seven.get_rank(), "7");
}

#[test]
fn suit_colors() {
    assert_eq!(Suit::Spade.color(), CardColor::Black);
    assert_eq!(Suit::Club.color(), CardColor::Black);
    assert_eq!(Suit::Diamond.color(), CardColor::Red);
    assert_eq!(Suit::Heart.color(), CardColor::Red);
}

#[test]
fn suit_symbols() {
    assert_eq!(Suit::Spade.symbol(), "♠");
    assert_eq!(Suit::Club.symbol(), "♣");
    assert_eq!(Suit::Diamond.symbol(), "♦");
    assert_eq!(Suit::Heart.symbol(), "♥");
}

#[test]
fn owner_labels() {
    assert_eq!(HandOwner::Player.label(), "Player");
    assert_eq!(HandOwner::Dealer.label(), "Dealer");
}

#[test]
fn new_deck_holds_the_canonical_cards() {
    let mut deck = Deck::new();
    assert_eq!(deck.len(), 52);
    let mut seen = Vec::new();
    for _ in 0..52 {
        let c = deck.draw();
        assert!(!seen.contains(&c));
        seen.push(c);
    }
    for c in canonical() {
        assert!(seen.contains(&c));
    }
}

#[test]
fn new_deck_is_shuffled() {
    let mut deck = Deck::new();
    let mut drawn = Vec::new();
    for _ in 0..52 {
        drawn.push(deck.draw());
    }
    drawn.reverse();
    assert_ne!(drawn, canonical());
}

#[test]
fn shuffle_keeps_the_cards() {
    let cards = canonical();
    let mut deck = Deck::from_cards(cards.clone());
    deck.shuffle(3);
    assert_eq!(deck.len(), 52);
    let mut drawn = Vec::new();
    for _ in 0..52 {
        drawn.push(deck.draw());
    }
    for c in &cards {
        assert!(drawn.contains(c));
    }
    drawn.reverse();
    assert_ne!(drawn, cards);
}

#[test]
fn fifty_third_draw_refills_the_deck() {
    let mut deck = Deck::new();
    for i in 0..52usize {
        assert_eq!(deck.len(), 52 - i);
        deck.draw();
    }
    assert_eq!(deck.len(), 0);
    let c = deck.draw();
    assert_eq!(deck.len(), 51);
    let mut rest = vec![c];
    for _ in 0..51 {
        rest.push(deck.draw());
    }
    for k in canonical() {
        assert!(rest.contains(&k));
    }
}

#[test]
fn draw_takes_the_last_card() {
    let mut deck = Deck::from_cards(vec![card(Rank::Two, Suit::Club), card(Rank::Ace, Suit::Heart)]);
    assert_eq!(deck.draw(), card(Rank::Ace, Suit::Heart));
    assert_eq!(deck.draw(), card(Rank::Two, Suit::Club));
    assert_eq!(deck.len(), 0);
}

#[test]
fn new_hand_deals_two_active_cards() {
    let mut deck = Deck::from_cards(vec![
        card(Rank::Two, Suit::Club),
        card(Rank::Three, Suit::Club),
        card(Rank::Four, Suit::Club),
    ]);
    let h = deck.new_hand(HandOwner::Dealer);
    assert_eq!(h.cards().clone(), vec![card(Rank::Four, Suit::Club), card(Rank::Three, Suit::Club)]);
    assert_eq!(h.status(), HandStatus::Active);
    assert_eq!(h.owner(), HandOwner::Dealer);
    assert_eq!(deck.len(), 1);
}

#[test]
fn dealer_hits_at_fifteen() {
    let mut h = dealer(Rank::Ten, Rank::Five);
    let mut deck = Deck::from_cards(vec![card(Rank::Three, Suit::Heart)]);
    h.do_dealer_action(&mut deck);
    assert_eq!(h.cards().len(), 3);
    assert!(h.is_active());
    assert_eq!(h.count_value(), 18);
}

#[test]
fn dealer_holds_at_sixteen() {
    let mut h = dealer(Rank::Ten, Rank::Six);
    let mut deck = Deck::from_cards(vec![card(Rank::Three, Suit::Heart)]);
    h.do_dealer_action(&mut deck);
    assert_eq!(h.cards().len(), 2);
    assert_eq!(h.status(), HandStatus::Held);
    assert!(!h.is_active());
    assert_eq!(deck.len(), 1);
}

#[test]
fn hold_reveal_statuses() {
    let mut h = dealer(Rank::Ten, Rank::Six);
    assert_eq!(h.status(), HandStatus::Active);
    h.hold();
    assert_eq!(h.status(), HandStatus::Held);
    h.reveal_hand();
    assert_eq!(h.status(), HandStatus::Revealed);
    assert_eq!(h.cards().len(), 2);
}

#[test]
fn player_twenty_beats_dealer_sixteen() {
    let deck = Deck::from_cards(vec![card(Rank::Five, Suit::Heart)]);
    let mut g = Game::from_hands(deck, player(Rank::Ten, Rank::King), dealer(Rank::Ten, Rank::Six));
    g.hold();
    assert_eq!(g.state(), GameState::HandScoreScreen(HandResult::PlayerWin));
    assert_eq!(g.dealer().cards().len(), 2);
    assert_eq!(g.dealer().status(), HandStatus::Revealed);
    assert_eq!(g.player().status(), HandStatus::Held);
    assert_eq!(g.deck().len(), 1);
}

#[test]
fn player_hits_into_bust() {
    let deck = Deck::from_cards(vec![card(Rank::Two, Suit::Heart), card(Rank::Five, Suit::Heart)]);
    let mut g = Game::from_hands(deck, player(Rank::Ten, Rank::King), dealer(Rank::Ten, Rank::Two));
    g.hit();
    assert_eq!(g.player().count_value(), 25);
    assert_eq!(g.state(), GameState::HandScoreScreen(HandResult::Bust));
    assert_eq!(g.dealer().status(), HandStatus::Revealed);
    assert_eq!(g.dealer().cards().len(), 3);
}

#[test]
fn dealer_acts_on_every_hit() {
    let deck = Deck::from_cards(vec![card(Rank::Three, Suit::Heart), card(Rank::Two, Suit::Heart)]);
    let mut g = Game::from_hands(deck, player(Rank::Two, Rank::Three), dealer(Rank::Ten, Rank::Two));
    g.hit();
    assert_eq!(g.state(), GameState::PlayingHand);
    assert_eq!(g.player().count_value(), 7);
    assert_eq!(g.dealer().count_value(), 15);
    assert_eq!(g.dealer().status(), HandStatus::Active);
    assert_eq!(g.deck().len(), 0);
}

#[test]
fn dealer_draws_until_sixteen_then_holds() {
    let deck = Deck::from_cards(vec![card(Rank::Four, Suit::Heart), card(Rank::Two, Suit::Heart)]);
    let mut g = Game::from_hands(deck, player(Rank::Ten, Rank::Seven), dealer(Rank::Ten, Rank::Two));
    g.hold();
    assert_eq!(g.dealer().count_value(), 18);
    assert_eq!(g.dealer().cards().len(), 4);
    assert_eq!(g.state(), GameState::HandScoreScreen(HandResult::DealerWin));
    assert_eq!(g.dealer().status(), HandStatus::Revealed);
}

#[test]
fn equal_values_push() {
    let deck = Deck::from_cards(vec![]);
    let mut g = Game::from_hands(deck, player(Rank::Ten, Rank::Seven), dealer(Rank::King, Rank::Seven));
    g.hold();
    assert_eq!(g.state(), GameState::HandScoreScreen(HandResult::Push));
}

#[test]
fn dealer_bust_is_player_win() {
    let deck = Deck::from_cards(vec![card(Rank::King, Suit::Heart)]);
    let mut g = Game::from_hands(deck, player(Rank::Ten, Rank::Two), dealer(Rank::Ten, Rank::Five));
    g.hold();
    assert_eq!(g.dealer().count_value(), 25);
    assert_eq!(g.state(), GameState::HandScoreScreen(HandResult::PlayerWin));
    assert_eq!(g.dealer().status(), HandStatus::Revealed);
}

#[test]
fn new_round_deals_fresh_hands() {
    let deck = Deck::from_cards(vec![
        card(Rank::Two, Suit::Club),
        card(Rank::Three, Suit::Club),
        card(Rank::Four, Suit::Club),
        card(Rank::Five, Suit::Club),
        card(Rank::King, Suit::Heart),
    ]);
    let mut g = Game::from_hands(deck, player(Rank::Ten, Rank::King), dealer(Rank::Ten, Rank::Two));
    g.hit();
    assert_eq!(g.state(), GameState::HandScoreScreen(HandResult::Bust));
    g.new_round();
    assert_eq!(g.state(), GameState::PlayingHand);
    assert_eq!(g.player().cards().len(), 2);
    assert_eq!(g.dealer().cards().len(), 2);
    assert_eq!(g.player().status(), HandStatus::Active);
    assert_eq!(g.dealer().status(), HandStatus::Active);
    assert_eq!(g.player().owner(), HandOwner::Player);
    assert_eq!(g.dealer().owner(), HandOwner::Dealer);
}

#[test]
fn new_game_starts_in_play() {
    let g = Game::new();
    assert_eq!(g.state(), GameState::PlayingHand);
    assert_eq!(g.player().cards().len(), 2);
    assert_eq!(g.dealer().cards().len(), 2);
    assert_eq!(g.deck().len(), 48);
    assert!(g.player().is_active());
    assert!(g.dealer().is_active());
}

#[test]
fn check_hand_leaves_a_live_round() {
    let p = player(Rank::Ten, Rank::Two);
    let mut d = dealer(Rank::Ten, Rank::Five);
    let mut state = GameState::PlayingHand;
    check_hand(&p, &mut d, &mut state);
    assert_eq!(state, GameState::PlayingHand);
    assert_eq!(d.status(), HandStatus::Active);
}

#[test]
fn check_hand_scores_two_standing_hands() {
    let mut p = player(Rank::Ten, Rank::Two);
    let mut d = dealer(Rank::Ten, Rank::Six);
    p.hold();
    d.hold();
    let mut state = GameState::PlayingHand;
    check_hand(&p, &mut d, &mut state);
    assert_eq!(state, GameState::HandScoreScreen(HandResult::DealerWin));
    assert_eq!(d.status(), HandStatus::Revealed);
}

#[test]
fn check_hand_reveals_on_score_screen_without_end_condition() {
    let p = player(Rank::Ten, Rank::Two);
    let mut d = dealer(Rank::Ten, Rank::Five);
    let mut state = GameState::HandScoreScreen(HandResult::Push);
    check_hand(&p, &mut d, &mut state);
    assert_eq!(state, GameState::HandScoreScreen(HandResult::Push));
    assert_eq!(d.status(), HandStatus::Revealed);
    assert_eq!(d.cards().len(), 2);
}

#[test]
fn check_hand_bust_player_whatever_the_state() {
    let mut p = player(Rank::Ten, Rank::King);
    let mut deck = Deck::from_cards(vec![card(Rank::Five, Suit::Club)]);
    p.hit(&mut deck);
    let mut d = dealer(Rank::Two, Rank::Three);
    let mut state = GameState::HandScoreScreen(HandResult::PlayerWin);
    check_hand(&p, &mut d, &mut state);
    assert_eq!(state, GameState::HandScoreScreen(HandResult::Bust));
    assert_eq!(d.status(), HandStatus::Revealed);
}

#[test]
fn shuffle_zero_times_keeps_order() {
    let cards = canonical();
    let mut deck = Deck::from_cards(cards.clone());
    deck.shuffle(0);
    let mut drawn = Vec::new();
    for _ in 0..52 {
        drawn.push(deck.draw());
    }
    drawn.reverse();
    assert_eq!(drawn, cards);
}

#[test]
fn hold_at_sixteen_leaves_deck_untouched() {
    let top = card(Rank::Five, Suit::Heart);
    let below = card(Rank::Nine, Suit::Club);
    let deck = Deck::from_cards(vec![below, top]);
    let mut g = Game::from_hands(deck, player(Rank::Ten, Rank::King), dealer(Rank::Ten, Rank::Six));
    g.hold();
    assert_eq!(g.deck().len(), 2);
    assert_eq!(g.dealer().cards().clone(), vec![card(Rank::Ten, Suit::Club), card(Rank::Six, Suit::Diamond)]);
}

#[test]
fn hold_dealer_draws_top_cards_in_order() {
    let deck = Deck::from_cards(vec![
        card(Rank::Nine, Suit::Club),
        card(Rank::Four, Suit::Heart),
        card(Rank::Two, Suit::Heart),
    ]);
    let mut g = Game::from_hands(deck, player(Rank::Ten, Rank::Seven), dealer(Rank::Ten, Rank::Two));
    g.hold();
    assert_eq!(
        g.dealer().cards().clone(),
        vec![
            card(Rank::Ten, Suit::Club),
            card(Rank::Two, Suit::Diamond),
            card(Rank::Two, Suit::Heart),
            card(Rank::Four, Suit::Heart),
        ]
    );
    assert_eq!(g.deck().len(), 1);
}

#[test]
fn new_round_deals_from_the_top() {
    let deck = Deck::from_cards(vec![
        card(Rank::Two, Suit::Club),
        card(Rank::Three, Suit::Club),
        card(Rank::Four, Suit::Club),
        card(Rank::Five, Suit::Club),
        card(Rank::Six, Suit::Club),
        card(Rank::King, Suit::Heart),
    ]);
    let mut g = Game::from_hands(deck, player(Rank::Ten, Rank::King), dealer(Rank::Ten, Rank::Two));
    g.hit();
    assert_eq!(g.state(), GameState::HandScoreScreen(HandResult::Bust));
    g.new_round();
    assert_eq!(g.player().cards().clone(), vec![card(Rank::Five, Suit::Club), card(Rank::Four, Suit::Club)]);
    assert_eq!(g.dealer().cards().clone(), vec![card(Rank::Three, Suit::Club), card(Rank::Two, Suit::Club)]);
    assert_eq!(g.deck().len(), 0);
}

#[test]
fn new_game_holds_all_cards_once() {
    let g = Game::new();
    let mut all: Vec<Card> = g.player().cards().clone();
    all.extend(g.dealer().cards().iter().copied());
    assert_eq!(all.len(), 4);
    assert_eq!(g.deck().len(), 48);
    for (i, a) in all.iter().enumerate() {
        for b in &all[i + 1..] {
            assert_ne!(a, b);
        }
    }
}
