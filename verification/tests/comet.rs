use playground::cards::{decimal_string, rank_label, Card, Suit, KING_RANK};
use playground::deck::{build_deck, shuffle, sort_hand};
use playground::game::{Game, Player};

fn seeded_rand(seed: u64) -> impl FnMut() -> f64 {
    let mut state = seed;
    move || {
        // xorshift64
        state ^= state << 13;
        state ^= state >> 7;
        state ^= state << 17;
        (state as f64 / u64::MAX as f64).abs()
    }
}

/// One draw per Fisher-Yates step of a deck of `n` cards, from the last
/// position down to 1, as the random source would give them.
fn draws_from(mut rand01: impl FnMut() -> f64, n: usize) -> Vec<usize> {
    let mut draws = Vec::new();
    for i in (1..n).rev() {
        draws.push((rand01() * (i as f64 + 1.0)) as usize);
    }
    draws
}

fn new_game(seed: u64) -> Game {
    Game::new(&draws_from(seeded_rand(seed), 52))
}

#[test]
fn deck_has_52_unique_cards_with_one_comet() {
    let deck = build_deck();
    assert_eq!(deck.len(), 52);
    assert_eq!(deck.iter().filter(|c| matches!(c, Card::Comet)).count(), 1);
}

#[test]
fn deal_splits_deck_evenly() {
    let game = new_game(42);
    assert_eq!(game.human_hand.len(), 26);
    assert_eq!(game.ai_hand.len(), 26);
}

#[test]
fn a_full_game_terminates_with_a_winner() {
    let mut game = new_game(7);
    let mut guard = 0;
    while game.winner.is_none() {
        guard += 1;
        assert!(guard < 5000, "game did not terminate");
        let player = game.turn;
        let valid = game.valid_play_indices(player);
        assert!(!valid.is_empty(), "current player must always have a valid play");
        // Always play the first legal card - deterministic and simple.
        game.play(player, valid[0]).unwrap();
    }
    assert!(game.human_hand.is_empty() || game.ai_hand.is_empty());
}

#[test]
fn playing_out_of_turn_is_rejected() {
    let mut game = new_game(1);
    let other = game.turn.other();
    assert!(game.play(other, 0).is_err());
}

#[test]
fn king_ends_run_and_same_player_leads_again() {
    let mut game = new_game(1);
    let player = game.turn;
    let hand = vec![
        Card::Normal { rank: KING_RANK, suit: Suit::Clubs },
        Card::Normal { rank: 3, suit: Suit::Hearts },
    ];
    match player {
        Player::Human => game.human_hand = hand,
        Player::Ai => game.ai_hand = hand,
    }
    game.required_above = None;

    game.play(player, 0).unwrap();
    assert!(game.winner.is_none());
    assert_eq!(game.required_above, None, "King should reset the run");
    assert_eq!(game.turn, player, "the King's player leads the next run");
}

fn normal(rank: u8, suit: Suit) -> Card {
    Card::Normal { rank, suit }
}

/// A dealt game whose hands, run and turn are then set by hand.
fn arranged(human: Vec<Card>, ai: Vec<Card>, required_above: Option<u8>, turn: Player) -> Game {
    let mut game = new_game(3);
    game.human_hand = human;
    game.ai_hand = ai;
    game.required_above = required_above;
    game.turn = turn;
    game
}

#[test]
fn cards_are_displayed_with_rank_and_suit_symbol() {
    assert_eq!(Card::Comet.display(), "☄ Comet");
    assert_eq!(normal(10, Suit::Hearts).display(), "10♥");
    assert_eq!(normal(14, Suit::Spades).display(), "A♠");
    assert_eq!(normal(11, Suit::Clubs).display(), "J♣");
    assert_eq!(normal(2, Suit::Diamonds).display(), "2♦");
}

#[test]
fn ranks_are_labelled_with_face_letters_or_numbers() {
    assert_eq!(rank_label(12), "Q");
    assert_eq!(rank_label(13), "K");
    assert_eq!(rank_label(9), "9");
    assert_eq!(decimal_string(0), "0");
    assert_eq!(decimal_string(47), "47");
    assert_eq!(decimal_string(255), "255");
}

#[test]
fn only_the_king_is_a_king() {
    assert!(normal(13, Suit::Clubs).is_king());
    assert!(!normal(12, Suit::Clubs).is_king());
    assert!(!Card::Comet.is_king());
}

#[test]
fn players_alternate_and_have_names() {
    assert_eq!(Player::Human.other(), Player::Ai);
    assert_eq!(Player::Ai.other(), Player::Human);
    assert_eq!(Player::Human.label(), "You");
    assert_eq!(Player::Ai.label(), "The AI");
}

#[test]
fn fresh_deck_order_and_comet_position() {
    let deck = build_deck();
    assert_eq!(deck[0], normal(2, Suit::Clubs));
    assert_eq!(deck[12], normal(14, Suit::Clubs));
    assert_eq!(deck[20], Card::Comet);
    assert_eq!(deck[51], normal(14, Suit::Spades));
    assert!(!deck.contains(&normal(9, Suit::Diamonds)));
}

#[test]
fn shuffle_follows_the_draws() {
    let mut deck = vec![normal(2, Suit::Clubs), normal(3, Suit::Clubs), normal(4, Suit::Clubs)];
    shuffle(&mut deck, &vec![0, 0]);
    assert_eq!(deck, vec![normal(3, Suit::Clubs), normal(4, Suit::Clubs), normal(2, Suit::Clubs)]);

    // Draws past the current position are clamped to it: nothing moves.
    let mut deck = vec![normal(2, Suit::Clubs), normal(3, Suit::Clubs), normal(4, Suit::Clubs)];
    shuffle(&mut deck, &vec![9, 9]);
    assert_eq!(deck, vec![normal(2, Suit::Clubs), normal(3, Suit::Clubs), normal(4, Suit::Clubs)]);
}

#[test]
fn shuffle_keeps_every_card() {
    let mut deck = build_deck();
    shuffle(&mut deck, &draws_from(seeded_rand(99), 52));
    let mut fresh = build_deck();
    sort_hand(&mut deck);
    sort_hand(&mut fresh);
    assert_eq!(deck, fresh);
}

#[test]
fn hands_sort_by_rank_then_suit_with_the_comet_after_the_nines() {
    let mut hand = vec![
        normal(10, Suit::Clubs),
        Card::Comet,
        normal(9, Suit::Spades),
        normal(2, Suit::Hearts),
        normal(9, Suit::Clubs),
    ];
    sort_hand(&mut hand);
    assert_eq!(
        hand,
        vec![
            normal(2, Suit::Hearts),
            normal(9, Suit::Clubs),
            normal(9, Suit::Spades),
            Card::Comet,
            normal(10, Suit::Clubs),
        ]
    );
}

#[test]
fn new_game_deals_sorted_hands_and_lowest_card_leads() {
    for seed in 1..20 {
        let game = new_game(seed);
        let mut all: Vec<Card> = game.human_hand.clone();
        all.extend(game.ai_hand.iter().cloned());
        sort_hand(&mut all);
        let mut deck = build_deck();
        sort_hand(&mut deck);
        assert_eq!(all, deck);
        let mut sorted = game.human_hand.clone();
        sort_hand(&mut sorted);
        assert_eq!(sorted, game.human_hand);
        let human_has_two_of_clubs = game.human_hand.contains(&normal(2, Suit::Clubs));
        assert_eq!(game.turn, if human_has_two_of_clubs { Player::Human } else { Player::Ai });
        assert_eq!(game.required_above, None);
        assert!(game.winner.is_none());
        assert_eq!(game.log.len(), 2);
        assert_eq!(game.log[0], "New game dealt. 26 cards each; lowest card leads.");
        assert_eq!(game.log[1], format!("{} leads the first run.", game.turn.label()));
    }
}

#[test]
fn the_holder_of_the_two_of_clubs_leads() {
    // A source that always draws 0 deals the 2 of Diamonds and the 2 of
    // Hearts to the human and the 2 of Clubs to the AI.
    let game = Game::new(&vec![0; 51]);
    assert!(game.human_hand.contains(&normal(2, Suit::Diamonds)));
    assert!(game.human_hand.contains(&normal(2, Suit::Hearts)));
    assert!(game.ai_hand.contains(&normal(2, Suit::Clubs)));
    assert_eq!(game.turn, Player::Ai);
    assert_eq!(game.log[1], "The AI leads the first run.");
}

#[test]
fn the_comet_as_last_card_wins_even_on_the_highest_run() {
    let mut game = arranged(vec![Card::Comet], vec![normal(6, Suit::Clubs)], Some(255), Player::Human);
    assert_eq!(game.play(Player::Human, 0), Ok(()));
    let outcome = game.winner.clone().unwrap();
    assert_eq!(outcome.winner, Player::Human);
    assert!(outcome.won_with_comet);
    assert_eq!(game.required_above, Some(255));
}

#[test]
fn valid_plays_must_beat_the_run_or_be_the_comet() {
    let game = arranged(
        vec![normal(3, Suit::Clubs), normal(10, Suit::Hearts), Card::Comet, normal(11, Suit::Spades)],
        vec![normal(5, Suit::Clubs)],
        Some(10),
        Player::Human,
    );
    assert_eq!(game.valid_play_indices(Player::Human), vec![2, 3]);
    assert!(game.is_valid_play(Card::Comet));
    assert!(!game.is_valid_play(normal(10, Suit::Clubs)));
    assert!(game.is_valid_play(normal(11, Suit::Clubs)));
    assert_eq!(game.valid_play_indices(Player::Ai), Vec::<usize>::new());
}

#[test]
fn refused_plays_give_their_reason_and_change_nothing() {
    let mut game = arranged(
        vec![normal(3, Suit::Clubs), normal(12, Suit::Hearts)],
        vec![normal(5, Suit::Clubs), normal(6, Suit::Clubs)],
        Some(10),
        Player::Human,
    );
    let log_len = game.log.len();
    assert_eq!(game.play(Player::Ai, 0), Err("It isn't your turn.".to_string()));
    assert_eq!(game.play(Player::Human, 2), Err("No such card.".to_string()));
    assert_eq!(
        game.play(Player::Human, 0),
        Err("That card can't be played on the current run.".to_string())
    );
    assert_eq!(game.human_hand.len(), 2);
    assert_eq!(game.log.len(), log_len);
    assert_eq!(game.turn, Player::Human);

    let mut over = arranged(vec![normal(3, Suit::Clubs)], vec![], None, Player::Human);
    over.play(Player::Human, 0).unwrap();
    assert_eq!(over.play(Player::Human, 0), Err("The game is already over.".to_string()));
}

#[test]
fn a_card_sets_the_rank_to_beat_and_passes_the_turn() {
    let mut game = arranged(
        vec![normal(4, Suit::Clubs), normal(12, Suit::Hearts)],
        vec![normal(5, Suit::Clubs), normal(6, Suit::Clubs)],
        None,
        Player::Human,
    );
    game.play(Player::Human, 0).unwrap();
    assert_eq!(game.required_above, Some(4));
    assert_eq!(game.turn, Player::Ai);
    assert_eq!(game.human_hand, vec![normal(12, Suit::Hearts)]);
    assert_eq!(game.log.last().unwrap(), "You plays 4♣.");
}

#[test]
fn the_comet_raises_the_run_by_one() {
    let mut game = arranged(
        vec![Card::Comet, normal(12, Suit::Hearts)],
        vec![normal(8, Suit::Clubs), normal(9, Suit::Clubs)],
        Some(7),
        Player::Human,
    );
    game.play(Player::Human, 0).unwrap();
    assert_eq!(game.required_above, Some(8));
    assert_eq!(game.turn, Player::Ai);
    assert_eq!(game.log.last().unwrap(), "You plays ☄ Comet.");

    let mut fresh = arranged(
        vec![Card::Comet, normal(12, Suit::Hearts)],
        vec![normal(8, Suit::Clubs)],
        None,
        Player::Human,
    );
    fresh.play(Player::Human, 0).unwrap();
    assert_eq!(fresh.required_above, Some(2));
}

#[test]
fn emptying_the_hand_wins_and_the_comet_gives_a_bonus_win() {
    let mut game = arranged(vec![normal(5, Suit::Clubs)], vec![normal(6, Suit::Clubs)], None, Player::Human);
    game.play(Player::Human, 0).unwrap();
    let outcome = game.winner.clone().unwrap();
    assert_eq!(outcome.winner, Player::Human);
    assert!(!outcome.won_with_comet);
    assert_eq!(game.log.last().unwrap(), "You has emptied their hand and wins!");

    let mut bonus = arranged(vec![normal(5, Suit::Clubs)], vec![Card::Comet], Some(14), Player::Ai);
    bonus.play(Player::Ai, 0).unwrap();
    let outcome = bonus.winner.clone().unwrap();
    assert_eq!(outcome.winner, Player::Ai);
    assert!(outcome.won_with_comet);
    assert_eq!(
        bonus.log.last().unwrap(),
        "The AI wins with the Comet as the final card! ✨ Bonus win!"
    );
}

#[test]
fn a_player_who_cannot_play_passes() {
    let mut game = arranged(
        vec![normal(10, Suit::Clubs), normal(12, Suit::Hearts)],
        vec![normal(5, Suit::Clubs), normal(6, Suit::Clubs)],
        None,
        Player::Human,
    );
    game.play(Player::Human, 0).unwrap();
    assert_eq!(game.turn, Player::Human, "the AI cannot beat a 10 and passes");
    assert_eq!(game.required_above, Some(10));
    let n = game.log.len();
    assert_eq!(game.log[n - 2], "You plays 10♣.");
    assert_eq!(game.log[n - 1], "The AI has no valid play and passes.");
}

#[test]
fn when_both_pass_the_last_player_restarts_the_run() {
    let mut game = arranged(
        vec![normal(10, Suit::Clubs), normal(3, Suit::Hearts)],
        vec![normal(5, Suit::Clubs), normal(6, Suit::Clubs)],
        Some(9),
        Player::Human,
    );
    game.play(Player::Human, 0).unwrap();
    // The AI cannot beat the 10 and neither can the human's 3.
    assert_eq!(game.required_above, None);
    assert_eq!(game.turn, Player::Human);
    let n = game.log.len();
    assert_eq!(game.log[n - 3], "The AI has no valid play and passes.");
    assert_eq!(game.log[n - 2], "You has no valid play and passes.");
    assert_eq!(game.log[n - 1], "Neither player can continue. You starts a new run.");
}

#[test]
fn a_king_logs_the_end_of_the_run() {
    let mut game = arranged(
        vec![normal(13, Suit::Clubs), normal(3, Suit::Hearts)],
        vec![normal(5, Suit::Clubs)],
        Some(11),
        Player::Human,
    );
    game.play(Player::Human, 0).unwrap();
    assert_eq!(game.log.last().unwrap(), "The run ends on the King. You starts a new run.");
    assert_eq!(game.turn, Player::Human);
}

#[test]
fn the_ai_plays_its_lowest_card_and_saves_the_comet() {
    let game = arranged(
        vec![normal(2, Suit::Clubs)],
        vec![Card::Comet, normal(12, Suit::Hearts), normal(8, Suit::Spades), normal(8, Suit::Clubs), normal(3, Suit::Clubs)],
        Some(5),
        Player::Ai,
    );
    assert_eq!(game.ai_choose_play(), Some(2));

    let only_comet = arranged(
        vec![normal(2, Suit::Clubs)],
        vec![normal(3, Suit::Clubs), Card::Comet],
        Some(5),
        Player::Ai,
    );
    assert_eq!(only_comet.ai_choose_play(), Some(1));

    let nothing = arranged(vec![normal(2, Suit::Clubs)], vec![normal(3, Suit::Clubs)], Some(5), Player::Ai);
    assert_eq!(nothing.ai_choose_play(), None);

    let last = arranged(vec![normal(2, Suit::Clubs)], vec![Card::Comet], Some(5), Player::Ai);
    assert_eq!(last.ai_choose_play(), Some(0));
}

#[test]
fn every_seed_plays_out_to_a_winner_whose_hand_is_empty() {
    for seed in 1..40 {
        let mut game = new_game(seed);
        let mut plays = 0;
        while game.winner.is_none() {
            let player = game.turn;
            let index = if player == Player::Ai {
                game.ai_choose_play().unwrap()
            } else {
                game.valid_play_indices(player)[0]
            };
            game.play(player, index).unwrap();
            plays += 1;
            assert!(plays <= 52);
        }
        let winner = game.winner.clone().unwrap().winner;
        let hand = if winner == Player::Human { &game.human_hand } else { &game.ai_hand };
        assert!(hand.is_empty());
    }
}
