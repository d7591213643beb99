use playground::cards::{Card, Suit};
use playground::game::table::{ai_move, card_label, click_card, is_ai_turn, is_human_turn, status_text, suit_letter};
use playground::game::{Game, Outcome, Player};

fn game_with(human: Vec<Card>, ai: Vec<Card>, required_above: Option<u8>, turn: Player) -> Game {
    let draws: Vec<usize> = (0..51).collect();
    let mut game = Game::new(&draws);
    game.human_hand = human;
    game.ai_hand = ai;
    game.required_above = required_above;
    game.turn = turn;
    game
}

fn normal(rank: u8, suit: Suit) -> Card {
    Card::Normal { rank, suit }
}

#[test]
fn card_faces_use_suit_initials() {
    assert_eq!(card_label(Card::Comet), "COMET");
    assert_eq!(card_label(normal(14, Suit::Hearts)), "AH");
    assert_eq!(card_label(normal(10, Suit::Diamonds)), "10D");
    assert_eq!(suit_letter(Suit::Spades), "S");
    assert_eq!(suit_letter(Suit::Clubs), "C");
}

#[test]
fn status_line_names_turn_and_requirement() {
    let game = game_with(vec![normal(2, Suit::Clubs)], vec![normal(3, Suit::Clubs)], Some(12), Player::Human);
    assert_eq!(status_text(&game), "YOUR TURN - PLAY HIGHER THAN Q (OR COMET)");
    let game = game_with(vec![normal(2, Suit::Clubs)], vec![normal(3, Suit::Clubs)], None, Player::Ai);
    assert_eq!(status_text(&game), "AI'S TURN - START A NEW RUN WITH ANY CARD");
    let game = game_with(vec![normal(2, Suit::Clubs)], vec![normal(3, Suit::Clubs)], Some(7), Player::Ai);
    assert_eq!(status_text(&game), "AI'S TURN - PLAY HIGHER THAN 7 (OR COMET)");
}

#[test]
fn status_line_announces_the_winner() {
    let mut game = game_with(vec![], vec![normal(3, Suit::Clubs)], None, Player::Human);
    game.winner = Some(Outcome { winner: Player::Human, won_with_comet: false });
    assert_eq!(status_text(&game), "You WON THE GAME!");
    game.winner = Some(Outcome { winner: Player::Ai, won_with_comet: true });
    assert_eq!(status_text(&game), "The AI WON THE GAME WITH THE COMET - BONUS WIN!");
}

#[test]
fn turn_checks_follow_winner_and_turn() {
    let mut game = game_with(vec![normal(2, Suit::Clubs)], vec![normal(3, Suit::Clubs)], None, Player::Ai);
    assert!(is_ai_turn(&game));
    assert!(!is_human_turn(&game));
    game.winner = Some(Outcome { winner: Player::Human, won_with_comet: false });
    assert!(!is_ai_turn(&game));
    assert!(!is_human_turn(&game));
}

#[test]
fn clicks_play_cards_or_log_the_refusal() {
    let mut game = game_with(
        vec![normal(4, Suit::Clubs), normal(12, Suit::Hearts)],
        vec![normal(5, Suit::Clubs), normal(13, Suit::Clubs)],
        Some(5),
        Player::Human,
    );
    let n = game.log.len();
    click_card(&mut game, 0);
    assert_eq!(game.log.len(), n + 1);
    assert_eq!(game.log[n], "That card can't be played on the current run.");
    assert_eq!(game.human_hand.len(), 2);

    click_card(&mut game, 1);
    assert_eq!(game.human_hand, vec![normal(4, Suit::Clubs)]);
    assert_eq!(game.required_above, Some(12));
    assert_eq!(game.turn, Player::Ai);

    // Not the human's turn (the AI has to play or pass): clicks are ignored.
    let mut waiting = game_with(vec![normal(4, Suit::Clubs)], vec![normal(6, Suit::Clubs)], None, Player::Ai);
    let n = waiting.log.len();
    click_card(&mut waiting, 0);
    assert_eq!(waiting.log.len(), n);
    assert_eq!(waiting.human_hand.len(), 1);
}

#[test]
fn the_ai_moves_or_logs_a_pass() {
    let mut game = game_with(
        vec![normal(4, Suit::Clubs), normal(12, Suit::Hearts)],
        vec![normal(9, Suit::Clubs), normal(6, Suit::Clubs), Card::Comet],
        Some(5),
        Player::Ai,
    );
    ai_move(&mut game);
    assert_eq!(game.ai_hand, vec![normal(9, Suit::Clubs), Card::Comet]);
    assert_eq!(game.required_above, Some(6));
    assert_eq!(game.turn, Player::Human);

    let mut stuck = game_with(vec![normal(4, Suit::Clubs)], vec![normal(3, Suit::Clubs)], Some(5), Player::Ai);
    let n = stuck.log.len();
    ai_move(&mut stuck);
    assert_eq!(stuck.log.len(), n + 1);
    assert_eq!(stuck.log[n], "The AI has no valid play and passes.");
    assert_eq!(stuck.ai_hand.len(), 1);
}
