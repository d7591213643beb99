//! What the game window shows and what a click or the AI's timer does to
//! the game.

use vstd::prelude::*;
use crate::cards::{Card, Suit, rank_label, rank_text};
use crate::game::{Game, GameModel, Player, player_name, play_error, after_play, play_overflows, ai_pick};

verus! {

pub open spec fn suit_initial(suit: Suit) -> Seq<char> {
    match suit {
        Suit::Clubs => "C"@,
        Suit::Diamonds => "D"@,
        Suit::Hearts => "H"@,
        Suit::Spades => "S"@,
    }
}

/// How a card is labelled on its face in the game window.
pub open spec fn face_text(card: Card) -> Seq<char> {
    match card {
        Card::Comet => "COMET"@,
        Card::Normal { rank, suit } => rank_text(rank) + suit_initial(suit),
    }
}

/// The status line: who won, or whose turn it is and what may be played.
pub open spec fn status_line(g: GameModel) -> Seq<char> {
    match g.winner {
        Some(outcome) => player_name(outcome.winner) + " WON THE GAME"@ + (if outcome.won_with_comet {
            " WITH THE COMET - BONUS WIN"@
        } else {
            ""@
        }) + "!"@,
        None => (if g.turn == Player::Human {
            "YOUR TURN"@
        } else {
            "AI'S TURN"@
        }) + " - "@ + match g.required_above {
            Some(min) => "PLAY HIGHER THAN "@ + rank_text(min) + " (OR COMET)"@,
            None => "START A NEW RUN WITH ANY CARD"@,
        },
    }
}

/// The line logged when the AI's turn comes and it has nothing to play.
pub open spec fn ai_passes_message() -> Seq<char> {
    "The AI has no valid play and passes."@
}

pub fn suit_letter(suit: Suit) -> (s: &'static str)
    ensures
        s@ == suit_initial(suit),
{
    match suit {
        Suit::Clubs => "C",
        Suit::Diamonds => "D",
        Suit::Hearts => "H",
        Suit::Spades => "S",
    }
}

pub fn card_label(card: Card) -> (s: String)
    ensures
        s@ == face_text(card),
{
    match card {
        Card::Comet => "COMET".to_string(),
        Card::Normal { rank, suit } => {
            let mut s = rank_label(rank);
            s.append(suit_letter(suit));
            s
        },
    }
}

pub fn status_text(game: &Game) -> (s: String)
    ensures
        s@ == status_line(game@),
{
    match &game.winner {
        Some(outcome) => {
            let mut s = String::from_str(outcome.winner.label());
            s.append(" WON THE GAME");
            if outcome.won_with_comet {
                s.append(" WITH THE COMET - BONUS WIN");
            }
            proof {
                reveal_strlit("");
                assert(s@ + ""@ =~= s@);
            }
            s.append("!");
            s
        },
        None => {
            let mut s = if game.turn == Player::Human {
                String::from_str("YOUR TURN")
            } else {
                String::from_str("AI'S TURN")
            };
            s.append(" - ");
            match game.required_above {
                Some(min) => {
                    s.append("PLAY HIGHER THAN ");
                    let r = rank_label(min);
                    s.append(r.as_str());
                    s.append(" (OR COMET)");
                },
                None => {
                    s.append("START A NEW RUN WITH ANY CARD");
                },
            }
            s
        },
    }
}


/// Nobody has won and it is `p`'s turn.
pub open spec fn is_turn_of(g: GameModel, p: Player) -> bool {
    g.winner is None && g.turn == p
}

/// A finished game waits on nobody; otherwise it waits on the player
/// whose turn it is.
pub proof fn law_turn_of(g: GameModel, p: Player)
    ensures
        g.winner is Some ==> !is_turn_of(g, p),
        g.winner is None ==> (is_turn_of(g, p) <==> g.turn == p),
{
}

/// Whether the game is waiting on the AI.
pub fn is_ai_turn(game: &Game) -> (b: bool)
    ensures
        b == is_turn_of(game@, Player::Ai),
{
    game.winner.is_none() && game.turn == Player::Ai
}

/// Whether the game is waiting on the human player.
pub fn is_human_turn(game: &Game) -> (b: bool)
    ensures
        b == is_turn_of(game@, Player::Human),
{
    game.winner.is_none() && game.turn == Player::Human
}

/// Two indices that both satisfy `ai_pick` are the same.
pub proof fn lemma_ai_pick_unique(hand: Seq<Card>, required_above: Option<u8>, i: int, j: int)
    requires
        ai_pick(hand, required_above, i),
        ai_pick(hand, required_above, j),
    ensures
        i == j,
{
    if i < j {
        assert(crate::game::ai_rank(hand[j]) < crate::game::ai_rank(hand[i]));
    } else if j < i {
        assert(crate::game::ai_rank(hand[i]) < crate::game::ai_rank(hand[j]));
    }
}

/// The AI's move once its thinking time is up: it plays the card it
/// picks (a refused play changes nothing), or logs that it passes when it
/// has nothing to play.
pub fn ai_move(game: &mut Game)
    requires
        forall|i: int| ai_pick(old(game)@.ai_hand, old(game)@.required_above, i) ==> !play_overflows(old(game)@, Player::Ai, i),
    ensures
        !old(game)@.can_play(Player::Ai) ==> final(game)@ == old(game)@.logged(ai_passes_message()),
        forall|i: int| ai_pick(old(game)@.ai_hand, old(game)@.required_above, i) ==> final(game)@ == (if play_error(old(game)@, Player::Ai, i) is None {
            after_play(old(game)@, Player::Ai, i)
        } else {
            old(game)@
        }),
{
    match game.ai_choose_play() {
        Some(index) => {
            let _ = game.play(Player::Ai, index);
            proof {
                assert forall|i: int| ai_pick(old(game)@.ai_hand, old(game)@.required_above, i) implies i == index by {
                    lemma_ai_pick_unique(old(game)@.ai_hand, old(game)@.required_above, i, index as int);
                }
            }
        },
        None => {
            let message = "The AI has no valid play and passes.".to_string();
            game.log.push(message);
            proof {
                assert(crate::game::log_view(game.log@) =~= crate::game::log_view(old(game).log@).push(ai_passes_message()));
                assert forall|i: int| ai_pick(old(game)@.ai_hand, old(game)@.required_above, i) implies false by {
                    assert(crate::game::playable(old(game)@.ai_hand[i], old(game)@.required_above));
                }
            }
        },
    }
}

/// A click on the card at `index` of the human's hand: ignored unless the
/// game is waiting on the human; otherwise the card is played, and a
/// refusal is logged.
pub fn click_card(game: &mut Game, index: usize)
    requires
        !play_overflows(old(game)@, Player::Human, index as int),
    ensures
        !is_turn_of(old(game)@, Player::Human) ==> final(game)@ == old(game)@,
        is_turn_of(old(game)@, Player::Human) ==> final(game)@ == (match play_error(old(game)@, Player::Human, index as int) {
            Some(e) => old(game)@.logged(e),
            None => after_play(old(game)@, Player::Human, index as int),
        }),
{
    if !is_human_turn(game) {
        return;
    }
    if let Err(err) = game.play(Player::Human, index) {
        game.log.push(err);
        proof {
            assert(crate::game::log_view(game.log@) =~= crate::game::log_view(old(game).log@).push(err@));
        }
    }
}

} // verus!
