//! What holds of every play, proved over the game model.

use vstd::prelude::*;
use crate::cards::{Card, Suit, is_king_card, decimal, rank_text, card_text, suit_symbol};
use crate::deck::{fresh_deck, sorted_by_key};
use crate::game::{GameModel, Outcome, Player, after_play, after_passes, play_error, playable, opponent, ai_pick, ai_rank, next_required, holds_lowest, passes_message, restart_message};

verus! {

proof fn lemma_after_passes_keeps_hands(g: GameModel)
    ensures
        after_passes(g).human_hand == g.human_hand,
        after_passes(g).ai_hand == g.ai_hand,
        g.winner is Some ==> after_passes(g).winner == g.winner,
{
}

/// A play that is allowed takes exactly the played card out of the
/// player's hand and leaves the opponent's hand as it was, so each
/// successful play removes one card from the game.
pub proof fn law_play_removes_the_card(g: GameModel, p: Player, index: int)
    requires
        play_error(g, p, index) is None,
    ensures
        after_play(g, p, index).hand(p) == g.hand(p).remove(index),
        after_play(g, p, index).hand(opponent(p)) == g.hand(opponent(p)),
        after_play(g, p, index).card_count() + 1 == g.card_count(),
{
    let card = g.hand(p)[index];
    let rest = g.hand(p).remove(index);
    let g1 = GameModel { last_player: Some(p), ..g.with_hand(p, rest).logged(crate::game::plays_message(p, card)) };
    lemma_after_passes_keeps_hands(GameModel { required_above: None, ..g1.logged(crate::game::king_message(p)) });
    lemma_after_passes_keeps_hands(
        GameModel {
            required_above: Some(crate::game::next_required(card, g.required_above)),
            turn: opponent(p),
            ..g1
        },
    );
}

/// After a play resolves passes and restarts, either someone has won or
/// the player whose turn it is holds a card they may play: the game never
/// waits on a player with nothing to play.
pub proof fn law_turn_goes_to_a_player_who_can_play(g: GameModel, p: Player, index: int)
    requires
        play_error(g, p, index) is None,
        after_play(g, p, index).winner is None,
    ensures
        after_play(g, p, index).can_play(after_play(g, p, index).turn),
{
    let card = g.hand(p)[index];
    let rest = g.hand(p).remove(index);
    let g1 = GameModel { last_player: Some(p), ..g.with_hand(p, rest).logged(crate::game::plays_message(p, card)) };
    let h = if is_king_card(card) {
        GameModel { required_above: None, ..g1.logged(crate::game::king_message(p)) }
    } else {
        GameModel {
            required_above: Some(crate::game::next_required(card, g.required_above)),
            turn: opponent(p),
            ..g1
        }
    };
    assert(rest.len() > 0);
    lemma_after_passes_can_play(h);
}

proof fn lemma_after_passes_can_play(h: GameModel)
    requires
        h.winner is None,
        after_passes(h).winner is None,
    ensures
        after_passes(h).can_play(after_passes(h).turn),
{
    let r = after_passes(h);
    let t = h.turn;
    let o = opponent(t);
    if h.hand(t).len() > 0 && !h.can_play(t) && h.hand(o).len() > 0 {
        let g1 = GameModel { turn: o, ..h.logged(crate::game::passes_message(t)) };
        if !g1.can_play(o) {
            let leader = r.turn;
            assert(r.hand(leader).len() > 0);
            assert(playable(r.hand(leader)[0], r.required_above));
        }
    }
}

/// Whoever is declared the winner by a play has an empty hand.
pub proof fn law_winner_has_an_empty_hand(g: GameModel, p: Player, index: int)
    requires
        play_error(g, p, index) is None,
        after_play(g, p, index).winner is Some,
    ensures
        after_play(g, p, index).hand(after_play(g, p, index).winner.unwrap().winner).len() == 0,
{
}

/// Playing the last card of a hand wins the game, and it is a bonus win
/// exactly when that card is the Comet.
pub proof fn law_last_card_wins(g: GameModel, p: Player, index: int)
    requires
        play_error(g, p, index) is None,
        g.hand(p).len() == 1,
    ensures
        after_play(g, p, index).winner == Some(
            Outcome { winner: p, won_with_comet: g.hand(p)[index] == Card::Comet },
        ),
{
}

/// A King that does not end the game ends the run, and the player who
/// played it leads the next run.
pub proof fn law_king_ends_the_run(g: GameModel, p: Player, index: int)
    requires
        play_error(g, p, index) is None,
        is_king_card(g.hand(p)[index]),
        g.hand(p).len() > 1,
    ensures
        after_play(g, p, index).required_above is None,
        after_play(g, p, index).turn == p,
        after_play(g, p, index).winner is None,
{
    let rest = g.hand(p).remove(index);
    assert(rest.len() > 0);
    assert(playable(rest[0], None));
}

/// A card other than a King that does not end the game sets the rank the
/// opponent must beat (its own rank; one more than before for the Comet,
/// or the lowest rank on a fresh run), and when the opponent can beat it,
/// the turn passes to the opponent with that requirement.
pub proof fn law_card_sets_the_run(g: GameModel, p: Player, index: int)
    requires
        play_error(g, p, index) is None,
        !is_king_card(g.hand(p)[index]),
        g.hand(p).len() > 1,
        (GameModel { required_above: Some(next_required(g.hand(p)[index], g.required_above)), ..g }).can_play(opponent(p)),
    ensures
        after_play(g, p, index).turn == opponent(p),
        after_play(g, p, index).required_above == Some(next_required(g.hand(p)[index], g.required_above)),
        after_play(g, p, index).winner is None,
        g.hand(p)[index] == Card::Comet ==> next_required(g.hand(p)[index], g.required_above) == (match g.required_above {
            Some(m) => (m + 1) as u8,
            None => crate::cards::LOWEST_RANK,
        }),
{
    let card = g.hand(p)[index];
    let req = Some(next_required(card, g.required_above));
    let o = opponent(p);
    let probe = GameModel { required_above: req, ..g };
    let i = choose|i: int| 0 <= i < probe.hand(o).len() && playable(#[trigger] probe.hand(o)[i], req);
    let after = after_play(g, p, index);
    assert(after.hand(o) == g.hand(o)) by {
        law_play_removes_the_card(g, p, index);
    }
    assert(playable(after.hand(o)[i], req));
}

/// The Comet may be played whatever the run requires.
pub proof fn law_comet_is_always_playable(required_above: Option<u8>)
    ensures
        playable(Card::Comet, required_above),
{
}

/// The AI holds the Comet back: it picks the Comet only when every other
/// card it may play ranks above an Ace, that is, in a standard deck, only
/// when the Comet is its one legal card.
pub proof fn law_ai_keeps_the_comet_in_reserve(hand: Seq<Card>, required_above: Option<u8>, index: int)
    requires
        ai_pick(hand, required_above, index),
        hand[index] == Card::Comet,
    ensures
        forall|j: int|
            0 <= j < hand.len() && playable(#[trigger] hand[j], required_above) ==> hand[j] == Card::Comet
                || ai_rank(hand[j]) >= 15,
{
    assert forall|j: int| 0 <= j < hand.len() && playable(#[trigger] hand[j], required_above) implies hand[j]
        == Card::Comet || ai_rank(hand[j]) >= 15 by {
        assert(ai_rank(hand[index]) <= ai_rank(hand[j]));
    }
}

/// A playable card of the current player, if there is one.
pub open spec fn some_playable_index(g: GameModel) -> int {
    choose|i: int| 0 <= i < g.hand(g.turn).len() && playable(g.hand(g.turn)[i], g.required_above)
}

/// The game after the current player plays some playable card (or as
/// it is, when that play is refused).
pub open spec fn step(g: GameModel) -> GameModel {
    let i = some_playable_index(g);
    if play_error(g, g.turn, i) is None {
        after_play(g, g.turn, i)
    } else {
        g
    }
}

/// The game after `k` such plays.
pub open spec fn run(g: GameModel, k: nat) -> GameModel
    decreases k,
{
    if k == 0 {
        g
    } else {
        run(step(g), (k - 1) as nat)
    }
}

proof fn lemma_run_keeps_winner(g: GameModel, k: nat)
    requires
        g.winner is Some,
    ensures
        run(g, k) == g,
    decreases k,
{
    if k > 0 {
        assert(step(g) == g);
        lemma_run_keeps_winner(g, (k - 1) as nat);
    }
}

/// Every game ends: from any position where nobody has won yet and the
/// player to move can play, playing a legal card each turn produces a
/// winner within as many plays as there are cards left in the hands.
pub proof fn law_game_terminates(g: GameModel)
    requires
        g.winner is None,
        g.can_play(g.turn),
    ensures
        run(g, g.card_count()).winner is Some,
    decreases g.card_count(),
{
    let p = g.turn;
    let i = some_playable_index(g);
    assert(play_error(g, p, i) is None);
    let n = g.card_count();
    law_play_removes_the_card(g, p, i);
    let next = after_play(g, p, i);
    assert(step(g) == next);
    assert(n > 0);
    assert(run(g, n) == run(next, (n - 1) as nat));
    if next.winner is Some {
        lemma_run_keeps_winner(next, (n - 1) as nat);
    } else {
        law_turn_goes_to_a_player_who_can_play(g, p, i);
        law_game_terminates(next);
    }
}


/// Only a normal card of rank 13 is a King: no other rank, and not the
/// Comet.
pub proof fn law_only_rank_13_is_a_king(card: Card)
    ensures
        is_king_card(card) <==> (card matches Card::Normal { rank, .. } && rank == 13),
{
}

/// Which cards may be played: the Comet always; on a fresh run any card;
/// on a run above `min` exactly the normal cards of a rank strictly above
/// `min`.
pub proof fn law_playable_means_beating_the_run(rank: u8, suit: Suit, min: u8)
    ensures
        playable(Card::Comet, None),
        playable(Card::Comet, Some(min)),
        playable(Card::Normal { rank, suit }, None),
        playable(Card::Normal { rank, suit }, Some(min)) <==> rank > min,
{
}

/// `card` may be played on a run that requires a rank above `rank`:
/// it is the Comet or a normal card of a higher rank.
pub open spec fn beats(card: Card, rank: u8) -> bool {
    card == Card::Comet || (card is Normal && card->rank > rank)
}

/// A normal card that is not a King and does not empty the hand sets the
/// rank to beat to its own rank; when the opponent holds the Comet or a
/// higher card, the turn goes to the opponent on that run.
pub proof fn law_normal_card_sets_its_rank(g: GameModel, p: Player, index: int, rank: u8, suit: Suit)
    requires
        play_error(g, p, index) is None,
        g.hand(p)[index] == (Card::Normal { rank, suit }),
        rank != 13,
        g.hand(p).len() > 1,
        exists|k: int|
            0 <= k < g.hand(opponent(p)).len() && beats(#[trigger] g.hand(opponent(p))[k], rank),
    ensures
        after_play(g, p, index).required_above == Some(rank),
        after_play(g, p, index).turn == opponent(p),
        after_play(g, p, index).winner is None,
{
    let o = opponent(p);
    let k = choose|k: int|
        0 <= k < g.hand(o).len() && beats(#[trigger] g.hand(o)[k], rank);
    assert(next_required(g.hand(p)[index], g.required_above) == rank);
    let probe = GameModel { required_above: Some(rank), ..g };
    assert(probe.hand(o) == g.hand(o));
    assert(playable(probe.hand(o)[k], probe.required_above));
    law_card_sets_the_run(g, p, index);
}

/// The Comet, when it does not empty the hand, raises the rank to beat by
/// one (or sets it to the lowest rank on a fresh run); when the opponent
/// holds a card above that, the turn goes to the opponent on that run.
pub proof fn law_comet_raises_the_run_by_one(g: GameModel, p: Player, index: int, raised: u8)
    requires
        play_error(g, p, index) is None,
        g.hand(p)[index] == Card::Comet,
        g.hand(p).len() > 1,
        raised == (match g.required_above {
            Some(m) => m + 1,
            None => 2,
        }),
        exists|k: int|
            0 <= k < g.hand(opponent(p)).len() && beats(#[trigger] g.hand(opponent(p))[k], raised),
    ensures
        after_play(g, p, index).required_above == Some(raised),
        after_play(g, p, index).turn == opponent(p),
{
    let o = opponent(p);
    let k = choose|k: int|
        0 <= k < g.hand(o).len() && beats(#[trigger] g.hand(o)[k], raised);
    assert(next_required(g.hand(p)[index], g.required_above) == raised);
    let probe = GameModel { required_above: Some(raised), ..g };
    assert(probe.hand(o) == g.hand(o));
    assert(playable(probe.hand(o)[k], probe.required_above));
    law_card_sets_the_run(g, p, index);
}

/// The AI's pick is its lowest-ranked playable card: a normal card it
/// picks has a rank no greater than that of any playable normal card in
/// its hand and strictly smaller than those before it; it picks the Comet
/// only when every playable normal card ranks above an Ace.
pub proof fn law_ai_plays_its_lowest_card(hand: Seq<Card>, required_above: Option<u8>, index: int)
    requires
        ai_pick(hand, required_above, index),
    ensures
        hand[index] is Normal ==> forall|j: int|
            0 <= j < hand.len() && playable(#[trigger] hand[j], required_above) && hand[j] is Normal
                ==> hand[index]->rank <= hand[j]->rank,
        hand[index] is Normal ==> forall|j: int|
            0 <= j < index && playable(#[trigger] hand[j], required_above) && hand[j] is Normal
                ==> hand[index]->rank < hand[j]->rank,
        hand[index] == Card::Comet ==> forall|j: int|
            0 <= j < hand.len() && playable(#[trigger] hand[j], required_above) && hand[j] is Normal
                ==> hand[j]->rank > 14,
        playable(hand[index], required_above),
{
    assert forall|j: int|
        0 <= j < hand.len() && playable(#[trigger] hand[j], required_above) implies ai_rank(hand[index]) <= ai_rank(hand[j]) by {}
}


/// A card beats a rank exactly when it may be played on a run above it.
proof fn lemma_beats_is_playable(card: Card, rank: u8)
    ensures
        beats(card, rank) <==> playable(card, Some(rank)),
{
}

/// After a normal card (not a King) that leaves cards in the hand, an
/// opponent who holds nothing that beats it passes, and the player who
/// played leads on: the turn comes back with the same rank to beat.
pub proof fn law_opponent_who_cannot_answer_passes(g: GameModel, p: Player, index: int, rank: u8, suit: Suit)
    requires
        play_error(g, p, index) is None,
        g.hand(p)[index] == (Card::Normal { rank, suit }),
        rank != 13,
        g.hand(p).len() > 1,
        g.hand(opponent(p)).len() > 0,
        forall|k: int| 0 <= k < g.hand(opponent(p)).len() ==> !beats(#[trigger] g.hand(opponent(p))[k], rank),
        exists|k: int| 0 <= k < g.hand(p).remove(index).len() && beats(#[trigger] g.hand(p).remove(index)[k], rank),
    ensures
        after_play(g, p, index).turn == p,
        after_play(g, p, index).required_above == Some(rank),
        after_play(g, p, index).winner is None,
        after_play(g, p, index).log.len() == g.log.len() + 2,
        after_play(g, p, index).log[g.log.len() + 1int] == passes_message(opponent(p)),
{
    let o = opponent(p);
    let rest = g.hand(p).remove(index);
    let k = choose|k: int| 0 <= k < rest.len() && beats(#[trigger] rest[k], rank);
    lemma_beats_is_playable(rest[k], rank);
    assert forall|m: int| 0 <= m < g.hand(o).len() implies !playable(#[trigger] g.hand(o)[m], Some(rank)) by {
        lemma_beats_is_playable(g.hand(o)[m], rank);
    }
    assert(opponent(o) == p);
}

/// When after a normal card (not a King) that leaves cards in the hand
/// neither the opponent nor the player holds anything that beats it, both
/// pass and the player who played last starts a fresh run.
pub proof fn law_both_pass_and_the_last_player_restarts(g: GameModel, p: Player, index: int, rank: u8, suit: Suit)
    requires
        play_error(g, p, index) is None,
        g.hand(p)[index] == (Card::Normal { rank, suit }),
        rank != 13,
        g.hand(p).len() > 1,
        g.hand(opponent(p)).len() > 0,
        forall|k: int| 0 <= k < g.hand(opponent(p)).len() ==> !beats(#[trigger] g.hand(opponent(p))[k], rank),
        forall|k: int| 0 <= k < g.hand(p).remove(index).len() ==> !beats(#[trigger] g.hand(p).remove(index)[k], rank),
    ensures
        after_play(g, p, index).turn == p,
        after_play(g, p, index).required_above is None,
        after_play(g, p, index).winner is None,
        after_play(g, p, index).log.len() == g.log.len() + 4,
        after_play(g, p, index).log[g.log.len() + 1int] == passes_message(opponent(p)),
        after_play(g, p, index).log[g.log.len() + 2int] == passes_message(p),
        after_play(g, p, index).log[g.log.len() + 3int] == restart_message(p),
{
    let o = opponent(p);
    let rest = g.hand(p).remove(index);
    assert forall|m: int| 0 <= m < g.hand(o).len() implies !playable(#[trigger] g.hand(o)[m], Some(rank)) by {
        lemma_beats_is_playable(g.hand(o)[m], rank);
    }
    assert forall|m: int| 0 <= m < rest.len() implies !playable(#[trigger] rest[m], Some(rank)) by {
        lemma_beats_is_playable(rest[m], rank);
    }
    assert(opponent(o) == p);
}

/// Why a play is refused, in order: a finished game, another player's
/// turn, no card at that index, a normal card that does not beat the
/// run; any other play is allowed.
pub proof fn law_refusal_reasons(g: GameModel, p: Player, index: int)
    ensures
        g.winner is Some ==> play_error(g, p, index) == Some("The game is already over."@),
        g.winner is None && p != g.turn ==> play_error(g, p, index) == Some("It isn't your turn."@),
        g.winner is None && p == g.turn && !(0 <= index < g.hand(p).len()) ==> play_error(g, p, index) == Some(
            "No such card."@,
        ),
        g.winner is None && p == g.turn && 0 <= index < g.hand(p).len() && g.hand(p)[index] is Normal
            && g.required_above is Some && g.hand(p)[index]->rank <= g.required_above->0 ==> play_error(g, p, index)
            == Some("That card can't be played on the current run."@),
        g.winner is None && p == g.turn && 0 <= index < g.hand(p).len() && (g.required_above is None
            || beats(g.hand(p)[index], g.required_above->0)) ==> play_error(g, p, index) is None,
{
}

/// The player who leads a new game is the holder of the 2 of Clubs.
pub proof fn law_lowest_card_is_the_two_of_clubs(hand: Seq<Card>)
    ensures
        holds_lowest(hand) <==> hand.contains(Card::Normal { rank: 2, suit: Suit::Clubs }),
{
    let two = Card::Normal { rank: 2, suit: Suit::Clubs };
    if hand.contains(two) {
        let j = choose|j: int| 0 <= j < hand.len() && hand[j] == two;
        assert(crate::game::holds_lowest_at(hand, j));
    }
}

/// The two players alternate: each one's opponent is the other one.
pub proof fn law_opponents_alternate(p: Player)
    ensures
        opponent(p) != p,
        opponent(opponent(p)) == p,
        p == Player::Human || p == Player::Ai,
{
}


/// Suit `a` comes before suit `b` in the order clubs, diamonds, hearts,
/// spades.
pub open spec fn suit_before(a: Suit, b: Suit) -> bool {
    ||| a == Suit::Clubs && b != Suit::Clubs
    ||| a == Suit::Diamonds && (b == Suit::Hearts || b == Suit::Spades)
    ||| a == Suit::Hearts && b == Suit::Spades
}

/// A sorted hand runs by rank, and within a rank by suit (clubs,
/// diamonds, hearts, spades); the Comet comes after every card up to the
/// 9s and before every card from the 10s up.
pub proof fn law_sorted_hand_order(s: Seq<Card>, i: int, j: int)
    requires
        sorted_by_key(s),
        0 <= i < j < s.len(),
    ensures
        s[i] is Normal && s[j] is Normal ==> s[i]->rank < s[j]->rank || (s[i]->rank == s[j]->rank && (s[i]->suit
            == s[j]->suit || suit_before(s[i]->suit, s[j]->suit))),
        s[i] == Card::Comet && s[j] is Normal ==> s[j]->rank > 9,
        s[i] is Normal && s[j] == Card::Comet ==> s[i]->rank <= 9,
{
    assert(crate::deck::key_le(s[i], s[j]));
}

/// A fresh deck holds every normal card of ranks 2 to 14 in every suit,
/// except the 9 of Diamonds, and the Comet; nothing else.
pub proof fn law_fresh_deck_contents(rank: u8, suit: Suit, i: int)
    requires
        0 <= i < 52,
    ensures
        2 <= rank <= 14 ==> (fresh_deck().contains(Card::Normal { rank, suit }) <==> !(rank == 9 && suit
            == Suit::Diamonds)),
        fresh_deck()[i] == Card::Comet || (fresh_deck()[i] is Normal && 2 <= fresh_deck()[i]->rank <= 14),
{
    let d = fresh_deck();
    assert(0 <= i % 13 < 13) by (nonlinear_arith)
        requires 0 <= i;
    if 2 <= rank <= 14 && !(rank == 9 && suit == Suit::Diamonds) {
        let k: int = match suit {
            Suit::Clubs => 0,
            Suit::Diamonds => 1,
            Suit::Hearts => 2,
            Suit::Spades => 3,
        };
        let at: int = 13 * k + rank - 2;
        assert(at / 13 == k && at % 13 == rank - 2) by (nonlinear_arith)
            requires
                at == 13 * k + rank - 2,
                2 <= rank <= 14,
        ;
        assert(d[at] == (Card::Normal { rank, suit }));
    }
    if d.contains(Card::Normal { rank: 9, suit: Suit::Diamonds }) {
        let m = choose|m: int| 0 <= m < d.len() && d[m] == (Card::Normal { rank: 9, suit: Suit::Diamonds });
        assert(crate::deck::fresh_card(m) == d[m]);
    }
}

/// A fresh deck runs suit by suit (clubs, diamonds, hearts, spades), each
/// suit by rising rank.
pub proof fn law_fresh_deck_order(i: int, j: int)
    requires
        0 <= i < j < 52,
        fresh_deck()[i] is Normal,
        fresh_deck()[j] is Normal,
    ensures
        suit_before(fresh_deck()[i]->suit, fresh_deck()[j]->suit) || (fresh_deck()[i]->suit == fresh_deck()[j]->suit
            && fresh_deck()[i]->rank < fresh_deck()[j]->rank),
{
    assert(i / 13 <= j / 13) by (nonlinear_arith)
        requires 0 <= i < j;
    assert(i / 13 == j / 13 ==> i % 13 < j % 13) by (nonlinear_arith)
        requires 0 <= i < j;
    assert(0 <= j / 13 < 4) by (nonlinear_arith)
        requires 0 <= j < 52;
    assert(0 <= i % 13 < 13 && 0 <= j % 13 < 13) by (nonlinear_arith)
        requires 0 <= i, 0 <= j;
}


/// The number that a string of decimal digits stands for, most
/// significant digit first.
pub open spec fn digits_value(s: Seq<char>) -> int
    decreases s.len(),
{
    if s.len() == 0 {
        0
    } else {
        10 * digits_value(s.drop_last()) + (s.last() as int - 48)
    }
}

proof fn lemma_digit_char_value(d: nat)
    requires
        d < 10,
    ensures
        crate::cards::digit_char(d) as int == d + 48,
{
}

/// The decimal notation of a number is made of digits, has no leading
/// zero, and reads back as the number.
pub proof fn law_decimal_reads_back(n: nat)
    ensures
        digits_value(decimal(n)) == n,
        decimal(n).len() >= 1,
        forall|k: int| 0 <= k < decimal(n).len() ==> 48 <= #[trigger] decimal(n)[k] as int <= 57,
        decimal(n).len() > 1 ==> decimal(n)[0] != '0',
    decreases n,
{
    if n < 10 {
        lemma_digit_char_value(n);
        let s = decimal(n);
        assert(s.drop_last() =~= Seq::<char>::empty());
        assert(digits_value(s.drop_last()) == 0);
        assert(digits_value(s) == 10 * digits_value(s.drop_last()) + (s.last() as int - 48));
    } else {
        law_decimal_reads_back(n / 10);
        lemma_digit_char_value(n % 10);
        let s = decimal(n);
        assert(s.drop_last() =~= decimal(n / 10));
        assert(s[0] == decimal(n / 10)[0]);
        assert(s.last() == crate::cards::digit_char(n % 10));
        assert(digits_value(s) == 10 * digits_value(s.drop_last()) + (s.last() as int - 48));
        assert(n / 10 >= 1);
        if n / 10 < 10 {
            lemma_digit_char_value(n / 10);
            assert(decimal(n / 10)[0] == crate::cards::digit_char(n / 10));
        } else {
            law_decimal_reads_back(n / 100);
            assert(decimal(n / 10) == decimal(n / 10 / 10).push(crate::cards::digit_char(n / 10 % 10)));
            assert(n / 10 / 10 == n / 100);
            assert(decimal(n / 10).len() > 1);
        }
        assert(10 * (n / 10) + n % 10 == n);
    }
}


/// The ranks 2 to 10 are written as their number; Jack, Queen, King and
/// Ace as a single letter.
pub proof fn law_rank_text(rank: u8)
    ensures
        2 <= rank <= 10 ==> digits_value(rank_text(rank)) == rank,
        2 <= rank <= 10 ==> forall|k: int| 0 <= k < rank_text(rank).len() ==> 48 <= #[trigger] rank_text(rank)[k] as int <= 57,
        11 <= rank <= 14 ==> rank_text(rank).len() == 1 && !(48 <= rank_text(rank)[0] as int <= 57),
{
    law_decimal_reads_back(rank as nat);
    reveal_strlit("J");
    reveal_strlit("Q");
    reveal_strlit("K");
    reveal_strlit("A");
}

/// A play that wins with a bonus is the player's last card, the Comet; a
/// player declared the winner for having no cards when the turn comes
/// round never gets the bonus.
pub proof fn law_bonus_win_needs_the_comet(g: GameModel, p: Player, index: int)
    requires
        play_error(g, p, index) is None,
        after_play(g, p, index).winner matches Some(o) && o.won_with_comet,
    ensures
        g.hand(p).len() == 1,
        g.hand(p)[index] == Card::Comet,
        after_play(g, p, index).winner == Some(Outcome { winner: p, won_with_comet: true }),
{
}


proof fn lemma_digits_value_injective_small(a: u8, b: u8)
    requires
        2 <= a <= 10,
        2 <= b <= 10,
        rank_text(a) == rank_text(b),
    ensures
        a == b,
{
    law_rank_text(a);
    law_rank_text(b);
}

proof fn lemma_rank_text_short(rank: u8)
    requires
        2 <= rank <= 14,
    ensures
        rank_text(rank).len() <= 2,
{
    reveal_strlit("J");
    reveal_strlit("Q");
    reveal_strlit("K");
    reveal_strlit("A");
    if rank == 10 {
        assert(decimal(10) == decimal(1).push(crate::cards::digit_char(0)));
    }
}

/// Different cards (of ranks 2 to 14) are displayed differently: the
/// last character names the suit, what comes before it the rank.
pub proof fn law_cards_display_differently(a: Card, b: Card)
    requires
        a is Normal ==> 2 <= a->rank <= 14,
        b is Normal ==> 2 <= b->rank <= 14,
        a != b,
    ensures
        card_text(a) != card_text(b),
{
    reveal_strlit("♣");
    reveal_strlit("♦");
    reveal_strlit("♥");
    reveal_strlit("♠");
    reveal_strlit("☄ Comet");
    reveal_strlit("J");
    reveal_strlit("Q");
    reveal_strlit("K");
    reveal_strlit("A");
    if a is Normal {
        law_rank_text(a->rank);
        law_decimal_reads_back(a->rank as nat);
    }
    if b is Normal {
        law_rank_text(b->rank);
        law_decimal_reads_back(b->rank as nat);
    }
    if card_text(a) == card_text(b) {
        if a is Normal && b is Normal {
            let ta = card_text(a);
            assert(suit_symbol(a->suit).len() == 1 && suit_symbol(b->suit).len() == 1);
            assert(ta.last() == suit_symbol(a->suit)[0]);
            assert(card_text(b).last() == suit_symbol(b->suit)[0]);
            assert(a->suit == b->suit);
            assert(rank_text(a->rank) =~= ta.drop_last());
            assert(rank_text(b->rank) =~= card_text(b).drop_last());
            if a->rank <= 10 && b->rank <= 10 {
                lemma_digits_value_injective_small(a->rank, b->rank);
            } else if a->rank > 10 && b->rank > 10 {
                assert(rank_text(a->rank)[0] == rank_text(b->rank)[0]);
            } else {
                assert(rank_text(a->rank)[0] == rank_text(b->rank)[0]);
            }
        } else if a is Normal {
            lemma_rank_text_short(a->rank);
            assert(card_text(a).len() <= 4);
        } else if b is Normal {
            lemma_rank_text_short(b->rank);
            assert(card_text(b).len() <= 4);
        }
    }
}

} // verus!
