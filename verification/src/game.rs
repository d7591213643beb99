//! The state and rules of a two-player Comet game.

pub mod table;

use vstd::prelude::*;
use crate::cards::{Card, Suit, is_king_card, card_text, LOWEST_RANK};
use crate::deck::{build_deck, shuffle, sort_hand, fisher_yates, fresh_deck, sorted_by_key, law_shuffle_keeps_cards, law_fresh_deck};

verus! {

#[derive(Clone, Copy, PartialEq, Eq, Debug, Structural)]
pub enum Player {
    Human,
    Ai,
}

pub open spec fn opponent(p: Player) -> Player {
    match p {
        Player::Human => Player::Ai,
        Player::Ai => Player::Human,
    }
}

/// How a player is named in messages.
pub open spec fn player_name(p: Player) -> Seq<char> {
    match p {
        Player::Human => "You"@,
        Player::Ai => "The AI"@,
    }
}

impl Player {
    pub fn other(self) -> (o: Player)
        ensures
            o == opponent(self),
    {
        match self {
            Player::Human => Player::Ai,
            Player::Ai => Player::Human,
        }
    }

    pub fn label(self) -> (s: &'static str)
        ensures
            s@ == player_name(self),
    {
        match self {
            Player::Human => "You",
            Player::Ai => "The AI",
        }
    }
}

#[derive(Clone, Debug)]
pub struct Outcome {
    pub winner: Player,
    pub won_with_comet: bool,
}

/// Whether `card` may be played when the run requires a rank above
/// `required_above` (any card may start a fresh run).
pub open spec fn playable(card: Card, required_above: Option<u8>) -> bool {
    match card {
        Card::Comet => true,
        Card::Normal { rank, .. } => match required_above {
            None => true,
            Some(min) => rank > min,
        },
    }
}

/// The rank the next card must exceed after `card` is played on a run
/// that required a rank above `required_above`.
pub open spec fn next_required(card: Card, required_above: Option<u8>) -> u8 {
    match card {
        Card::Comet => match required_above {
            Some(m) => (m + 1) as u8,
            None => LOWEST_RANK,
        },
        Card::Normal { rank, .. } => rank,
    }
}

// The messages of the game log.
pub open spec fn dealt_message() -> Seq<char> {
    "New game dealt. 26 cards each; lowest card leads."@
}

pub open spec fn leads_message(p: Player) -> Seq<char> {
    player_name(p) + " leads the first run."@
}

pub open spec fn plays_message(p: Player, card: Card) -> Seq<char> {
    player_name(p) + " plays "@ + card_text(card) + "."@
}

pub open spec fn wins_message(p: Player, with_comet: bool) -> Seq<char> {
    if with_comet {
        player_name(p) + " wins with the Comet as the final card! ✨ Bonus win!"@
    } else {
        player_name(p) + " has emptied their hand and wins!"@
    }
}

pub open spec fn king_message(p: Player) -> Seq<char> {
    "The run ends on the King. "@ + player_name(p) + " starts a new run."@
}

pub open spec fn passes_message(p: Player) -> Seq<char> {
    player_name(p) + " has no valid play and passes."@
}

pub open spec fn restart_message(p: Player) -> Seq<char> {
    "Neither player can continue. "@ + player_name(p) + " starts a new run."@
}

pub open spec fn over_error() -> Seq<char> {
    "The game is already over."@
}

pub open spec fn turn_error() -> Seq<char> {
    "It isn't your turn."@
}

pub open spec fn no_card_error() -> Seq<char> {
    "No such card."@
}

pub open spec fn unplayable_error() -> Seq<char> {
    "That card can't be played on the current run."@
}

/// The state of a game as plain values.
pub struct GameModel {
    pub human_hand: Seq<Card>,
    pub ai_hand: Seq<Card>,
    pub required_above: Option<u8>,
    pub turn: Player,
    pub last_player: Option<Player>,
    pub winner: Option<Outcome>,
    pub log: Seq<Seq<char>>,
}

impl GameModel {
    pub open spec fn hand(self, p: Player) -> Seq<Card> {
        match p {
            Player::Human => self.human_hand,
            Player::Ai => self.ai_hand,
        }
    }

    pub open spec fn with_hand(self, p: Player, hand: Seq<Card>) -> GameModel {
        match p {
            Player::Human => GameModel { human_hand: hand, ..self },
            Player::Ai => GameModel { ai_hand: hand, ..self },
        }
    }

    pub open spec fn logged(self, message: Seq<char>) -> GameModel {
        GameModel { log: self.log.push(message), ..self }
    }

    /// `p` holds a card that may be played on the current run.
    pub open spec fn can_play(self, p: Player) -> bool {
        exists|i: int| 0 <= i < self.hand(p).len() && playable(#[trigger] self.hand(p)[i], self.required_above)
    }

    /// The cards still in the players' hands.
    pub open spec fn card_count(self) -> nat {
        self.human_hand.len() + self.ai_hand.len()
    }
}

/// What happens after a card has been played and the turn handed on:
/// a player who cannot play passes; if both pass, the run is restarted by
/// whoever played last; a player to move with an empty hand is declared
/// the winner.
pub open spec fn after_passes(g: GameModel) -> GameModel {
    let t = g.turn;
    let o = opponent(t);
    if g.winner is Some {
        g
    } else if g.hand(t).len() == 0 {
        GameModel { winner: Some(Outcome { winner: t, won_with_comet: false }), ..g }
    } else if g.can_play(t) {
        g
    } else {
        let g1 = GameModel { turn: o, ..g.logged(passes_message(t)) };
        if g1.hand(o).len() == 0 {
            GameModel { winner: Some(Outcome { winner: o, won_with_comet: false }), ..g1 }
        } else if g1.can_play(o) {
            g1
        } else {
            let leader = match g.last_player {
                Some(p) => p,
                None => t,
            };
            GameModel {
                required_above: None,
                turn: leader,
                ..g1.logged(passes_message(o)).logged(restart_message(leader))
            }
        }
    }
}

/// Why `p` may not play the card at `index`, if it may not.
pub open spec fn play_error(g: GameModel, p: Player, index: int) -> Option<Seq<char>> {
    if g.winner is Some {
        Some(over_error())
    } else if p != g.turn {
        Some(turn_error())
    } else if !(0 <= index < g.hand(p).len()) {
        Some(no_card_error())
    } else if !playable(g.hand(p)[index], g.required_above) {
        Some(unplayable_error())
    } else {
        None
    }
}

/// The game after `p` plays the card at `index`, a play that
/// `play_error` allows: the card leaves the hand and is logged; emptying
/// the hand wins (a bonus win when the card is the Comet); a King ends
/// the run and its player leads the next one; any other card sets the
/// rank to beat and hands the turn to the opponent.
pub open spec fn after_play(g: GameModel, p: Player, index: int) -> GameModel {
    let card = g.hand(p)[index];
    let rest = g.hand(p).remove(index);
    let g1 = GameModel { last_player: Some(p), ..g.with_hand(p, rest).logged(plays_message(p, card)) };
    if rest.len() == 0 {
        let with_comet = card == Card::Comet;
        GameModel {
            winner: Some(Outcome { winner: p, won_with_comet: with_comet }),
            ..g1.logged(wins_message(p, with_comet))
        }
    } else if is_king_card(card) {
        after_passes(GameModel { required_above: None, ..g1.logged(king_message(p)) })
    } else {
        after_passes(
            GameModel {
                required_above: Some(next_required(card, g.required_above)),
                turn: opponent(p),
                ..g1
            },
        )
    }
}

/// The one play the rules cannot carry out: raising with the Comet, while
/// other cards remain in the hand, a run that already requires 255, the
/// highest rank a `u8` holds. (As the last card the Comet simply wins.)
pub open spec fn play_overflows(g: GameModel, p: Player, index: int) -> bool {
    &&& play_error(g, p, index) is None
    &&& g.hand(p).len() > 1
    &&& g.hand(p)[index] == Card::Comet
    &&& g.required_above == Some(255u8)
}

/// Full mutable state of a two-player Comet game.
pub struct Game {
    pub human_hand: Vec<Card>,
    pub ai_hand: Vec<Card>,
    /// Rank the next card must exceed, or `None` if a fresh run may be
    /// started with any card.
    pub required_above: Option<u8>,
    pub turn: Player,
    /// Player who last successfully played a card; leads the next run if
    /// the current one dies with both players passing.
    pub last_player: Option<Player>,
    pub winner: Option<Outcome>,
    pub log: Vec<String>,
}

pub open spec fn log_view(log: Seq<String>) -> Seq<Seq<char>> {
    log.map_values(|s: String| s@)
}

impl View for Game {
    type V = GameModel;

    open spec fn view(&self) -> GameModel {
        GameModel {
            human_hand: self.human_hand@,
            ai_hand: self.ai_hand@,
            required_above: self.required_above,
            turn: self.turn,
            last_player: self.last_player,
            winner: self.winner,
            log: log_view(self.log@),
        }
    }
}



/// The indices among the first `n` cards of `hand` that may be played,
/// in ascending order.
pub open spec fn playable_indices(hand: Seq<Card>, required_above: Option<u8>, n: int) -> Seq<usize>
    decreases n,
{
    if n <= 0 {
        Seq::empty()
    } else if playable(hand[n - 1], required_above) {
        playable_indices(hand, required_above, n - 1).push((n - 1) as usize)
    } else {
        playable_indices(hand, required_above, n - 1)
    }
}

/// The indices listed by `playable_indices` are exactly the playable
/// ones, in strictly ascending order.
pub proof fn lemma_playable_indices(hand: Seq<Card>, required_above: Option<u8>, n: int)
    requires
        0 <= n <= hand.len(),
        hand.len() <= usize::MAX,
    ensures
        ({
            let r = playable_indices(hand, required_above, n);
            &&& forall|k: int| 0 <= k < r.len() ==> #[trigger] r[k] < n && playable(hand[r[k] as int], required_above)
            &&& forall|a: int, b: int| 0 <= a < b < r.len() ==> #[trigger] r[a] < #[trigger] r[b]
            &&& forall|i: int| 0 <= i < n && playable(hand[i], required_above) ==> #[trigger] r.contains(i as usize)
        }),
    decreases n,
{
    if n > 0 {
        lemma_playable_indices(hand, required_above, n - 1);
        let prev = playable_indices(hand, required_above, n - 1);
        if playable(hand[n - 1], required_above) {
            let r = prev.push((n - 1) as usize);
            assert forall|i: int| 0 <= i < n && playable(hand[i], required_above) implies #[trigger] r.contains(i as usize) by {
                if i == n - 1 {
                    assert(r[r.len() - 1] == (n - 1) as usize);
                } else {
                    assert(prev.contains(i as usize));
                    let k = choose|k: int| 0 <= k < prev.len() && prev[k] == i as usize;
                    assert(r[k] == i as usize);
                }
            }
        }
    }
}

/// `index` is the card the AI picks from `hand`: the lowest-ranked
/// playable card, with the Comet ranked just above an Ace, and the
/// first such card when several share that rank.
pub open spec fn ai_pick(hand: Seq<Card>, required_above: Option<u8>, index: int) -> bool {
    &&& 0 <= index < hand.len()
    &&& playable(hand[index], required_above)
    &&& forall|j: int| 0 <= j < hand.len() && playable(#[trigger] hand[j], required_above)
            ==> ai_rank(hand[index]) <= ai_rank(hand[j])
    &&& forall|j: int| 0 <= j < index && playable(#[trigger] hand[j], required_above)
            ==> ai_rank(hand[index]) < ai_rank(hand[j])
}

/// The rank the AI ranks a card by: its own rank, or 15 for the Comet.
pub open spec fn ai_rank(card: Card) -> int {
    match card {
        Card::Normal { rank, .. } => rank as int,
        Card::Comet => 15,
    }
}

fn ai_rank_of(card: Card) -> (r: u8)
    ensures
        r == ai_rank(card),
{
    match card {
        Card::Normal { rank, .. } => rank,
        Card::Comet => 15,
    }
}

fn push_message(log: &mut Vec<String>, message: String)
    ensures
        log_view(final(log)@) == log_view(old(log)@).push(message@),
{
    log.push(message);
    assert(log_view(log@) =~= log_view(old(log)@).push(message@));
}

fn plays_text(p: Player, card: Card) -> (s: String)
    ensures
        s@ == plays_message(p, card),
{
    let mut s = String::from_str(p.label());
    s.append(" plays ");
    let shown = card.display();
    s.append(shown.as_str());
    s.append(".");
    s
}

fn wins_text(p: Player, with_comet: bool) -> (s: String)
    ensures
        s@ == wins_message(p, with_comet),
{
    let mut s = String::from_str(p.label());
    if with_comet {
        s.append(" wins with the Comet as the final card! ✨ Bonus win!");
    } else {
        s.append(" has emptied their hand and wins!");
    }
    s
}

fn king_text(p: Player) -> (s: String)
    ensures
        s@ == king_message(p),
{
    let mut s = String::from_str("The run ends on the King. ");
    s.append(p.label());
    s.append(" starts a new run.");
    s
}

fn passes_text(p: Player) -> (s: String)
    ensures
        s@ == passes_message(p),
{
    let mut s = String::from_str(p.label());
    s.append(" has no valid play and passes.");
    s
}

fn restart_text(p: Player) -> (s: String)
    ensures
        s@ == restart_message(p),
{
    let mut s = String::from_str("Neither player can continue. ");
    s.append(p.label());
    s.append(" starts a new run.");
    s
}

/// The lowest card of the deck, the 2 of Clubs.
pub open spec fn lowest_card() -> Card {
    Card::Normal { rank: LOWEST_RANK, suit: Suit::Clubs }
}

/// The card at `i` of `hand` is the lowest card.
pub open spec fn holds_lowest_at(hand: Seq<Card>, i: int) -> bool {
    hand[i] == lowest_card()
}

/// `hand` holds the lowest card.
pub open spec fn holds_lowest(hand: Seq<Card>) -> bool {
    exists|i: int| 0 <= i < hand.len() && holds_lowest_at(hand, i)
}

/// With no run to beat, anyone holding a card can play.
proof fn lemma_fresh_run_playable(g: GameModel, p: Player)
    requires
        g.required_above is None,
        g.hand(p).len() > 0,
    ensures
        g.can_play(p),
{
    assert(playable(g.hand(p)[0], g.required_above));
}

impl Game {
    /// Deals a new game from a deck shuffled with `draws` (see
    /// `deck::shuffle`): the first 26 cards go to the human, the rest to
    /// the AI, each hand sorted; whoever holds the lowest card, the 2 of
    /// Clubs, leads.
    pub fn new(draws: &Vec<usize>) -> (game: Game)
        requires
            draws@.len() >= 51,
        ensures
            game@.human_hand.to_multiset() == fisher_yates(fresh_deck(), draws@).take(26).to_multiset(),
            game@.ai_hand.to_multiset() == fisher_yates(fresh_deck(), draws@).skip(26).to_multiset(),
            sorted_by_key(game@.human_hand),
            sorted_by_key(game@.ai_hand),
            game@.human_hand.len() == 26,
            game@.ai_hand.len() == 26,
            game@.human_hand.to_multiset().add(game@.ai_hand.to_multiset()) == fresh_deck().to_multiset(),
            game@.required_above is None,
            game@.last_player is None,
            game@.winner is None,
            game@.turn == (if holds_lowest(game@.human_hand) { Player::Human } else { Player::Ai }),
            holds_lowest(game@.hand(game@.turn)),
            game@.log == seq![dealt_message(), leads_message(game@.turn)],
    {
        let mut deck = build_deck();
        shuffle(&mut deck, draws);
        let ghost shuffled = deck@;
        proof {
            law_fresh_deck();
            law_shuffle_keeps_cards(fresh_deck(), draws@);
        }
        let mut ai_hand = deck.split_off(26);
        let mut human_hand = deck;
        proof {
            assert(shuffled.take(26) =~= human_hand@);
            assert(shuffled.skip(26) =~= ai_hand@);
            assert(shuffled =~= human_hand@ + ai_hand@);
            vstd::seq_lib::lemma_multiset_commutative(human_hand@, ai_hand@);
        }
        sort_hand(&mut human_hand);
        sort_hand(&mut ai_hand);

        // Whoever holds the lowest card, the 2 of Clubs, leads.
        let mut human_leads = false;
        let mut i: usize = 0;
        while i < human_hand.len()
            invariant
                i <= human_hand@.len(),
                human_leads == (exists|j: int| 0 <= j < i && holds_lowest_at(human_hand@, j)),
            decreases human_hand@.len() - i,
        {
            if human_hand[i] == (Card::Normal { rank: LOWEST_RANK, suit: Suit::Clubs }) {
                human_leads = true;
            }
            proof {
                if holds_lowest_at(human_hand@, i as int) {
                    assert(human_leads);
                }
            }
            i = i + 1;
        }

        proof {
            // Exactly one of the hands holds the 2 of Clubs, the deck's first card.
            broadcast use vstd::seq_lib::group_to_multiset_ensures;
            broadcast use vstd::multiset::group_multiset_axioms;
            let deck = fresh_deck();
            assert(deck[0] == lowest_card());
            assert(deck.contains(lowest_card()));
            assert(deck.to_multiset().count(lowest_card()) > 0);
            if !human_leads {
                assert(!human_hand@.contains(lowest_card())) by {
                    if human_hand@.contains(lowest_card()) {
                        let j = choose|j: int| 0 <= j < human_hand@.len() && human_hand@[j] == lowest_card();
                        assert(holds_lowest_at(human_hand@, j));
                    }
                }
                assert(human_hand@.to_multiset().count(lowest_card()) == 0);
                assert(ai_hand@.to_multiset().count(lowest_card()) > 0);
                assert(ai_hand@.contains(lowest_card()));
                let j = choose|j: int| 0 <= j < ai_hand@.len() && ai_hand@[j] == lowest_card();
                assert(holds_lowest_at(ai_hand@, j));
            }
        }
        let mut log: Vec<String> = Vec::new();
        push_message(&mut log, "New game dealt. 26 cards each; lowest card leads.".to_string());
        let turn = if human_leads { Player::Human } else { Player::Ai };
        let mut leads = String::from_str(turn.label());
        leads.append(" leads the first run.");
        push_message(&mut log, leads);
        proof {
            assert(log_view(log@) =~= seq![dealt_message(), leads_message(turn)]);
        }
        Game {
            human_hand,
            ai_hand,
            required_above: None,
            turn,
            last_player: None,
            winner: None,
            log,
        }
    }

    fn hand(&self, player: Player) -> (h: &Vec<Card>)
        ensures
            h@ == self@.hand(player),
    {
        match player {
            Player::Human => &self.human_hand,
            Player::Ai => &self.ai_hand,
        }
    }

    fn hand_mut(&mut self, player: Player) -> (h: &mut Vec<Card>)
        ensures
            h@ == old(self)@.hand(player),
            final(self)@ == old(self)@.with_hand(player, final(h)@),
    {
        match player {
            Player::Human => &mut self.human_hand,
            Player::Ai => &mut self.ai_hand,
        }
    }

    pub fn is_valid_play(&self, card: Card) -> (b: bool)
        ensures
            b == playable(card, self@.required_above),
    {
        match card {
            Card::Comet => true,
            Card::Normal { rank, .. } => match self.required_above {
                None => true,
                Some(min) => rank > min,
            },
        }
    }

    /// The positions in `player`'s hand of the cards that may be played,
    /// in ascending order.
    pub fn valid_play_indices(&self, player: Player) -> (v: Vec<usize>)
        ensures
            v@ == playable_indices(self@.hand(player), self@.required_above, self@.hand(player).len() as int),
    {
        let hand = self.hand(player);
        let mut v: Vec<usize> = Vec::new();
        let mut i: usize = 0;
        while i < hand.len()
            invariant
                hand@ == self@.hand(player),
                i <= hand@.len(),
                v@ == playable_indices(hand@, self@.required_above, i as int),
            decreases hand@.len() - i,
        {
            if self.is_valid_play(hand[i]) {
                v.push(i);
            }
            i = i + 1;
        }
        v
    }

    /// Plays card at `index` from `player`'s hand. Returns an error string
    /// if it isn't that player's turn or the card can't legally be played.
    pub fn play(&mut self, player: Player, index: usize) -> (r: Result<(), String>)
        requires
            !play_overflows(old(self)@, player, index as int),
        ensures
            play_error(old(self)@, player, index as int) is Some ==> r is Err && final(self)@ == old(self)@,
            r matches Err(m) ==> play_error(old(self)@, player, index as int) == Some(m@),
            play_error(old(self)@, player, index as int) is None ==> r is Ok && final(self)@ == after_play(
                old(self)@,
                player,
                index as int,
            ),
    {
        if self.winner.is_some() {
            return Err("The game is already over.".to_string());
        }
        if player != self.turn {
            return Err("It isn't your turn.".to_string());
        }
        if index >= self.hand(player).len() {
            return Err("No such card.".to_string());
        }
        let card = self.hand(player)[index];
        if !self.is_valid_play(card) {
            return Err("That card can't be played on the current run.".to_string());
        }
        self.hand_mut(player).remove(index);
        let message = plays_text(player, card);
        push_message(&mut self.log, message);
        self.last_player = Some(player);

        let won_with_comet = card == Card::Comet;
        if self.hand(player).is_empty() {
            self.winner = Some(Outcome { winner: player, won_with_comet });
            let message = wins_text(player, won_with_comet);
            push_message(&mut self.log, message);
            return Ok(());
        }
        if card.is_king() {
            self.required_above = None;
            let message = king_text(player);
            push_message(&mut self.log, message);
        } else {
            let next_min = match card {
                Card::Comet => match self.required_above {
                    Some(m) => m + 1,
                    None => LOWEST_RANK,
                },
                Card::Normal { rank, .. } => rank,
            };
            self.required_above = Some(next_min);
            self.turn = player.other();
        }
        self.resolve_turn();
        Ok(())
    }

    /// Advances `self.turn` past any players who cannot play, restarting
    /// the run (led by whoever played last) if neither player can
    /// continue it.
    fn resolve_turn(&mut self)
        ensures
            final(self)@ == after_passes(old(self)@),
    {
        if self.winner.is_some() {
            return;
        }
        let ghost g0 = self@;
        let ghost t = g0.turn;
        let ghost o = opponent(t);
        let ghost g1 = GameModel { turn: o, ..g0.logged(passes_message(t)) };
        let ghost leader = match g0.last_player {
            Some(p) => p,
            None => t,
        };
        let ghost g2 = GameModel {
            required_above: None,
            turn: leader,
            ..g1.logged(passes_message(o)).logged(restart_message(leader))
        };
        let ghost mut restarted = false;
        let mut passes: u8 = 0;
        loop
            invariant
                g0 == old(self)@,
                g0.winner is None,
                t == g0.turn,
                o == opponent(t),
                g1 == (GameModel { turn: o, ..g0.logged(passes_message(t)) }),
                leader == (match g0.last_player {
                    Some(p) => p,
                    None => t,
                }),
                g2 == (GameModel {
                    required_above: None,
                    turn: leader,
                    ..g1.logged(passes_message(o)).logged(restart_message(leader))
                }),
                passes <= 1,
                passes == 0 && !restarted ==> self@ == g0,
                passes == 1 ==> !restarted && self@ == g1 && g0.hand(t).len() > 0 && !g0.can_play(t),
                restarted ==> passes == 0 && self@ == g2 && g0.hand(t).len() > 0 && g0.hand(o).len() > 0
                    && !g0.can_play(t) && !g1.can_play(o),
            decreases (if self@.required_above is None { 0int } else { 3 - passes as int }),
        {
            if self.hand(self.turn).is_empty() {
                self.winner = Some(Outcome { winner: self.turn, won_with_comet: false });
                return;
            }
            if self.has_valid_play(self.turn) {
                proof {
                    if restarted {
                        lemma_fresh_run_playable(self@, self.turn);
                    }
                }
                return;
            }
            proof {
                if self@.required_above is None {
                    lemma_fresh_run_playable(self@, self.turn);
                }
            }
            let message = passes_text(self.turn);
            push_message(&mut self.log, message);
            passes = passes + 1;
            self.turn = self.turn.other();
            if passes >= 2 {
                self.required_above = None;
                passes = 0;
                self.turn = match self.last_player {
                    Some(p) => p,
                    None => self.turn,
                };
                let message = restart_text(self.turn);
                push_message(&mut self.log, message);
                proof {
                    restarted = true;
                }
            }
        }
    }

    /// Simple AI: play the lowest-ranked legal card, keeping the Comet in
    /// reserve unless it's the only legal move (or it lets the AI win).
    pub fn ai_choose_play(&self) -> (choice: Option<usize>)
        ensures
            choice is None <==> !self@.can_play(Player::Ai),
            choice matches Some(i) ==> ai_pick(self@.ai_hand, self@.required_above, i as int),
    {
        let hand = self.hand(Player::Ai);
        let valid = self.valid_play_indices(Player::Ai);
        let ghost req = self@.required_above;
        let n = hand.len();
        proof {
            lemma_playable_indices(hand@, req, hand@.len() as int);
        }
        if valid.len() == 0 {
            proof {
                if self@.can_play(Player::Ai) {
                    let i = choose|i: int| 0 <= i < hand@.len() && playable(#[trigger] hand@[i], req);
                    assert(valid@.contains(i as usize));
                }
            }
            return None;
        }
        if n == 1 {
            proof {
                assert(valid@[0] < 1);
            }
            return Some(valid[0]);
        }
        let mut best: usize = valid[0];
        let mut k: usize = 1;
        while k < valid.len()
            invariant
                hand@ == self@.ai_hand,
                req == self@.required_above,
                valid@ == playable_indices(hand@, req, hand@.len() as int),
                forall|a: int| 0 <= a < valid@.len() ==> #[trigger] valid@[a] < hand@.len() && playable(hand@[valid@[a] as int], req),
                forall|a: int, b: int| 0 <= a < b < valid@.len() ==> #[trigger] valid@[a] < #[trigger] valid@[b],
                forall|i: int| 0 <= i < hand@.len() && playable(hand@[i], req) ==> #[trigger] valid@.contains(i as usize),
                1 <= k <= valid@.len(),
                exists|a: int| 0 <= a < k && valid@[a] == best,
                forall|a: int| 0 <= a < k ==> ai_rank(hand@[best as int]) <= ai_rank(#[trigger] hand@[valid@[a] as int]),
                forall|a: int| 0 <= a < k && valid@[a] < best ==> ai_rank(hand@[best as int]) < ai_rank(#[trigger] hand@[valid@[a] as int]),
            decreases valid@.len() - k,
        {
            let candidate = valid[k];
            if ai_rank_of(hand[candidate]) < ai_rank_of(hand[best]) {
                best = candidate;
            }
            proof {
                assert(valid@[k as int] == candidate);
            }
            k = k + 1;
        }
        proof {
            let a0 = choose|a: int| 0 <= a < k && valid@[a] == best;
            assert forall|j: int| 0 <= j < hand@.len() && playable(#[trigger] hand@[j], req)
                implies ai_rank(hand@[best as int]) <= ai_rank(hand@[j]) by {
                assert(valid@.contains(j as usize));
                let a = choose|a: int| 0 <= a < valid@.len() && valid@[a] == j as usize;
                assert(ai_rank(hand@[best as int]) <= ai_rank(hand@[valid@[a] as int]));
            }
            assert forall|j: int| 0 <= j < best && playable(#[trigger] hand@[j], req)
                implies ai_rank(hand@[best as int]) < ai_rank(hand@[j]) by {
                assert(valid@.contains(j as usize));
                let a = choose|a: int| 0 <= a < valid@.len() && valid@[a] == j as usize;
                assert(valid@[a] < best);
                assert(ai_rank(hand@[best as int]) < ai_rank(hand@[valid@[a] as int]));
            }
            assert(playable(hand@[valid@[a0] as int], req));
        }
        Some(best)
    }

    fn has_valid_play(&self, player: Player) -> (b: bool)
        ensures
            b == self@.can_play(player),
    {
        let hand = self.hand(player);
        let mut i: usize = 0;
        while i < hand.len()
            invariant
                hand@ == self@.hand(player),
                i <= hand@.len(),
                forall|j: int| 0 <= j < i ==> !playable(#[trigger] hand@[j], self@.required_above),
            decreases hand@.len() - i,
        {
            if self.is_valid_play(hand[i]) {
                return true;
            }
            i = i + 1;
        }
        false
    }
}

} // verus!
