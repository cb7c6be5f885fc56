use crate::error::PokerError;
use crate::room::{
    can_act, count_seats, is_able, is_contending, lemma_first_from, lemma_first_from_finds,
    max_bet_of, next_seat, scan_seats, Room, MAX_SEATS,
};
use crate::seat::Seat;
use vstd::prelude::*;

verus! {

/// The betting rounds of a hand, in the order they are played.
#[derive(Debug, Clone, Copy, PartialEq, Eq, Structural, PartialOrd, Ord, Hash)]
pub enum Round {
    PreFlop,
    Flop,
    Turn,
    River,
    Over,
}

/// Position of a round in the order of play.
pub open spec fn round_index(r: Round) -> int {
    match r {
        Round::PreFlop => 0,
        Round::Flop => 1,
        Round::Turn => 2,
        Round::River => 3,
        Round::Over => 4,
    }
}

/// The round after `r`; the end of the hand stays where it is.
pub open spec fn round_after(r: Round) -> Round {
    match r {
        Round::PreFlop => Round::Flop,
        Round::Flop => Round::Turn,
        Round::Turn => Round::River,
        Round::River => Round::Over,
        Round::Over => Round::Over,
    }
}

/// The text token of a round.
pub open spec fn round_token(r: Round) -> Seq<char> {
    match r {
        Round::PreFlop => "preflop"@,
        Round::Flop => "flop"@,
        Round::Turn => "turn"@,
        Round::River => "river"@,
        Round::Over => "finish"@,
    }
}

/// The round whose token is `t`, or a parse error.
pub open spec fn round_of_token(t: Seq<char>) -> Result<Round, PokerError> {
    if t == "preflop"@ {
        Ok(Round::PreFlop)
    } else if t == "flop"@ {
        Ok(Round::Flop)
    } else if t == "turn"@ {
        Ok(Round::Turn)
    } else if t == "river"@ {
        Ok(Round::River)
    } else if t == "finish"@ {
        Ok(Round::Over)
    } else {
        Err(PokerError::ParseError)
    }
}

/// Different rounds have different tokens, and reading a round's token gives the round.
pub proof fn lemma_round_token_unique(a: Round, b: Round)
    ensures
        round_token(a) == round_token(b) ==> a == b,
        round_of_token(round_token(a)) == Ok::<Round, PokerError>(a),
{
    reveal_strlit("preflop");
    reveal_strlit("flop");
    reveal_strlit("turn");
    reveal_strlit("river");
    reveal_strlit("finish");
    assert("preflop"@.len() == 7 && "flop"@.len() == 4 && "turn"@.len() == 4);
    assert("river"@.len() == 5 && "finish"@.len() == 6);
    assert("flop"@[0] == 'f' && "turn"@[0] == 't');
    assert("preflop"@ != "flop"@ && "preflop"@ != "turn"@ && "preflop"@ != "river"@);
    assert("preflop"@ != "finish"@ && "flop"@ != "river"@ && "flop"@ != "finish"@);
    assert("turn"@ != "river"@ && "turn"@ != "finish"@ && "river"@ != "finish"@);
    assert("flop"@ != "turn"@);
}

impl Round {
    /// Reads a round from its token: `preflop`, `flop`, `turn`, `river` or `finish`.
    pub fn parse(round: &str) -> (r: Result<Round, PokerError>)
        ensures
            r == round_of_token(round@),
    {
        let text = round.to_owned();
        if text == "preflop".to_owned() {
            Ok(Round::PreFlop)
        } else if text == "flop".to_owned() {
            Ok(Round::Flop)
        } else if text == "turn".to_owned() {
            Ok(Round::Turn)
        } else if text == "river".to_owned() {
            Ok(Round::River)
        } else if text == "finish".to_owned() {
            Ok(Round::Over)
        } else {
            Err(PokerError::ParseError)
        }
    }

    /// The token of the round.
    pub fn to_string(&self) -> (r: String)
        ensures
            r@ == round_token(*self),
    {
        match self {
            Round::PreFlop => "preflop".to_owned(),
            Round::Flop => "flop".to_owned(),
            Round::Turn => "turn".to_owned(),
            Round::River => "river".to_owned(),
            Round::Over => "finish".to_owned(),
        }
    }

    /// How many community cards the players see during the round: none before the flop,
    /// three on the flop, four on the turn, all five from the river on.
    pub fn revealed_cards(&self) -> (r: usize)
        ensures
            r == match *self {
                Round::PreFlop => 0usize,
                Round::Flop => 3,
                Round::Turn => 4,
                Round::River => 5,
                Round::Over => 5,
            },
    {
        match self {
            Round::PreFlop => 0,
            Round::Flop => 3,
            Round::Turn => 4,
            Round::River => 5,
            Round::Over => 5,
        }
    }

    /// The round that follows; there is none after the end of the hand.
    pub fn next_round(&self) -> (r: Round)
        requires
            *self != Round::Over,
        ensures
            r == round_after(*self),
            round_index(r) == round_index(*self) + 1,
    {
        match self {
            Round::PreFlop => Round::Flop,
            Round::Flop => Round::Turn,
            Round::Turn => Round::River,
            Round::River => Round::Over,
            Round::Over => Round::Over,
        }
    }
}

/// No player still in the hand can act: everyone left is all-in.
pub open spec fn no_one_can_act(s: Seq<Option<Seat>>) -> bool {
    forall|i: int| 0 <= i < 10 ==> !can_act(#[trigger] s[i])
}

/// The game once the turn has moved to the next seat that can act, after `g.position`;
/// unchanged when no seat can act.
pub open spec fn passed(g: Game, s: Seq<Option<Seat>>) -> Game {
    match next_seat(s, g.position as int % 10 + 1, is_able()) {
        Some(p) => Game { position: p as usize, ..g },
        None => g,
    }
}

/// Whether `update` changes the round of `g`.
pub open spec fn update_fires(g: Game, s: Seq<Option<Seat>>) -> bool {
    g.round != Round::Over && (count_seats(s, is_contending()) == 1 || no_one_can_act(s)
        || g.position == g.raise_position)
}

/// The game after the round check: the hand ends when one player is left or no one can
/// act; the round advances when the action is back at the last raiser. That player opens
/// the new round and stays its closing seat: `raise_position` is already the position.
pub open spec fn updated(g: Game, s: Seq<Option<Seat>>) -> Game {
    if g.round == Round::Over {
        g
    } else if count_seats(s, is_contending()) == 1 || no_one_can_act(s) {
        Game { round: Round::Over, ..g }
    } else if g.position == g.raise_position {
        Game { round: round_after(g.round), ..g }
    } else {
        g
    }
}

/// Why a bet of `chips` by guest `guest_id` is refused, if it is.
pub open spec fn bet_error(g: Game, s: Seq<Option<Seat>>, guest_id: usize, chips: usize) -> Option<
    PokerError,
> {
    if g.round == Round::Over {
        Some(PokerError::InvalidAction)
    } else if g.position >= 10 || s[g.position as int] is None {
        Some(PokerError::NoActivePlayer)
    } else {
        let seat = s[g.position as int]->0;
        if seat.guest.id != guest_id || seat.fold {
            Some(PokerError::InvalidAction)
        } else if chips > seat.stack {
            Some(PokerError::InsufficientStack)
        } else if seat.bet + chips < max_bet_of(s) && seat.stack - chips != 0 {
            Some(PokerError::InvalidAction)
        } else {
            None
        }
    }
}

/// Why a fold by guest `guest_id` is refused, if it is.
pub open spec fn fold_error(g: Game, s: Seq<Option<Seat>>, guest_id: usize) -> Option<PokerError> {
    if g.round == Round::Over {
        Some(PokerError::InvalidAction)
    } else if g.position >= 10 || s[g.position as int] is None {
        Some(PokerError::NoActivePlayer)
    } else {
        let seat = s[g.position as int]->0;
        if seat.guest.id != guest_id || seat.fold {
            Some(PokerError::InvalidAction)
        } else {
            None
        }
    }
}

/// The seat at `pos` after it moves `chips` from its stack to its bet.
pub open spec fn seat_after_bet(s: Seq<Option<Seat>>, pos: int, chips: usize) -> Seat {
    let seat = s[pos]->0;
    Seat { stack: (seat.stack - chips) as usize, bet: (seat.bet + chips) as usize, ..seat }
}

/// The game after the seat at its position bets `chips` into the pot, before the turn moves.
pub open spec fn game_after_bet(g: Game, s: Seq<Option<Seat>>, chips: usize) -> Game {
    let seat = s[g.position as int]->0;
    Game {
        pot: (g.pot + chips) as usize,
        raise_position: if seat.bet + chips > max_bet_of(s) {
            g.position
        } else {
            g.raise_position
        },
        ..g
    }
}

/// The game and seats after the player to act bets `chips`, when that bet is allowed:
/// the chips move to the pot, the turn passes, and the round is checked.
pub open spec fn bet_outcome(g: Game, s: Seq<Option<Seat>>, chips: usize) -> (Game, Seq<Option<Seat>>) {
    let pos = g.position as int;
    let seats = s.update(pos, Some(seat_after_bet(s, pos, chips)));
    (updated(passed(game_after_bet(g, s, chips), seats), seats), seats)
}

/// One hand of play at a room.
#[derive(Debug, Clone, Copy, PartialEq, Eq, Structural)]
pub struct Game {
    pub id: usize,
    pub room_id: usize,
    pub round: Round,
    pub pot: usize,
    /// The seat that acts next.
    pub position: usize,
    /// The seat that last raised: betting closes when the action returns to it.
    pub raise_position: usize,
}

impl Game {
    /// A fresh hand whose first actor is the small blind.
    pub fn new(id: usize, room_id: usize, sb: usize) -> (r: Game)
        ensures
            r == (Game {
                id,
                room_id,
                round: Round::PreFlop,
                pot: 0,
                position: sb,
                raise_position: sb,
            }),
    {
        Game { id, room_id, round: Round::PreFlop, pot: 0, position: sb, raise_position: sb }
    }

    /// Moves the turn, from the current position, to the first seat that can act.
    /// Fails with `NoActivePlayer`, changing nothing, when no seat can act.
    pub fn correct(&mut self, room: &Room) -> (r: Result<(), PokerError>)
        ensures
            match next_seat(room.seats@, old(self).position as int, is_able()) {
                Some(p) => r is Ok && *final(self) == Game { position: p as usize, ..*old(self) },
                None => r == Err::<(), PokerError>(PokerError::NoActivePlayer) && *final(self)
                    == *old(self),
            },
            (exists|i: int| 0 <= i < 10 && #[trigger] can_act(room.seats@[i])) ==> r is Ok
                && can_act(room.seats@[final(self).position as int]),
    {
        proof {
            lemma_first_from(room.seats@, self.position as int % 10, 0, is_able());
            if exists|i: int| 0 <= i < 10 && #[trigger] can_act(room.seats@[i]) {
                let i = choose|i: int| 0 <= i < 10 && #[trigger] can_act(room.seats@[i]);
                lemma_first_from_finds(room.seats@, self.position as int % 10, is_able(), i);
            }
        }
        match scan_seats(&room.seats, self.position % MAX_SEATS, 1) {
            Some(p) => {
                self.position = p;
                Ok(())
            },
            None => Err(PokerError::NoActivePlayer),
        }
    }

    /// Passes the turn to the next seat, after the current one, that can act; a seat that
    /// folded or is all-in is never chosen. Fails with `NoActivePlayer`, changing nothing,
    /// when no seat can act.
    pub fn pass(&mut self, room: &Room) -> (r: Result<(), PokerError>)
        ensures
            *final(self) == passed(*old(self), room.seats@),
            r is Ok <==> next_seat(room.seats@, old(self).position as int % 10 + 1, is_able()) is Some,
            r is Err ==> r == Err::<(), PokerError>(PokerError::NoActivePlayer),
            (exists|i: int| 0 <= i < 10 && #[trigger] can_act(room.seats@[i])) ==> r is Ok
                && can_act(room.seats@[final(self).position as int]),
    {
        let saved = self.position;
        self.position = self.position % MAX_SEATS + 1;
        let r = self.correct(room);
        if r.is_err() {
            self.position = saved;
        }
        r
    }

    /// Checks whether the round is over after an action, and moves it on; returns whether
    /// the round changed. The hand ends at once when a single player is left, or when no
    /// one can act; otherwise the round advances when the action is back at the last
    /// raiser.
    pub fn update(&mut self, room: &Room) -> (r: bool)
        ensures
            *final(self) == updated(*old(self), room.seats@),
            r == update_fires(*old(self), room.seats@),
            count_seats(room.seats@, is_contending()) == 1 ==> final(self).round == Round::Over,
            final(self).round != old(self).round && final(self).round != Round::Over
                ==> final(self).raise_position == final(self).position
                && final(self).position == old(self).position,
    {
        if self.round == Round::Over {
            return false;
        }
        if room.player_count() == 1 || room.all_allin() {
            self.round = Round::Over;
            return true;
        }
        if self.position == self.raise_position {
            self.round = self.round.next_round();
            return true;
        }
        false
    }

    /// The player to act bets `chips`: a check, call, raise or all-in depending on the
    /// amount. Then the turn passes and the round is checked.
    pub fn bet(&mut self, room: &mut Room, guest_id: usize, chips: usize) -> (r: Result<
        (),
        PokerError,
    >)
        requires
            old(self).pot + chips <= usize::MAX,
            forall|i: int|
                0 <= i < 10 && (#[trigger] old(room).seats@[i]) is Some ==> old(room).seats@[i]->0.bet
                    + chips <= usize::MAX,
        ensures
            match bet_error(*old(self), old(room).seats@, guest_id, chips) {
                Some(e) => r == Err::<(), PokerError>(e) && *final(self) == *old(self)
                    && *final(room) == *old(room),
                None => {
                    &&& r is Ok
                    &&& final(room).id == old(room).id
                    &&& final(room).sb == old(room).sb
                    &&& (*final(self), final(room).seats@) == bet_outcome(
                        *old(self),
                        old(room).seats@,
                        chips,
                    )
                },
            },
    {
        if self.round == Round::Over {
            return Err(PokerError::InvalidAction);
        }
        if self.position >= MAX_SEATS {
            return Err(PokerError::NoActivePlayer);
        }
        let pos = self.position;
        let max_bet = room.max_bet();
        let updated = match &room.seats[pos] {
            None => {
                return Err(PokerError::NoActivePlayer);
            },
            Some(seat) => {
                if seat.guest.id != guest_id || seat.fold {
                    return Err(PokerError::InvalidAction);
                }
                if chips > seat.stack {
                    return Err(PokerError::InsufficientStack);
                }
                if seat.bet + chips < max_bet && seat.stack - chips != 0 {
                    return Err(PokerError::InvalidAction);
                }
                Seat {
                    guest: seat.guest.duplicate(),
                    ready: seat.ready,
                    stack: seat.stack - chips,
                    bet: seat.bet + chips,
                    fold: seat.fold,
                }
            },
        };
        if updated.bet > max_bet {
            self.raise_position = pos;
        }
        self.pot = self.pot + chips;
        room.seats[pos] = Some(updated);
        let _ = self.pass(room);
        self.update(room);
        Ok(())
    }

    /// The player to act folds. Then the turn passes and the round is checked.
    pub fn fold(&mut self, room: &mut Room, guest_id: usize) -> (r: Result<(), PokerError>)
        ensures
            match fold_error(*old(self), old(room).seats@, guest_id) {
                Some(e) => r == Err::<(), PokerError>(e) && *final(self) == *old(self)
                    && *final(room) == *old(room),
                None => {
                    let pos = old(self).position as int;
                    let seats = old(room).seats@.update(
                        pos,
                        Some(Seat { fold: true, ..old(room).seats@[pos]->0 }),
                    );
                    &&& r is Ok
                    &&& final(room).id == old(room).id
                    &&& final(room).sb == old(room).sb
                    &&& final(room).seats@ == seats
                    &&& *final(self) == updated(passed(*old(self), seats), seats)
                },
            },
    {
        if self.round == Round::Over {
            return Err(PokerError::InvalidAction);
        }
        if self.position >= MAX_SEATS {
            return Err(PokerError::NoActivePlayer);
        }
        let pos = self.position;
        let updated = match &room.seats[pos] {
            None => {
                return Err(PokerError::NoActivePlayer);
            },
            Some(seat) => {
                if seat.guest.id != guest_id || seat.fold {
                    return Err(PokerError::InvalidAction);
                }
                Seat {
                    guest: seat.guest.duplicate(),
                    ready: seat.ready,
                    stack: seat.stack,
                    bet: seat.bet,
                    fold: true,
                }
            },
        };
        room.seats[pos] = Some(updated);
        let _ = self.pass(room);
        self.update(room);
        Ok(())
    }

    /// Whether a client of guest `guest_id` stops waiting: the hand is over, or the
    /// guest sits at the position to act.
    pub fn awaits(&self, room: &Room, guest_id: usize) -> (r: bool)
        ensures
            r == (self.round == Round::Over || (self.position < 10 && room.seats@[self.position as int] is Some
                && room.seats@[self.position as int]->0.guest.id == guest_id)),
    {
        if self.round == Round::Over {
            return true;
        }
        if self.position >= MAX_SEATS {
            return false;
        }
        match room.get_guest(self.position) {
            Some(guest) => guest.id == guest_id,
            None => false,
        }
    }

    /// Whether the hand has ended.
    pub fn is_over(&self) -> (r: bool)
        ensures
            r == (self.round == Round::Over),
    {
        self.round == Round::Over
    }
}

/// A guest's net gain or loss in a finished hand.
#[derive(Debug, Clone, Copy, PartialEq, Eq, Structural)]
pub struct GameResult {
    pub game_id: usize,
    pub guest_id: usize,
    pub diff: isize,
}

impl GameResult {
    pub fn new(game_id: usize, guest_id: usize, diff: isize) -> (r: GameResult)
        ensures
            r == (GameResult { game_id, guest_id, diff }),
    {
        GameResult { game_id, guest_id, diff }
    }
}

} // verus!
