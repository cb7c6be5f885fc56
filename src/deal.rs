use crate::card::Card;
use crate::error::PokerError;
use crate::game::{bet_error, bet_outcome, Game, Round};
use crate::room::{
    count_seats, is_occupied, lemma_first_from_finds, next_seat, occupied, scan_seats, Room,
    MAX_SEATS,
};
use crate::seat::Seat;
use vstd::prelude::*;

verus! {

/// The cards of one hand: two hole cards for each seated guest, five community cards.
#[derive(Debug)]
pub struct Deal {
    /// `holes[i]` are the hole cards of seat `i`, `None` for an empty seat.
    pub holes: Vec<Option<(Card, Card)>>,
    /// The flop (three cards), then the turn, then the river.
    pub common: Vec<Card>,
}

/// A slot cleared for a new hand: no bet, not folded.
pub open spec fn reset_seat(s: Option<Seat>) -> Option<Seat> {
    match s {
        Some(seat) => Some(Seat { bet: 0, fold: false, ..seat }),
        None => None,
    }
}

/// The guest on seat `p`, or 0 when there is none.
pub open spec fn seat_guest(s: Seq<Option<Seat>>, p: usize) -> usize {
    if p < 10 && s[p as int] is Some {
        s[p as int]->0.guest.id
    } else {
        0
    }
}

/// The `k`-th card dealt from `deck`: cards come off its end.
pub open spec fn dealt(deck: Seq<Card>, k: int) -> Card {
    deck[deck.len() - 1 - k]
}

/// Number of seated guests on the seats before `i`.
pub open spec fn seated_before(s: Seq<Option<Seat>>, i: int) -> int {
    count_seats(s.take(i), is_occupied()) as int
}

proof fn lemma_count_le(s: Seq<Option<Seat>>, f: spec_fn(Option<Seat>) -> bool)
    ensures
        count_seats(s, f) <= s.len(),
    decreases s.len(),
{
    if s.len() > 0 {
        lemma_count_le(s.drop_last(), f);
    }
}

impl Room {
    /// Starts a hand with a freshly shuffled `deck`: the game opens on the new small blind
    /// (see `new_game`), every seat is cleared, each seated guest gets two cards in seat
    /// order, then five community cards are dealt; finally the first occupied seat after
    /// the game's position posts 1 chip and the next player 2. Fails with the error of a
    /// blind that cannot be posted.
    pub fn start_hand(&mut self, game_id: usize, deck: &mut Vec<Card>) -> (r: Result<
        (Game, Deal),
        PokerError,
    >)
        requires
            exists|i: int| 0 <= i < 10 && #[trigger] occupied(old(self).seats@[i]),
            old(deck)@.len() >= 2 * MAX_SEATS + 5,
        ensures
            final(self).id == old(self).id,
            ({
                let n = count_seats(old(self).seats@, is_occupied()) as int;
                let first = next_seat(old(self).seats@, old(self).sb as int, is_occupied())->0;
                let sb = next_seat(old(self).seats@, first + 1, is_occupied())->0;
                let blind = next_seat(old(self).seats@, sb + 1, is_occupied())->0;
                let g0 = Game {
                    id: game_id,
                    room_id: old(self).id,
                    round: Round::PreFlop,
                    pot: 0,
                    position: blind as usize,
                    raise_position: sb as usize,
                };
                let s0 = old(self).seats@.map_values(|x: Option<Seat>| reset_seat(x));
                let (g1, s1) = bet_outcome(g0, s0, 1);
                let (g2, s2) = bet_outcome(g1, s1, 2);
                &&& final(deck)@ == old(deck)@.take(old(deck)@.len() - 2 * n - 5)
                &&& match bet_error(g0, s0, seat_guest(s0, g0.position), 1) {
                    Some(e) => r == Err::<(Game, Deal), PokerError>(e),
                    None => match bet_error(g1, s1, seat_guest(s1, g1.position), 2) {
                        Some(e) => r == Err::<(Game, Deal), PokerError>(e),
                        None => r is Ok && r->Ok_0.0 == g2 && final(self).seats@ == s2,
                    },
                }
                &&& r is Ok ==> {
                    let deal = r->Ok_0.1;
                    &&& deal.holes@.len() == 10
                    &&& forall|i: int|
                        0 <= i < 10 ==> #[trigger] deal.holes@[i] == if occupied(old(self).seats@[i]) {
                            Some(
                                (
                                    dealt(old(deck)@, 2 * seated_before(old(self).seats@, i)),
                                    dealt(old(deck)@, 2 * seated_before(old(self).seats@, i) + 1),
                                ),
                            )
                        } else {
                            None
                        }
                    &&& deal.common@.len() == 5
                    &&& forall|t: int|
                        0 <= t < 5 ==> #[trigger] deal.common@[t] == dealt(old(deck)@, 2 * n + t)
                }
            }),
    {
        let ghost seats0 = self.seats@;
        let mut game = self.new_game(game_id);
        proof {
            lemma_first_from_finds(
                seats0,
                (game.position as int % 10 + 1) % 10,
                is_occupied(),
                game.position as int,
            );
        }
        let blind = scan_seats(&self.seats, (game.position % MAX_SEATS + 1) % MAX_SEATS, 0);
        let deal = self.deal_cards(deck);
        match blind {
            Some(p) => {
                game.position = p;
            },
            None => {},
        }
        proof {
            let s0 = seats0.map_values(|x: Option<Seat>| reset_seat(x));
            assert(self.seats@ == s0);
            assert forall|i: int|
                0 <= i < 10 && (#[trigger] self.seats@[i]) is Some implies self.seats@[i]->0.bet
                    == 0 by {
                assert(self.seats@[i] == reset_seat(seats0[i]));
            }
        }
        self.post_blinds(&mut game)?;
        Ok((game, deal))
    }


    /// Clears every seat for a new hand and deals from the end of `deck`: two cards to
    /// each seated guest in seat order, then five community cards.
    fn deal_cards(&mut self, deck: &mut Vec<Card>) -> (d: Deal)
        requires
            old(deck)@.len() >= 2 * MAX_SEATS + 5,
        ensures
            final(self).id == old(self).id,
            final(self).sb == old(self).sb,
            final(self).seats@ == old(self).seats@.map_values(|x: Option<Seat>| reset_seat(x)),
            ({
                let n = count_seats(old(self).seats@, is_occupied()) as int;
                &&& final(deck)@ == old(deck)@.take(old(deck)@.len() - 2 * n - 5)
                &&& d.holes@.len() == 10
                &&& forall|i: int|
                    0 <= i < 10 ==> #[trigger] d.holes@[i] == if occupied(old(self).seats@[i]) {
                        Some(
                            (
                                dealt(old(deck)@, 2 * seated_before(old(self).seats@, i)),
                                dealt(old(deck)@, 2 * seated_before(old(self).seats@, i) + 1),
                            ),
                        )
                    } else {
                        None
                    }
                &&& d.common@.len() == 5
                &&& forall|t: int|
                    0 <= t < 5 ==> #[trigger] d.common@[t] == dealt(old(deck)@, 2 * n + t)
            }),
    {
        let ghost seats0 = self.seats@;
        let ghost deck0 = deck@;
        proof {
            lemma_count_le(seats0, is_occupied());
        }
        let mut holes: Vec<Option<(Card, Card)>> = Vec::new();
        let mut i: usize = 0;
        while i < MAX_SEATS
            invariant
                i <= 10,
                seats0.len() == 10,
                deck0.len() >= 25,
                count_seats(seats0, is_occupied()) <= 10,
                self.id == old(self).id,
                self.sb == old(self).sb,
                holes@.len() == i,
                forall|j: int|
                    0 <= j < 10 ==> #[trigger] self.seats@[j] == if j < i {
                        reset_seat(seats0[j])
                    } else {
                        seats0[j]
                    },
                deck@ == deck0.take(deck0.len() - 2 * seated_before(seats0, i as int)),
                seated_before(seats0, i as int) <= i,
                forall|j: int|
                    0 <= j < i ==> #[trigger] holes@[j] == if occupied(seats0[j]) {
                        Some(
                            (
                                dealt(deck0, 2 * seated_before(seats0, j)),
                                dealt(deck0, 2 * seated_before(seats0, j) + 1),
                            ),
                        )
                    } else {
                        None
                    },
            decreases 10 - i,
        {
            assert(seats0.take(i as int + 1).drop_last() =~= seats0.take(i as int));
            assert(seats0.take(i as int + 1).last() == seats0[i as int]);
            let cleared = match &self.seats[i] {
                Some(seat) => Some(
                    Seat {
                        guest: seat.guest.duplicate(),
                        ready: seat.ready,
                        stack: seat.stack,
                        bet: 0,
                        fold: false,
                    },
                ),
                None => None,
            };
            if cleared.is_some() {
                let ghost c = seated_before(seats0, i as int);
                let first = deck.pop().unwrap();
                let second = deck.pop().unwrap();
                assert(first == dealt(deck0, 2 * c));
                assert(second == dealt(deck0, 2 * c + 1));
                holes.push(Some((first, second)));
                assert(deck@ =~= deck0.take(deck0.len() - 2 * (c + 1)));
            } else {
                holes.push(None);
            }
            self.seats[i] = cleared;
            i = i + 1;
        }
        assert(seats0.take(10) =~= seats0);
        let ghost n = count_seats(seats0, is_occupied()) as int;
        let mut common: Vec<Card> = Vec::new();
        let mut t: usize = 0;
        while t < 5
            invariant
                t <= 5,
                deck0.len() >= 25,
                0 <= n <= 10,
                deck@ == deck0.take(deck0.len() - 2 * n - t),
                common@.len() == t,
                forall|u: int| 0 <= u < t ==> #[trigger] common@[u] == dealt(deck0, 2 * n + u),
            decreases 5 - t,
        {
            let card = deck.pop().unwrap();
            common.push(card);
            t = t + 1;
            assert(deck@ =~= deck0.take(deck0.len() - 2 * n - t));
        }
        assert(self.seats@ =~= seats0.map_values(|x: Option<Seat>| reset_seat(x)));
        Deal { holes, common }
    }

    /// The player at the game's position posts 1 chip, then the next player to act posts 2.
    fn post_blinds(&mut self, game: &mut Game) -> (r: Result<(), PokerError>)
        requires
            old(game).pot == 0,
            forall|i: int|
                0 <= i < 10 && (#[trigger] old(self).seats@[i]) is Some ==> old(self).seats@[i]->0.bet
                    == 0,
        ensures
            final(self).id == old(self).id,
            ({
                let (g1, s1) = bet_outcome(*old(game), old(self).seats@, 1);
                let (g2, s2) = bet_outcome(g1, s1, 2);
                match bet_error(*old(game), old(self).seats@, seat_guest(old(self).seats@, old(game).position), 1) {
                    Some(e) => r == Err::<(), PokerError>(e),
                    None => match bet_error(g1, s1, seat_guest(s1, g1.position), 2) {
                        Some(e) => r == Err::<(), PokerError>(e),
                        None => r is Ok && *final(game) == g2 && final(self).seats@ == s2,
                    },
                }
            }),
    {
        let small = self.guest_at(game.position);
        game.bet(self, small, 1)?;
        proof {
            assert forall|i: int|
                0 <= i < 10 && (#[trigger] self.seats@[i]) is Some implies self.seats@[i]->0.bet
                    + 2 <= usize::MAX by {
                assert(self.seats@[i]->0.bet <= 1);
            }
        }
        let big = self.guest_at(game.position);
        game.bet(self, big, 2)?;
        Ok(())
    }

    /// The guest on seat `p`, or 0 when there is none.
    fn guest_at(&self, p: usize) -> (r: usize)
        ensures
            r == seat_guest(self.seats@, p),
    {
        if p >= MAX_SEATS {
            return 0;
        }
        match &self.seats[p] {
            Some(seat) => seat.guest.id,
            None => 0,
        }
    }
}

} // verus!
