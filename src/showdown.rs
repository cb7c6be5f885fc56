use crate::card::Card;
use crate::game::{Game, GameResult};
use crate::guest::Guest;
use crate::hand::{best_score, lemma_best_score, lemma_lex_cmp_flip, lemma_lex_cmp_trans, lex_cmp, Hand};
use crate::room::{contending, count_seats, is_contending, Room, MAX_SEATS};
use crate::seat::Seat;
use std::cmp::Ordering;
use vstd::prelude::*;

verus! {

/// What the best hand of the player on seat `k` is worth at showdown.
pub open spec fn showdown_score(common: Seq<Card>, holes: Seq<Vec<Card>>, k: int) -> Seq<int> {
    best_score(common + holes[k]@)
}

/// What the seat gains (the pot, less its own bet) or loses (its bet) when the hand ends.
pub open spec fn diff_for(seat: Seat, winner: bool, pot: usize) -> int {
    if winner {
        pot - seat.bet
    } else {
        -(seat.bet as int)
    }
}

/// A slot once the hand is settled: the bankroll takes the gain or loss, the winner's
/// stack takes the pot, and the seat is cleared for the next hand.
pub open spec fn settled(s: Option<Seat>, winner: bool, pot: usize) -> Option<Seat> {
    match s {
        Some(seat) => Some(
            Seat {
                guest: Guest {
                    bankroll: (seat.guest.bankroll + diff_for(seat, winner, pot)) as isize,
                    ..seat.guest
                },
                ready: false,
                stack: if winner {
                    (seat.stack + pot) as usize
                } else {
                    seat.stack
                },
                bet: 0,
                fold: false,
            },
        ),
        None => None,
    }
}

/// The results of a settled hand: one per seated guest, in seat order.
pub open spec fn results_of(s: Seq<Option<Seat>>, winner: int, game_id: usize, pot: usize) -> Seq<
    GameResult,
>
    decreases s.len(),
{
    if s.len() == 0 {
        Seq::empty()
    } else {
        let rest = results_of(s.drop_last(), winner, game_id, pot);
        match s.last() {
            Some(seat) => rest.push(
                GameResult {
                    game_id,
                    guest_id: seat.guest.id,
                    diff: diff_for(seat, s.len() - 1 == winner, pot) as isize,
                },
            ),
            None => rest,
        }
    }
}

/// The amounts of a settlement fit the machine integers.
pub open spec fn settle_fits(s: Seq<Option<Seat>>, winner: int, pot: usize) -> bool {
    &&& pot <= isize::MAX
    &&& forall|i: int|
        0 <= i < 10 && (#[trigger] s[i]) is Some ==> {
            let seat = s[i]->0;
            &&& seat.bet <= pot
            &&& seat.guest.bankroll - seat.bet >= isize::MIN
            &&& seat.guest.bankroll + pot <= isize::MAX
            &&& (i == winner ==> seat.stack + pot <= usize::MAX)
        }
}

proof fn lemma_count_positive(s: Seq<Option<Seat>>, i: int)
    requires
        0 <= i < s.len(),
        contending(s[i]),
    ensures
        count_seats(s, is_contending()) >= 1,
    decreases s.len(),
{
    if i < s.len() - 1 {
        lemma_count_positive(s.drop_last(), i);
    }
}

proof fn lemma_no_contender(s: Seq<Option<Seat>>)
    requires
        forall|i: int| 0 <= i < s.len() ==> !contending(#[trigger] s[i]),
    ensures
        count_seats(s, is_contending()) == 0,
    decreases s.len(),
{
    if s.len() > 0 {
        lemma_no_contender(s.drop_last());
    }
}

impl Room {
    /// The seat that wins the pot: the only player left, or else the player whose best
    /// hand, out of the community cards and their own hole cards, ranks highest. Among
    /// equal best hands the lowest seat wins: the pot is never split. `holes[i]` are the
    /// hole cards of seat `i`. `None` when no player is left in the hand.
    pub fn winner_seat(&self, common: &[Card], holes: &Vec<Vec<Card>>) -> (r: Option<usize>)
        requires
            common@.len() == 5,
            holes@.len() == 10,
            count_seats(self.seats@, is_contending()) >= 2 ==> forall|i: int|
                0 <= i < 10 && contending(#[trigger] self.seats@[i]) ==> holes@[i]@.len() == 2,
        ensures
            r is None <==> count_seats(self.seats@, is_contending()) == 0,
            r matches Some(w) ==> w < 10 && contending(self.seats@[w as int]),
            r matches Some(w) ==> count_seats(self.seats@, is_contending()) >= 2 ==> forall|k: int|
                0 <= k < 10 && contending(#[trigger] self.seats@[k]) ==> {
                    let sk = showdown_score(common@, holes@, k);
                    let sw = showdown_score(common@, holes@, w as int);
                    &&& lex_cmp(sk, sw) != Ordering::Greater
                    &&& (k < w ==> lex_cmp(sk, sw) == Ordering::Less)
                },
    {
        let single = self.player_count() == 1;
        let mut best: Option<(usize, Hand)> = None;
        let mut i: usize = 0;
        while i < MAX_SEATS
            invariant
                i <= 10,
                common@.len() == 5,
                holes@.len() == 10,
                single == (count_seats(self.seats@, is_contending()) == 1),
                count_seats(self.seats@, is_contending()) >= 2 ==> forall|j: int|
                    0 <= j < 10 && contending(#[trigger] self.seats@[j]) ==> holes@[j]@.len() == 2,
                best is None ==> forall|j: int| 0 <= j < i ==> !contending(#[trigger] self.seats@[j]),
                best matches Some(b) ==> {
                    &&& b.0 < i
                    &&& contending(self.seats@[b.0 as int])
                    &&& b.1.score() == showdown_score(common@, holes@, b.0 as int)
                    &&& forall|k: int|
                        0 <= k < i && contending(#[trigger] self.seats@[k]) ==> {
                            let sk = showdown_score(common@, holes@, k);
                            &&& lex_cmp(sk, b.1.score()) != Ordering::Greater
                            &&& (k < b.0 ==> lex_cmp(sk, b.1.score()) == Ordering::Less)
                        }
                },
            decreases 10 - i,
        {
            let here = match &self.seats[i] {
                Some(seat) => !seat.fold,
                None => false,
            };
            if here {
                if single {
                    return Some(i);
                }
                proof {
                    lemma_count_positive(self.seats@, i as int);
                }
                let hand = Hand::calc_best_hand(common, holes[i].as_slice());
                proof {
                    lemma_best_score(common@ + holes@[i as int]@, hand);
                }
                let replace = match &best {
                    None => true,
                    Some(b) => match b.1.compare(&hand) {
                        Ordering::Less => true,
                        _ => false,
                    },
                };
                proof {
                    if best is Some {
                        let b = best->0;
                        lemma_lex_cmp_flip(b.1.score(), hand.score());
                        lemma_lex_cmp_flip(hand.score(), hand.score());
                        assert forall|k: int|
                            0 <= k < i + 1 && contending(#[trigger] self.seats@[k]) implies {
                            let sk = showdown_score(common@, holes@, k);
                            let top = if replace {
                                hand.score()
                            } else {
                                b.1.score()
                            };
                            let at = if replace {
                                i as int
                            } else {
                                b.0 as int
                            };
                            &&& lex_cmp(sk, top) != Ordering::Greater
                            &&& (k < at ==> lex_cmp(sk, top) == Ordering::Less)
                        } by {
                            if k < i {
                                if replace {
                                    lemma_lex_cmp_trans(
                                        showdown_score(common@, holes@, k),
                                        b.1.score(),
                                        hand.score(),
                                    );
                                }
                            }
                        }
                    } else {
                        lemma_lex_cmp_flip(hand.score(), hand.score());
                    }
                }
                if replace {
                    best = Some((i, hand));
                }
            }
            i = i + 1;
        }
        match best {
            Some(b) => {
                proof {
                    lemma_count_positive(self.seats@, b.0 as int);
                }
                Some(b.0)
            },
            None => {
                proof {
                    lemma_no_contender(self.seats@);
                }
                None
            },
        }
    }

    /// Ends the hand: the winner takes the pot, every seated guest's bankroll moves by
    /// what they won or lost, and every seat is cleared (no bet, not folded, not ready).
    /// Returns one result per seated guest, in seat order.
    pub fn settle(&mut self, game: &Game, winner: usize) -> (r: Vec<GameResult>)
        requires
            winner < 10,
            settle_fits(old(self).seats@, winner as int, game.pot),
        ensures
            final(self).id == old(self).id,
            final(self).sb == old(self).sb,
            forall|i: int|
                0 <= i < 10 ==> #[trigger] final(self).seats@[i] == settled(
                    old(self).seats@[i],
                    i == winner,
                    game.pot,
                ),
            r@ == results_of(old(self).seats@, winner as int, game.id, game.pot),
    {
        let ghost before = self.seats@;
        let mut results: Vec<GameResult> = Vec::new();
        let mut i: usize = 0;
        while i < MAX_SEATS
            invariant
                i <= 10,
                winner < 10,
                before.len() == 10,
                settle_fits(before, winner as int, game.pot),
                self.id == old(self).id,
                self.sb == old(self).sb,
                forall|j: int|
                    0 <= j < 10 ==> #[trigger] self.seats@[j] == if j < i {
                        settled(before[j], j == winner, game.pot)
                    } else {
                        before[j]
                    },
                results@ == results_of(before.take(i as int), winner as int, game.id, game.pot),
            decreases 10 - i,
        {
            assert(before.take(i as int + 1).drop_last() =~= before.take(i as int));
            let next = match &self.seats[i] {
                Some(seat) => {
                    assert(before[i as int] is Some);
                    let won = i == winner;
                    let diff: isize = if won {
                        (game.pot - seat.bet) as isize
                    } else {
                        -(seat.bet as isize)
                    };
                    results.push(GameResult::new(game.id, seat.guest.id, diff));
                    Some(
                        Seat {
                            guest: Guest {
                                id: seat.guest.id,
                                name: seat.guest.name.clone(),
                                bankroll: seat.guest.bankroll + diff,
                            },
                            ready: false,
                            stack: if won {
                                seat.stack + game.pot
                            } else {
                                seat.stack
                            },
                            bet: 0,
                            fold: false,
                        },
                    )
                },
                None => None,
            };
            self.seats[i] = next;
            i = i + 1;
        }
        assert(before.take(10) =~= before);
        results
    }
}

} // verus!
