use crate::error::PokerError;
use crate::game::{Game, Round};
use crate::guest::Guest;
use crate::seat::{seat_for, Seat, MIN_READY_STACK};
use vstd::prelude::*;

verus! {

/// Number of seats at a table.
pub const MAX_SEATS: usize = 10;

/// A guest sits in the slot.
pub open spec fn occupied(s: Option<Seat>) -> bool {
    s is Some
}

/// The slot holds a player still in the hand.
pub open spec fn contending(s: Option<Seat>) -> bool {
    s is Some && !s->0.fold
}

/// The slot holds a player who can still act: in the hand and not all-in.
pub open spec fn can_act(s: Option<Seat>) -> bool {
    s is Some && !s->0.fold && s->0.stack != 0
}

/// The predicate `occupied`, as a value.
pub open spec fn is_occupied() -> spec_fn(Option<Seat>) -> bool {
    |x: Option<Seat>| occupied(x)
}

/// The predicate `contending`, as a value.
pub open spec fn is_contending() -> spec_fn(Option<Seat>) -> bool {
    |x: Option<Seat>| contending(x)
}

/// The predicate `can_act`, as a value.
pub open spec fn is_able() -> spec_fn(Option<Seat>) -> bool {
    |x: Option<Seat>| can_act(x)
}

/// The predicate "the slot is empty", as a value.
pub open spec fn is_empty_slot() -> spec_fn(Option<Seat>) -> bool {
    |x: Option<Seat>| !occupied(x)
}

/// The slot holds the guest `id`.
pub open spec fn holds_guest(s: Option<Seat>, id: usize) -> bool {
    s is Some && s->0.guest.id == id
}

/// How many slots of `s` satisfy `f`.
pub open spec fn count_seats(s: Seq<Option<Seat>>, f: spec_fn(Option<Seat>) -> bool) -> nat
    decreases s.len(),
{
    if s.len() == 0 {
        0
    } else {
        count_seats(s.drop_last(), f) + if f(s.last()) {
            1nat
        } else {
            0nat
        }
    }
}

/// The largest bet of a player still in the hand, 0 when there is none.
pub open spec fn max_bet_of(s: Seq<Option<Seat>>) -> nat
    decreases s.len(),
{
    if s.len() == 0 {
        0
    } else {
        let m = max_bet_of(s.drop_last());
        if contending(s.last()) && s.last()->0.bet > m {
            s.last()->0.bet as nat
        } else {
            m
        }
    }
}

/// The first slot, walking the ring of seats forward from `start` and skipping the
/// first `k` slots, that satisfies `f`.
pub open spec fn first_from(
    s: Seq<Option<Seat>>,
    start: int,
    k: int,
    f: spec_fn(Option<Seat>) -> bool,
) -> Option<int>
    decreases 10 - k,
{
    if k >= 10 || k < 0 {
        None
    } else if f(s[(start + k) % 10]) {
        Some((start + k) % 10)
    } else {
        first_from(s, start, k + 1, f)
    }
}

/// The first slot at or after `start` (mod 10), walking the ring forward, that satisfies `f`.
pub open spec fn next_seat(s: Seq<Option<Seat>>, start: int, f: spec_fn(Option<Seat>) -> bool) -> Option<
    int,
> {
    first_from(s, start % 10, 0, f)
}

/// The predicate `holds_guest(_, id)`, as a value.
pub open spec fn holder(id: usize) -> spec_fn(Option<Seat>) -> bool {
    |x: Option<Seat>| holds_guest(x, id)
}

/// The first slot of `s` that holds the guest `id`.
pub open spec fn seat_of(s: Seq<Option<Seat>>, id: usize) -> Option<int> {
    first_from(s, 0, 0, holder(id))
}

/// A slot index found in the ring, as a `usize`.
pub open spec fn as_slot(o: Option<int>) -> Option<usize> {
    match o {
        Some(p) => Some(p as usize),
        None => None,
    }
}

/// Whether the guest `id` sits somewhere in `s`.
pub open spec fn seated(s: Seq<Option<Seat>>, id: usize) -> bool {
    exists|i: int| 0 <= i < s.len() && #[trigger] holds_guest(s[i], id)
}

/// How many steps forward lead from slot `a` to slot `b` on the ring of ten.
pub open spec fn ring_dist(a: int, b: int) -> int {
    (b - a + 10) % 10
}

/// What `first_from` finds: a slot satisfying `f`, with none before it; or nothing at all.
pub proof fn lemma_first_from(s: Seq<Option<Seat>>, start: int, k: int, f: spec_fn(Option<Seat>) -> bool)
    requires
        s.len() == 10,
        0 <= start < 10,
        0 <= k <= 10,
    ensures
        match first_from(s, start, k, f) {
            Some(p) => 0 <= p < 10 && f(s[p]) && k <= ring_dist(start, p) && forall|j: int|
                k <= j < ring_dist(start, p) ==> !f(#[trigger] s[(start + j) % 10]),
            None => forall|j: int| k <= j < 10 ==> !f(#[trigger] s[(start + j) % 10]),
        },
    decreases 10 - k,
{
    if k < 10 {
        lemma_first_from(s, start, k + 1, f);
        let p = (start + k) % 10;
        assert(ring_dist(start, p) == k);
        if !f(s[p]) {
            match first_from(s, start, k + 1, f) {
                Some(q) => {
                    assert forall|j: int| k <= j < ring_dist(start, q) implies !f(
                        #[trigger] s[(start + j) % 10],
                    ) by {
                        if j > k {
                        }
                    }
                },
                None => {},
            }
        }
    }
}

/// A slot satisfying `f` is found whenever one exists.
pub proof fn lemma_first_from_finds(s: Seq<Option<Seat>>, start: int, f: spec_fn(Option<Seat>) -> bool, i: int)
    requires
        s.len() == 10,
        0 <= start < 10,
        0 <= i < 10,
        f(s[i]),
    ensures
        first_from(s, start, 0, f) is Some,
{
    lemma_first_from(s, start, 0, f);
    let j = if i >= start {
        i - start
    } else {
        i + 10 - start
    };
    assert(s[(start + j) % 10] == s[i]);
}

/// A table of ten seats, some of them empty.
#[derive(Debug)]
pub struct Room {
    pub id: usize,
    pub seats: [Option<Seat>; MAX_SEATS],
    /// The small blind of the next hand.
    pub sb: usize,
}

/// Scans the ring forward from `start` for the first slot satisfying the predicate that
/// `which` names: 0 occupied, 1 can act.
pub(crate) fn scan_seats(seats: &[Option<Seat>; MAX_SEATS], start: usize, which: u8) -> (r: Option<usize>)
    requires
        start < 10,
        which <= 1,
    ensures
        r == as_slot(
            first_from(
                seats@,
                start as int,
                0,
                if which == 0 {
                    is_occupied()
                } else {
                    is_able()
                },
            ),
        ),
        r matches Some(p) ==> p < 10,
{
    let ghost f = if which == 0 {
        is_occupied()
    } else {
        is_able()
    };
    let mut i: usize = 0;
    while i < MAX_SEATS
        invariant
            i <= 10,
            start < 10,
            which <= 1,
            f == (if which == 0 {
                is_occupied()
            } else {
                is_able()
            }),
            first_from(seats@, start as int, 0, f) == first_from(seats@, start as int, i as int, f),
        decreases 10 - i,
    {
        let p = (start + i) % MAX_SEATS;
        let hit = match &seats[p] {
            Some(seat) => which == 0 || (!seat.fold && seat.stack != 0),
            None => false,
        };
        assert(hit == f(seats@[(start + i) as int % 10]));
        if hit {
            return Some(p);
        }
        i = i + 1;
    }
    None
}

impl Room {
    /// An empty table whose first hand has its small blind on seat 0.
    pub fn new(id: usize) -> (r: Room)
        ensures
            r.id == id,
            r.sb == 0,
            forall|i: int| 0 <= i < 10 ==> r.seats@[i] is None,
    {
        Room { id, seats: [None, None, None, None, None, None, None, None, None, None], sb: 0 }
    }

    /// A table with `guest` alone, on seat 0.
    pub fn with_guest(id: usize, guest: &Guest) -> (r: Room)
        ensures
            r.id == id,
            r.sb == 0,
            r.seats@[0] == Some(seat_for(*guest)),
            forall|i: int| 1 <= i < 10 ==> r.seats@[i] is None,
    {
        let mut room = Room::new(id);
        room.seats[0] = Some(Seat::from(guest.duplicate()));
        room
    }

    /// The guest on seat `position`, if any.
    pub fn get_guest(&self, position: usize) -> (r: Option<&Guest>)
        requires
            position < 10,
        ensures
            match self.seats@[position as int] {
                Some(seat) => r == Some(&seat.guest),
                None => r is None,
            },
    {
        match &self.seats[position] {
            Some(seat) => Some(&seat.guest),
            None => None,
        }
    }

    /// Moves the small blind forward, from where it stands, to the first occupied seat.
    pub fn correct(&mut self)
        requires
            exists|i: int| 0 <= i < 10 && #[trigger] occupied(old(self).seats@[i]),
        ensures
            final(self).id == old(self).id,
            final(self).seats == old(self).seats,
            Some(final(self).sb as int) == next_seat(
                old(self).seats@,
                old(self).sb as int,
                is_occupied(),
            ),
    {
        proof {
            let i = choose|i: int| 0 <= i < 10 && #[trigger] occupied(self.seats@[i]);
            lemma_first_from_finds(self.seats@, self.sb as int % 10, is_occupied(), i);
            lemma_first_from(self.seats@, self.sb as int % 10, 0, is_occupied());
        }
        let found = scan_seats(&self.seats, self.sb % MAX_SEATS, 0);
        match found {
            Some(p) => {
                self.sb = p;
            },
            None => {},
        }
    }

    /// Hands the small blind to the next occupied seat after the current one.
    pub fn pass_sb(&mut self)
        requires
            exists|i: int| 0 <= i < 10 && #[trigger] occupied(old(self).seats@[i]),
        ensures
            final(self).id == old(self).id,
            final(self).seats == old(self).seats,
            Some(final(self).sb as int) == next_seat(
                old(self).seats@,
                old(self).sb as int % 10 + 1,
                is_occupied(),
            ),
    {
        let ghost seats = self.seats;
        self.sb = self.sb % MAX_SEATS + 1;
        proof {
            let i = choose|i: int| 0 <= i < 10 && #[trigger] occupied(seats@[i]);
            assert(occupied(self.seats@[i]));
        }
        self.correct();
    }

    /// Number of occupied seats.
    pub fn count(&self) -> (r: usize)
        ensures
            r == count_seats(self.seats@, is_occupied()),
    {
        let ghost f = is_occupied();
        let mut n: usize = 0;
        let mut i: usize = 0;
        while i < MAX_SEATS
            invariant
                i <= 10,
                n <= i,
                n == count_seats(self.seats@.take(i as int), f),
                f == is_occupied(),
            decreases 10 - i,
        {
            assert(self.seats@.take(i as int + 1).drop_last() =~= self.seats@.take(i as int));
            assert(self.seats@.take(i as int + 1).last() == self.seats@[i as int]);
            if self.seats[i].is_some() {
                n = n + 1;
            }
            i = i + 1;
        }
        assert(self.seats@.take(10) =~= self.seats@);
        n
    }

    /// Number of players still in the hand (seated and not folded).
    pub fn player_count(&self) -> (r: usize)
        ensures
            r == count_seats(self.seats@, is_contending()),
    {
        let ghost f = is_contending();
        let mut n: usize = 0;
        let mut i: usize = 0;
        while i < MAX_SEATS
            invariant
                i <= 10,
                n <= i,
                n == count_seats(self.seats@.take(i as int), f),
                f == is_contending(),
            decreases 10 - i,
        {
            assert(self.seats@.take(i as int + 1).drop_last() =~= self.seats@.take(i as int));
            assert(self.seats@.take(i as int + 1).last() == self.seats@[i as int]);
            let hit = match &self.seats[i] {
                Some(seat) => !seat.fold,
                None => false,
            };
            if hit {
                n = n + 1;
            }
            i = i + 1;
        }
        assert(self.seats@.take(10) =~= self.seats@);
        n
    }

    /// Whether no player still in the hand can act: all of them are all-in.
    pub fn all_allin(&self) -> (r: bool)
        ensures
            r == forall|i: int| 0 <= i < 10 ==> !can_act(#[trigger] self.seats@[i]),
    {
        let mut i: usize = 0;
        while i < MAX_SEATS
            invariant
                i <= 10,
                forall|j: int| 0 <= j < i ==> !can_act(#[trigger] self.seats@[j]),
            decreases 10 - i,
        {
            let acts = match &self.seats[i] {
                Some(seat) => !seat.fold && !seat.allin(),
                None => false,
            };
            if acts {
                return false;
            }
            i = i + 1;
        }
        true
    }

    /// Whether every seated guest is ready.
    pub fn all_ready(&self) -> (r: bool)
        ensures
            r == forall|i: int|
                0 <= i < 10 && occupied(#[trigger] self.seats@[i]) ==> self.seats@[i]->0.ready,
    {
        let mut i: usize = 0;
        while i < MAX_SEATS
            invariant
                i <= 10,
                forall|j: int|
                    0 <= j < i && occupied(#[trigger] self.seats@[j]) ==> self.seats@[j]->0.ready,
            decreases 10 - i,
        {
            let unready = match &self.seats[i] {
                Some(seat) => !seat.ready,
                None => false,
            };
            if unready {
                return false;
            }
            i = i + 1;
        }
        true
    }

    /// Whether a hand can start: every seated guest is ready and there are two or more.
    pub fn should_start(&self) -> (r: bool)
        ensures
            r == ((forall|i: int|
                0 <= i < 10 && occupied(#[trigger] self.seats@[i]) ==> self.seats@[i]->0.ready)
                && count_seats(self.seats@, is_occupied()) >= 2),
    {
        self.all_ready() && self.count() >= 2
    }

    /// Seats `guest` on the lowest empty seat and returns that seat; `None` when the
    /// guest already sits here or the table is full.
    pub fn insert(&mut self, guest: Guest) -> (r: Option<usize>)
        ensures
            final(self).id == old(self).id,
            final(self).sb == old(self).sb,
            seated(old(self).seats@, guest.id) ==> r is None && final(self).seats == old(
                self,
            ).seats,
            !seated(old(self).seats@, guest.id) ==> match first_from(
                old(self).seats@,
                0,
                0,
                is_empty_slot(),
            ) {
                Some(p) => r == Some(p as usize) && final(self).seats@ == old(self).seats@.update(
                    p,
                    Some(seat_for(guest)),
                ),
                None => r is None && final(self).seats == old(self).seats,
            },
    {
        let ghost empty_slot = is_empty_slot();
        let mut empty = MAX_SEATS;
        let mut i: usize = 0;
        while i < MAX_SEATS
            invariant
                i <= 10,
                empty <= 10,
                empty_slot == is_empty_slot(),
                forall|j: int| 0 <= j < i ==> !holds_guest(#[trigger] self.seats@[j], guest.id),
                empty == 10 ==> first_from(self.seats@, 0, 0, empty_slot) == first_from(
                    self.seats@,
                    0,
                    i as int,
                    empty_slot,
                ),
                empty < 10 ==> first_from(self.seats@, 0, 0, empty_slot) == Some(empty as int),
            decreases 10 - i,
        {
            let same = match &self.seats[i] {
                Some(seat) => seat.guest.id == guest.id,
                None => false,
            };
            if same {
                assert(holds_guest(self.seats@[i as int], guest.id));
                return None;
            }
            assert((0 + i as int) % 10 == i as int);
            if empty == MAX_SEATS && self.seats[i].is_none() {
                empty = i;
            }
            i = i + 1;
        }
        if empty == MAX_SEATS {
            None
        } else {
            self.seats[empty] = Some(Seat::from(guest));
            Some(empty)
        }
    }

    /// Whether the guest sits at the table.
    pub fn has_guest(&mut self, guest_id: usize) -> (r: bool)
        ensures
            *final(self) == *old(self),
            r == seated(old(self).seats@, guest_id),
    {
        let mut i: usize = 0;
        while i < MAX_SEATS
            invariant
                i <= 10,
                forall|j: int| 0 <= j < i ==> !holds_guest(#[trigger] self.seats@[j], guest_id),
            decreases 10 - i,
        {
            let same = match &self.seats[i] {
                Some(seat) => seat.guest.id == guest_id,
                None => false,
            };
            if same {
                assert(holds_guest(self.seats@[i as int], guest_id));
                return true;
            }
            i = i + 1;
        }
        false
    }

    /// The first seat holding the guest.
    fn find_guest(&self, guest_id: usize) -> (r: Option<usize>)
        ensures
            r == as_slot(seat_of(self.seats@, guest_id)),
            r matches Some(p) ==> p < 10,
    {
        let ghost f = holder(guest_id);
        let mut i: usize = 0;
        while i < MAX_SEATS
            invariant
                i <= 10,
                f == (holder(guest_id)),
                seat_of(self.seats@, guest_id) == first_from(self.seats@, 0, i as int, f),
            decreases 10 - i,
        {
            let same = match &self.seats[i] {
                Some(seat) => seat.guest.id == guest_id,
                None => false,
            };
            if same {
                return Some(i);
            }
            i = i + 1;
        }
        None
    }

    /// Whether the guest is ready; `None` when the guest is not seated.
    pub fn is_ready(&self, guest_id: usize) -> (r: Option<bool>)
        ensures
            r == match seat_of(self.seats@, guest_id) {
                Some(p) => Some(self.seats@[p]->0.ready),
                None => None::<bool>,
            },
    {
        proof {
            lemma_first_from(self.seats@, 0, 0, holder(guest_id));
        }
        match self.find_guest(guest_id) {
            Some(p) => match &self.seats[p] {
                Some(seat) => Some(seat.ready),
                None => None,
            },
            None => None,
        }
    }

    /// Sets the ready flag of the guest's seat, and returns the seat.
    fn set_ready(&mut self, guest_id: usize, ready: bool) -> (r: Option<usize>)
        ensures
            final(self).id == old(self).id,
            final(self).sb == old(self).sb,
            r == as_slot(seat_of(old(self).seats@, guest_id)),
            match seat_of(old(self).seats@, guest_id) {
                Some(p) => final(self).seats@ == old(self).seats@.update(
                    p,
                    Some(Seat { ready, ..old(self).seats@[p]->0 }),
                ),
                None => final(self).seats == old(self).seats,
            },
    {
        proof {
            lemma_first_from(self.seats@, 0, 0, holder(guest_id));
        }
        match self.find_guest(guest_id) {
            Some(p) => {
                let updated = match &self.seats[p] {
                    Some(seat) => Some(
                        Seat {
                            guest: seat.guest.duplicate(),
                            ready,
                            stack: seat.stack,
                            bet: seat.bet,
                            fold: seat.fold,
                        },
                    ),
                    None => None,
                };
                self.seats[p] = updated;
                Some(p)
            },
            None => None,
        }
    }

    /// Marks the guest ready and returns the seat. Fails with `SeatUnavailable` when the
    /// guest is not seated, and with `InsufficientStack` when the stack is below the buy-in.
    pub fn ready(&mut self, guest_id: usize) -> (r: Result<usize, PokerError>)
        ensures
            final(self).id == old(self).id,
            final(self).sb == old(self).sb,
            match seat_of(old(self).seats@, guest_id) {
                None => r == Err::<usize, PokerError>(PokerError::SeatUnavailable)
                    && final(self).seats == old(self).seats,
                Some(p) => if old(self).seats@[p]->0.stack < MIN_READY_STACK {
                    r == Err::<usize, PokerError>(PokerError::InsufficientStack)
                        && final(self).seats == old(self).seats
                } else {
                    r == Ok::<usize, PokerError>(p as usize) && final(self).seats@ == old(
                        self,
                    ).seats@.update(p, Some(Seat { ready: true, ..old(self).seats@[p]->0 }))
                },
            },
    {
        proof {
            lemma_first_from(self.seats@, 0, 0, holder(guest_id));
        }
        match self.find_guest(guest_id) {
            Some(p) => {
                let enough = match &self.seats[p] {
                    Some(seat) => seat.stack >= MIN_READY_STACK,
                    None => false,
                };
                if !enough {
                    return Err(PokerError::InsufficientStack);
                }
                self.set_ready(guest_id, true);
                Ok(p)
            },
            None => Err(PokerError::SeatUnavailable),
        }
    }

    /// Clears the guest's ready flag and returns the seat; `SeatUnavailable` when the
    /// guest is not seated.
    pub fn unready(&mut self, guest_id: usize) -> (r: Result<usize, PokerError>)
        ensures
            final(self).id == old(self).id,
            final(self).sb == old(self).sb,
            match seat_of(old(self).seats@, guest_id) {
                None => r == Err::<usize, PokerError>(PokerError::SeatUnavailable)
                    && final(self).seats == old(self).seats,
                Some(p) => r == Ok::<usize, PokerError>(p as usize) && final(self).seats@ == old(
                    self,
                ).seats@.update(p, Some(Seat { ready: false, ..old(self).seats@[p]->0 })),
            },
    {
        match self.set_ready(guest_id, false) {
            Some(p) => Ok(p),
            None => Err(PokerError::SeatUnavailable),
        }
    }

    /// The largest bet of a player still in the hand: what everyone must match.
    pub fn max_bet(&self) -> (r: usize)
        ensures
            r == max_bet_of(self.seats@),
    {
        let mut max_bet: usize = 0;
        let mut i: usize = 0;
        while i < MAX_SEATS
            invariant
                i <= 10,
                max_bet == max_bet_of(self.seats@.take(i as int)),
            decreases 10 - i,
        {
            assert(self.seats@.take(i as int + 1).drop_last() =~= self.seats@.take(i as int));
            match &self.seats[i] {
                Some(seat) => {
                    if !seat.fold && seat.bet > max_bet {
                        max_bet = seat.bet;
                    }
                },
                None => {},
            }
            i = i + 1;
        }
        assert(self.seats@.take(10) =~= self.seats@);
        max_bet
    }

    /// Chips the guest must add to match the largest bet; 0 when the guest is not seated
    /// or has already matched it.
    pub fn to_call(&self, guest_id: usize) -> (r: usize)
        ensures
            r == match seat_of(self.seats@, guest_id) {
                Some(p) => if self.seats@[p]->0.bet < max_bet_of(self.seats@) {
                    (max_bet_of(self.seats@) - self.seats@[p]->0.bet) as usize
                } else {
                    0
                },
                None => 0,
            },
    {
        proof {
            lemma_first_from(self.seats@, 0, 0, holder(guest_id));
        }
        let max_bet = self.max_bet();
        match self.find_guest(guest_id) {
            Some(p) => match &self.seats[p] {
                Some(seat) => if seat.bet < max_bet {
                    max_bet - seat.bet
                } else {
                    0
                },
                None => 0,
            },
            None => 0,
        }
    }

    /// Starts a hand: the small blind moves forward from where it stands to the first
    /// occupied seat, then on to the next occupied seat, which becomes the new small blind;
    /// the new game's first position is that seat.
    pub fn new_game(&mut self, game_id: usize) -> (r: Game)
        requires
            exists|i: int| 0 <= i < 10 && #[trigger] occupied(old(self).seats@[i]),
        ensures
            final(self).id == old(self).id,
            final(self).seats == old(self).seats,
            ({
                let sb = next_seat(old(self).seats@, old(self).sb as int, is_occupied());
                &&& sb is Some
                &&& Some(final(self).sb as int) == next_seat(
                    old(self).seats@,
                    sb->0 + 1,
                    is_occupied(),
                )
            }),
            final(self).sb < 10,
            occupied(final(self).seats@[final(self).sb as int]),
            r.id == game_id && r.room_id == old(self).id && r.round == Round::PreFlop,
            r.pot == 0,
            r.position == final(self).sb,
            r.raise_position == final(self).sb,
    {
        self.correct();
        let ghost mid = self.sb as int;
        proof {
            lemma_first_from(self.seats@, (mid % 10 + 1) % 10, 0, is_occupied());
        }
        self.pass_sb();
        Game::new(game_id, self.id, self.sb)
    }
}

} // verus!
