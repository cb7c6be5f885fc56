use open_poker::{
    bad_request_error, conflict_error, forbidden_error, internal_server_error, not_found_error,
    unauthorized_error, ErrorType, Guest, PokerError, Room, Seat,
};

#[test]
fn insert_takes_the_lowest_empty_seat() {
    let mut room = Room::new(1);
    assert_eq!(room.count(), 0);
    assert_eq!(room.insert(Guest::new(1, "a")), Some(0));
    assert_eq!(room.insert(Guest::new(2, "b")), Some(1));
    room.seats[0] = None;
    assert_eq!(room.insert(Guest::new(3, "c")), Some(0));
    assert_eq!(room.insert(Guest::new(2, "b")), None);
    assert_eq!(room.count(), 2);
    let seat = room.seats[0].as_ref().unwrap();
    assert_eq!((seat.stack, seat.bet, seat.ready, seat.fold), (1000, 0, false, false));
}

#[test]
fn insert_into_a_full_room_fails() {
    let mut room = Room::new(1);
    for id in 0..10 {
        assert_eq!(room.insert(Guest::new(id, "g")), Some(id));
    }
    assert_eq!(room.insert(Guest::new(99, "late")), None);
    assert_eq!(room.count(), 10);
}

#[test]
fn with_guest_seats_the_creator_first() {
    let guest = Guest::new(5, "host");
    let mut room = Room::with_guest(3, &guest);
    assert_eq!(room.id, 3);
    assert_eq!(room.get_guest(0), Some(&guest));
    assert_eq!(room.get_guest(1), None);
    assert!(room.has_guest(5));
    assert!(!room.has_guest(6));
}

#[test]
fn ready_and_unready() {
    let mut room = Room::new(1);
    room.insert(Guest::new(1, "a"));
    room.insert(Guest::new(2, "b"));
    assert_eq!(room.is_ready(1), Some(false));
    assert_eq!(room.is_ready(9), None);
    assert!(!room.should_start());
    assert_eq!(room.ready(1), Ok(0));
    assert!(room.all_ready() == false);
    assert_eq!(room.ready(2), Ok(1));
    assert!(room.all_ready());
    assert!(room.should_start());
    assert_eq!(room.unready(2), Ok(1));
    assert_eq!(room.is_ready(2), Some(false));
    assert_eq!(room.ready(9), Err(PokerError::SeatUnavailable));
    assert_eq!(room.unready(9), Err(PokerError::SeatUnavailable));
    room.seats[1].as_mut().unwrap().stack = 9;
    assert_eq!(room.ready(2), Err(PokerError::InsufficientStack));
}

#[test]
fn a_single_ready_guest_does_not_start_a_hand() {
    let mut room = Room::new(1);
    room.insert(Guest::new(1, "a"));
    room.ready(1).unwrap();
    assert!(room.all_ready());
    assert!(!room.should_start());
}

#[test]
fn derived_queries_ignore_folded_seats() {
    let mut room = Room::new(1);
    for id in 0..3 {
        room.insert(Guest::new(id, "p"));
    }
    room.seats[0].as_mut().unwrap().bet = 50;
    room.seats[1].as_mut().unwrap().bet = 20;
    room.seats[2].as_mut().unwrap().bet = 30;
    assert_eq!(room.max_bet(), 50);
    assert_eq!(room.player_count(), 3);
    room.seats[0].as_mut().unwrap().fold = true;
    assert_eq!(room.max_bet(), 30);
    assert_eq!(room.player_count(), 2);
    assert!(!room.all_allin());
    room.seats[1].as_mut().unwrap().stack = 0;
    room.seats[2].as_mut().unwrap().stack = 0;
    assert!(room.all_allin());
    assert_eq!(Room::new(2).max_bet(), 0);
}

#[test]
fn small_blind_moves_to_occupied_seats() {
    let mut room = Room::new(1);
    room.seats[3] = Some(Seat::from(Guest::new(1, "a")));
    room.seats[7] = Some(Seat::from(Guest::new(2, "b")));
    room.correct();
    assert_eq!(room.sb, 3);
    room.pass_sb();
    assert_eq!(room.sb, 7);
    room.pass_sb();
    assert_eq!(room.sb, 3);
    // The small blind stands on seat 3: the new hand advances it to seat 7.
    let game = room.new_game(42);
    assert_eq!(room.sb, 7);
    assert_eq!(game.position, 7);
    assert_eq!(game.raise_position, 7);
    assert_eq!(game.room_id, 1);
    let next = room.new_game(43);
    assert_eq!(room.sb, 3);
    assert_eq!(next.position, 3);
}

#[test]
fn service_errors_carry_kind_status_and_text() {
    let e = not_found_error("room not found");
    assert_eq!(e.kind, ErrorType::NotFoundError);
    assert_eq!(e.status_code(), 404);
    assert_eq!(e.to_string(), "not found: room not found");
    assert_eq!(unauthorized_error("x").status_code(), 401);
    assert_eq!(conflict_error("x").status_code(), 409);
    assert_eq!(bad_request_error("x").status_code(), 400);
    assert_eq!(forbidden_error("x").status_code(), 403);
    let internal = internal_server_error("boom");
    assert_eq!(internal.status_code(), 500);
    assert_eq!(internal.public_message(false), "boom");
    let db = open_poker::Error { kind: ErrorType::DatabaseError, msg: "disk".to_string() };
    assert_eq!(db.public_message(false), "something went wrong, please retry");
    assert_eq!(db.public_message(true), "disk");
    assert_eq!(ErrorType::ConflictError.to_string(), "conflict");
}

#[test]
fn to_call_is_the_gap_to_the_largest_bet() {
    let mut room = Room::new(1);
    room.insert(Guest::new(1, "a"));
    room.insert(Guest::new(2, "b"));
    room.seats[0].as_mut().unwrap().bet = 2;
    room.seats[1].as_mut().unwrap().bet = 10;
    assert_eq!(room.to_call(1), 8);
    assert_eq!(room.to_call(2), 0);
    assert_eq!(room.to_call(3), 0);
}
