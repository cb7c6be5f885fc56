use open_poker::{Card, Game, GameResult, Guest, PokerError, Room, Round, Seat};

fn two_player_room() -> Room {
    let mut room = Room::new(7);
    assert_eq!(room.insert(Guest::new(1, "alice")), Some(0));
    assert_eq!(room.insert(Guest::new(2, "bob")), Some(1));
    room
}

fn seat(room: &Room, i: usize) -> &Seat {
    room.seats[i].as_ref().unwrap()
}

#[test]
fn test_round_cmp() {
    let rounds = [Round::PreFlop, Round::Flop, Round::Turn, Round::River, Round::Over];
    for (i, a) in rounds.iter().enumerate() {
        for b in &rounds[(i + 1)..] {
            assert!(a < b);
        }
    }
}

#[test]
fn round_tokens_round_trip() {
    let rounds = [Round::PreFlop, Round::Flop, Round::Turn, Round::River, Round::Over];
    let tokens = ["preflop", "flop", "turn", "river", "finish"];
    for (r, t) in rounds.iter().zip(tokens.iter()) {
        assert_eq!(r.to_string(), *t);
        assert_eq!(Round::parse(t), Ok(*r));
    }
    assert_eq!(Round::parse("showdown"), Err(PokerError::ParseError));
    assert_eq!(Round::parse(""), Err(PokerError::ParseError));
    assert_eq!(Round::PreFlop.next_round(), Round::Flop);
    assert_eq!(Round::River.next_round(), Round::Over);
    assert_eq!(Round::PreFlop.revealed_cards(), 0);
    assert_eq!(Round::Flop.revealed_cards(), 3);
    assert_eq!(Round::Turn.revealed_cards(), 4);
    assert_eq!(Round::Over.revealed_cards(), 5);
}

#[test]
fn new_game_starts_preflop_on_the_small_blind() {
    let g = Game::new(3, 4, 5);
    assert_eq!(g.round, Round::PreFlop);
    assert_eq!((g.id, g.room_id, g.pot, g.position, g.raise_position), (3, 4, 0, 5, 5));
    assert!(!g.is_over());
    assert_eq!(GameResult::new(1, 2, -3).diff, -3);
}

#[test]
fn heads_up_hand_from_blinds_to_an_uncontested_win() {
    let mut room = two_player_room();
    let mut deck = Card::new_deck();
    let (mut game, deal) = room.start_hand(11, &mut deck).unwrap();
    assert_eq!(deck.len(), 52 - 4 - 5);
    assert!(deal.holes[0].is_some() && deal.holes[1].is_some() && deal.holes[2].is_none());
    assert_eq!(deal.common.len(), 5);
    // The small blind advanced from seat 0 to seat 1; the blinds come from the seats
    // after it: seat 0 posts 1, seat 1 posts 2, and seat 0 acts first.
    assert_eq!(room.sb, 1);
    assert_eq!(seat(&room, 0).bet, 1);
    assert_eq!(seat(&room, 1).bet, 2);
    assert_eq!(game.pot, 3);
    assert_eq!(game.position, 0);
    assert_eq!(game.round, Round::PreFlop);

    // A calls: the action is back at the big blind, the flop comes.
    assert_eq!(game.bet(&mut room, 1, 1), Ok(()));
    assert_eq!(seat(&room, 0).bet, 2);
    assert_eq!(game.round, Round::Flop);
    assert_eq!(game.position, 1);
    // The last raiser opens the new round and stays its closing seat.
    assert_eq!(game.raise_position, game.position);

    // Both check through the flop.
    assert_eq!(game.bet(&mut room, 2, 0), Ok(()));
    assert_eq!(game.round, Round::Flop);
    assert_eq!(game.bet(&mut room, 1, 0), Ok(()));
    assert_eq!(game.round, Round::Turn);
    assert_eq!(game.raise_position, game.position);

    // On the turn B checks and A folds: the hand ends at once.
    assert_eq!(game.bet(&mut room, 2, 0), Ok(()));
    assert_eq!(game.fold(&mut room, 1), Ok(()));
    assert_eq!(room.player_count(), 1);
    assert!(game.is_over());

    let holes: Vec<Vec<Card>> = vec![Vec::new(); 10];
    let winner = room.winner_seat(&deal.common, &holes);
    assert_eq!(winner, Some(1));
    let results = room.settle(&game, 1);
    assert_eq!(
        results,
        vec![GameResult::new(11, 1, -2), GameResult::new(11, 2, 2)]
    );
    assert_eq!(seat(&room, 0).guest.bankroll, -2);
    assert_eq!(seat(&room, 1).guest.bankroll, 2);
    assert_eq!(seat(&room, 0).stack, 998);
    assert_eq!(seat(&room, 1).stack, 1002);
    assert_eq!(seat(&room, 1).bet, 0);
    assert!(!seat(&room, 0).fold && !seat(&room, 0).ready);
}

#[test]
fn actions_out_of_turn_or_too_small_are_refused() {
    let mut room = two_player_room();
    let mut deck = Card::new_sorted();
    let (mut game, _) = room.start_hand(1, &mut deck).unwrap();
    // Seat 0 (guest 1) must act; guest 2 may not.
    assert_eq!(game.bet(&mut room, 2, 1), Err(PokerError::InvalidAction));
    assert_eq!(game.fold(&mut room, 2), Err(PokerError::InvalidAction));
    // Checking when behind is refused and changes nothing.
    assert_eq!(game.bet(&mut room, 1, 0), Err(PokerError::InvalidAction));
    assert_eq!(game.pot, 3);
    assert_eq!(seat(&room, 0).stack, 999);
    // More than the stack.
    assert_eq!(game.bet(&mut room, 1, 5000), Err(PokerError::InsufficientStack));
    // A raise moves the closing seat to the raiser.
    assert_eq!(game.bet(&mut room, 1, 5), Ok(()));
    assert_eq!(game.raise_position, 0);
    assert_eq!(game.position, 1);
    assert_eq!(game.pot, 8);
}

#[test]
fn short_all_in_is_allowed_and_ends_betting() {
    let mut room = two_player_room();
    let mut deck = Card::new_sorted();
    let (mut game, _) = room.start_hand(1, &mut deck).unwrap();
    // A shoves everything.
    assert_eq!(game.bet(&mut room, 1, 999), Ok(()));
    assert_eq!(seat(&room, 0).stack, 0);
    // B is all-in for less: allowed although below the largest bet.
    room.seats[1].as_mut().unwrap().stack = 10;
    assert_eq!(game.bet(&mut room, 2, 10), Ok(()));
    assert!(room.all_allin());
    assert_eq!(game.round, Round::Over);
}

#[test]
fn pass_skips_folded_and_all_in_seats() {
    let mut room = Room::new(1);
    for id in 1..=4 {
        room.insert(Guest::new(id, "p"));
    }
    room.seats[1].as_mut().unwrap().fold = true;
    room.seats[2].as_mut().unwrap().stack = 0;
    let mut game = Game::new(1, 1, 0);
    assert_eq!(game.pass(&room), Ok(()));
    assert_eq!(game.position, 3);
    assert_eq!(game.pass(&room), Ok(()));
    assert_eq!(game.position, 0);
    room.seats[0].as_mut().unwrap().fold = true;
    room.seats[3].as_mut().unwrap().fold = true;
    assert_eq!(game.pass(&room), Err(PokerError::NoActivePlayer));
    assert_eq!(game.position, 0);
    let mut game = Game::new(1, 1, 9);
    room.seats[3].as_mut().unwrap().fold = false;
    assert_eq!(game.correct(&room), Ok(()));
    assert_eq!(game.position, 3);
}

#[test]
fn update_ends_the_hand_when_one_player_is_left() {
    let mut room = two_player_room();
    room.seats[0].as_mut().unwrap().fold = true;
    let mut game = Game::new(1, 7, 1);
    game.raise_position = 0;
    assert!(game.update(&room));
    assert_eq!(game.round, Round::Over);
    assert!(!game.update(&room));
}

#[test]
fn update_advances_the_round_when_the_action_is_back_at_the_raiser() {
    let room = two_player_room();
    let mut game = Game::new(1, 7, 1);
    game.raise_position = 0;
    assert!(!game.update(&room));
    assert_eq!(game.round, Round::PreFlop);
    game.position = 0;
    assert!(game.update(&room));
    assert_eq!(game.round, Round::Flop);
    assert_eq!(game.raise_position, 0);
}

#[test]
fn showdown_gives_the_pot_to_the_best_hand() {
    let mut room = two_player_room();
    let common: Vec<Card> = ["SA", "SK", "D7", "C2", "H9"].iter().map(|c| Card::parse(c).unwrap()).collect();
    let mut holes: Vec<Vec<Card>> = vec![Vec::new(); 10];
    holes[0] = vec![Card::parse("HA").unwrap(), Card::parse("DA").unwrap()];
    holes[1] = vec![Card::parse("HK").unwrap(), Card::parse("DK").unwrap()];
    assert_eq!(room.winner_seat(&common, &holes), Some(0));
    holes[0] = vec![Card::parse("H3").unwrap(), Card::parse("D4").unwrap()];
    assert_eq!(room.winner_seat(&common, &holes), Some(1));
    // Equal hands: the lower seat takes the pot.
    holes[0] = vec![Card::parse("C3").unwrap(), Card::parse("D4").unwrap()];
    holes[1] = vec![Card::parse("H3").unwrap(), Card::parse("S4").unwrap()];
    assert_eq!(room.winner_seat(&common, &holes), Some(0));
    room.seats[0].as_mut().unwrap().fold = true;
    room.seats[1].as_mut().unwrap().fold = true;
    assert_eq!(room.winner_seat(&common, &holes), None);
}

#[test]
fn blinds_that_cannot_be_posted_fail_the_start() {
    let mut room = two_player_room();
    room.seats[0].as_mut().unwrap().stack = 0;
    let mut deck = Card::new_sorted();
    assert!(room.start_hand(1, &mut deck).is_err());
}

#[test]
fn a_client_stops_waiting_on_its_turn_or_at_the_end() {
    let room = two_player_room();
    let mut game = Game::new(1, 7, 1);
    assert!(game.awaits(&room, 2));
    assert!(!game.awaits(&room, 1));
    game.position = 4;
    assert!(!game.awaits(&room, 1));
    game.round = Round::Over;
    assert!(game.awaits(&room, 1));
}
