use open_poker::{Card, Face, Numeral, PokerError, Rank, Suit};

#[test]
fn test_unique() {
    let deck = Card::new_deck();
    for i in 0..deck.len() {
        for j in (i + 1)..deck.len() {
            assert_ne!(deck[i], deck[j]);
        }
    }
}

#[test]
fn test_order() {
    let deck = Card::new_sorted();
    assert!(deck.is_sorted());
}

#[test]
fn test_random() {
    let d1 = Card::new_deck();
    let d2 = Card::new_deck();
    assert_ne!(d1, d2);
}

#[test]
fn sorted_deck_has_every_card_once_in_rank_then_suit_order() {
    let deck = Card::new_sorted();
    assert_eq!(deck.len(), 52);
    assert_eq!(deck[0], Card { rank: Rank::Two, suit: Suit::Spade });
    assert_eq!(deck[1], Card { rank: Rank::Two, suit: Suit::Heart });
    assert_eq!(deck[3], Card { rank: Rank::Two, suit: Suit::Club });
    assert_eq!(deck[4], Card { rank: Rank::Three, suit: Suit::Spade });
    assert_eq!(deck[51], Card { rank: Rank::A, suit: Suit::Club });
    for i in 0..deck.len() {
        for j in (i + 1)..deck.len() {
            assert_ne!(deck[i], deck[j]);
        }
    }
    assert_eq!(Card::new_sorted(), deck);
}

#[test]
fn shuffled_deck_is_a_permutation_of_the_sorted_deck() {
    let deck = Card::new_deck();
    assert_eq!(deck.len(), 52);
    for card in Card::new_sorted() {
        assert_eq!(deck.iter().filter(|c| **c == card).count(), 1);
    }
}

#[test]
fn parse_reads_suit_then_rank() {
    assert_eq!(Card::parse("SA"), Ok(Card { rank: Rank::A, suit: Suit::Spade }));
    assert_eq!(Card::parse("HT"), Ok(Card { rank: Rank::Ten, suit: Suit::Heart }));
    assert_eq!(Card::parse("D2"), Ok(Card { rank: Rank::Two, suit: Suit::Diamond }));
    assert_eq!(Card::parse("CK"), Ok(Card { rank: Rank::K, suit: Suit::Club }));
}

#[test]
fn parse_rejects_malformed_codes() {
    assert_eq!(Card::parse(""), Err(PokerError::ParseError));
    assert_eq!(Card::parse("S"), Err(PokerError::ParseError));
    assert_eq!(Card::parse("SAA"), Err(PokerError::ParseError));
    assert_eq!(Card::parse("AS"), Err(PokerError::ParseError));
    assert_eq!(Card::parse("X2"), Err(PokerError::ParseError));
    assert_eq!(Card::parse("S1"), Err(PokerError::ParseError));
    assert_eq!(Suit::parse('s'), Err(PokerError::ParseError));
    assert_eq!(Rank::parse('1'), Err(PokerError::ParseError));
}

#[test]
fn format_and_parse_round_trip_over_the_deck() {
    for card in Card::new_sorted() {
        let code = card.to_string();
        assert_eq!(code.chars().count(), 2);
        assert_eq!(Card::parse(&code), Ok(card));
    }
    assert_eq!(Card { rank: Rank::Q, suit: Suit::Diamond }.to_string(), "DQ");
}

#[test]
fn rank_numbers() {
    assert_eq!(Rank::A.as_usize(), 1);
    assert_eq!(Rank::Two.as_usize(), 2);
    assert_eq!(Rank::K.as_usize(), 13);
    assert_eq!(Rank::A.strength(), 14);
    assert_eq!(Rank::Ten.strength(), 10);
    assert_eq!(Rank::Ten.to_char(), 'T');
    assert_eq!(Suit::Club.to_char(), 'C');
}

#[test]
fn iterators_walk_in_canonical_order() {
    let mut suits = Suit::iter();
    assert_eq!(suits.next(), Some(Suit::Spade));
    assert_eq!(suits.next(), Some(Suit::Heart));
    assert_eq!(suits.next(), Some(Suit::Diamond));
    assert_eq!(suits.next(), Some(Suit::Club));
    assert_eq!(suits.next(), None);
    let mut ranks = Rank::iter();
    assert_eq!(ranks.next(), Some(Rank::Two));
    let mut last = None;
    let mut n = 1;
    while let Some(r) = ranks.next() {
        last = Some(r);
        n += 1;
    }
    assert_eq!(n, 13);
    assert_eq!(last, Some(Rank::A));
}

#[test]
fn cards_compare_by_rank_only() {
    let a = Card { rank: Rank::K, suit: Suit::Spade };
    let b = Card { rank: Rank::K, suit: Suit::Heart };
    let c = Card { rank: Rank::A, suit: Suit::Club };
    assert_eq!(a.partial_cmp(&b), Some(std::cmp::Ordering::Equal));
    assert!(a < c);
    assert_ne!(a, b);
}

#[test]
fn numeral_and_face_codes() {
    assert_eq!(Numeral::A.to_char(), 'A');
    assert_eq!(Numeral::Ten.to_char(), 'T');
    assert_eq!(Numeral::Seven.to_char(), '7');
    assert_eq!(Face::J.to_char(), 'J');
    assert_eq!(Face::K.to_char(), 'K');
}
