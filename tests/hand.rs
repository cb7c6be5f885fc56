use open_poker::{Card, Hand, Kind, Rank, Suit};

fn parse_cards(cards: &[&str]) -> Vec<Card> {
    cards.iter().map(|s| Card::parse(s).unwrap()).collect()
}

fn parse_hand(cards: [&str; 5]) -> Hand {
    let cards = parse_cards(&cards);
    Hand::new(&cards)
}

fn ranks(hand: &Hand) -> Vec<Rank> {
    hand.cards.iter().map(|c| c.rank).collect()
}

#[test]
fn test_best_hand() {
    let common = parse_cards(&["SA", "C3", "D3", "S4", "C4"]);
    let hand = parse_cards(&["CA", "H6"]);
    let h1 = parse_hand(["CA", "SA", "D4", "S4", "H6"]);
    let h2 = Hand::calc_best_hand(&common, &hand);
    assert_eq!(h1, h2);
}

#[test]
fn compare_high_card() {
    let h1 = parse_hand(["C3", "D5", "D6", "DT", "DA"]);
    let h2 = parse_hand(["S2", "H5", "H6", "HT", "HA"]);
    assert_eq!(h1.kind, Kind::HighCard);
    assert_eq!(h2.kind, Kind::HighCard);
    assert!(h1 > h2);
}

#[test]
fn compare_pair() {
    let h1 = parse_hand(["S3", "H5", "HT", "ST", "HA"]);
    let h2 = parse_hand(["SA", "H5", "H2", "CT", "CT"]);
    assert_eq!(h1.kind, Kind::Pair);
    assert_eq!(h2.kind, Kind::Pair);
    assert!(h1 > h2);
}

#[test]
fn compare_two_pairs() {
    let h1 = parse_hand(["SA", "H2", "S2", "S3", "H3"]);
    let h2 = parse_hand(["D2", "C2", "C3", "D3", "HK"]);
    assert_eq!(h1.kind, Kind::TwoPairs);
    assert_eq!(h2.kind, Kind::TwoPairs);
    assert!(h1 > h2);
}

#[test]
fn compare_three_of_a_kind() {
    let h1 = parse_hand(["S3", "H5", "CA", "SA", "HA"]);
    let h2 = parse_hand(["SK", "HK", "CK", "S9", "H8"]);
    assert_eq!(h1.kind, Kind::ThreeOfAKind);
    assert_eq!(h2.kind, Kind::ThreeOfAKind);
    assert!(h1 > h2);
}

#[test]
fn compare_straight() {
    let h1 = parse_hand(["S2", "H3", "H4", "S5", "H6"]);
    let h2 = parse_hand(["SA", "H5", "H4", "S3", "H2"]);
    assert_eq!(h1.kind, Kind::Straight);
    assert_eq!(h2.kind, Kind::Straight);
    assert!(h1 > h2);
}

#[test]
fn compare_flush() {
    let h1 = parse_hand(["S2", "S3", "SK", "S5", "S7"]);
    let h2 = parse_hand(["C9", "C5", "C4", "C3", "C2"]);
    assert_eq!(h1.kind, Kind::Flush);
    assert_eq!(h2.kind, Kind::Flush);
    assert!(h1 > h2);
}

#[test]
fn compare_full_house() {
    let h1 = parse_hand(["S5", "H5", "C5", "S2", "H2"]);
    let h2 = parse_hand(["S3", "H3", "C3", "S6", "H6"]);
    assert_eq!(h1.kind, Kind::FullHouse);
    assert_eq!(h2.kind, Kind::FullHouse);
    assert!(h1 > h2);
}

#[test]
fn compare_four_of_a_kind() {
    let h1 = parse_hand(["S6", "H6", "C6", "D6", "CK"]);
    let h2 = parse_hand(["SA", "H5", "C5", "S5", "D5"]);
    assert_eq!(h1.kind, Kind::FourOfAKind);
    assert_eq!(h2.kind, Kind::FourOfAKind);
    assert!(h1 > h2);
}

#[test]
fn compare_straight_flush() {
    let h1 = parse_hand(["S9", "SK", "SQ", "SJ", "ST"]);
    let h2 = parse_hand(["CT", "CJ", "CQ", "C8", "C9"]);
    assert_eq!(h1.kind, Kind::StraightFlush);
    assert_eq!(h2.kind, Kind::StraightFlush);
    assert!(h1 > h2);
}

#[test]
fn compare_royal_flush() {
    let h1 = parse_hand(["SA", "SK", "SQ", "SJ", "ST"]);
    let h2 = parse_hand(["CT", "CJ", "CQ", "CK", "CA"]);
    assert_eq!(h1.kind, Kind::RoyalFlush);
    assert_eq!(h2.kind, Kind::RoyalFlush);
    assert_eq!(h1, h2);
}

#[test]
fn compare_kind() {
    let high_card = parse_hand(["SA", "HQ", "HJ", "HT", "H9"]);
    let pair = parse_hand(["SA", "HA", "HJ", "HT", "H9"]);
    let two_pairs = parse_hand(["SA", "HA", "HK", "HK", "H9"]);
    let three_of_a_kind = parse_hand(["SA", "HA", "CA", "HT", "H9"]);
    let lowest_straight = parse_hand(["S5", "H4", "C3", "H2", "HA"]);
    let straight = parse_hand(["SA", "HK", "CQ", "HJ", "HT"]);
    let flush = parse_hand(["SA", "SQ", "SJ", "ST", "S9"]);
    let full_house = parse_hand(["SA", "CA", "HA", "SK", "CK"]);
    let four_of_a_kind = parse_hand(["SA", "CA", "HA", "DA", "CK"]);
    let straight_flush = parse_hand(["SA", "S5", "S4", "S3", "S2"]);
    let royal_flush = parse_hand(["SA", "SK", "SQ", "SJ", "ST"]);

    assert_eq!(high_card.kind, Kind::HighCard);
    assert_eq!(pair.kind, Kind::Pair);
    assert_eq!(two_pairs.kind, Kind::TwoPairs);
    assert_eq!(three_of_a_kind.kind, Kind::ThreeOfAKind);
    assert_eq!(lowest_straight.kind, Kind::Straight);
    assert_eq!(straight.kind, Kind::Straight);
    assert_eq!(flush.kind, Kind::Flush);
    assert_eq!(full_house.kind, Kind::FullHouse);
    assert_eq!(four_of_a_kind.kind, Kind::FourOfAKind);
    assert_eq!(straight_flush.kind, Kind::StraightFlush);
    assert_eq!(royal_flush.kind, Kind::RoyalFlush);

    let hands = [
        high_card,
        pair,
        two_pairs,
        three_of_a_kind,
        lowest_straight,
        straight,
        flush,
        full_house,
        four_of_a_kind,
        straight_flush,
        royal_flush,
    ];

    for i in 0..hands.len() {
        for j in (i + 1)..hands.len() {
            assert!(hands[i] < hands[j]);
        }
    }
}

#[test]
fn canonical_order_puts_groups_first_then_kickers_high_to_low() {
    let pair = parse_hand(["S9", "H2", "D4", "CQ", "HQ"]);
    assert_eq!(ranks(&pair), vec![Rank::Q, Rank::Q, Rank::Nine, Rank::Four, Rank::Two]);
    let pair_low = parse_hand(["SA", "HK", "DQ", "C2", "H2"]);
    assert_eq!(ranks(&pair_low), vec![Rank::Two, Rank::Two, Rank::A, Rank::K, Rank::Q]);
    let three = parse_hand(["SA", "H5", "D5", "C5", "H2"]);
    assert_eq!(ranks(&three), vec![Rank::Five, Rank::Five, Rank::Five, Rank::A, Rank::Two]);
    let three_mid = parse_hand(["SA", "H7", "D7", "C7", "HK"]);
    assert_eq!(ranks(&three_mid), vec![Rank::Seven, Rank::Seven, Rank::Seven, Rank::A, Rank::K]);
    let full = parse_hand(["S3", "H3", "DK", "CK", "HK"]);
    assert_eq!(ranks(&full), vec![Rank::K, Rank::K, Rank::K, Rank::Three, Rank::Three]);
    let full_low_triplet = parse_hand(["S3", "H3", "D3", "CK", "HK"]);
    assert_eq!(ranks(&full_low_triplet), vec![Rank::Three, Rank::Three, Rank::Three, Rank::K, Rank::K]);
    let wheel = parse_hand(["S3", "HA", "D5", "C2", "H4"]);
    assert_eq!(ranks(&wheel), vec![Rank::Five, Rank::Four, Rank::Three, Rank::Two, Rank::A]);
    let quad = parse_hand(["S2", "HA", "DA", "CA", "SA"]);
    assert_eq!(ranks(&quad), vec![Rank::A, Rank::A, Rank::A, Rank::A, Rank::Two]);
}

#[test]
fn pair_kickers_compare_high_to_low() {
    let h1 = parse_hand(["S2", "H2", "DA", "C9", "H3"]);
    let h2 = parse_hand(["D2", "C2", "HA", "S8", "S7"]);
    assert!(h1 > h2);
    let h3 = parse_hand(["S7", "H7", "DK", "C5", "H4"]);
    let h4 = parse_hand(["D7", "C7", "HK", "S5", "S3"]);
    assert!(h3 > h4);
}

#[test]
fn three_of_a_kind_compares_triplet_before_kickers() {
    let h1 = parse_hand(["S5", "H5", "D5", "C2", "H3"]);
    let h2 = parse_hand(["S4", "H4", "D4", "CA", "HK"]);
    assert!(h1 > h2);
}

#[test]
fn two_pairs_with_same_pairs_compare_by_kicker() {
    let h1 = parse_hand(["SJ", "HJ", "S4", "H4", "DQ"]);
    let h2 = parse_hand(["DJ", "CJ", "D4", "C4", "HT"]);
    assert_eq!(h1.kind, Kind::TwoPairs);
    assert_eq!(h2.kind, Kind::TwoPairs);
    assert!(h1 > h2);
    let h3 = parse_hand(["DJ", "CJ", "D4", "C4", "SQ"]);
    assert_eq!(h1, h3);
}

#[test]
fn full_houses_compare_by_triplet_then_pair() {
    let h1 = parse_hand(["S9", "H9", "D9", "C2", "H2"]);
    let h2 = parse_hand(["S8", "H8", "D8", "CA", "HA"]);
    assert!(h1 > h2);
    let h3 = parse_hand(["C9", "S9", "H9", "C3", "H3"]);
    assert!(h3 > h1);
}

#[test]
fn wheel_ranks_between_six_high_straight_and_non_straights() {
    let wheel = parse_hand(["SA", "H2", "D3", "C4", "H5"]);
    let six_high = parse_hand(["S2", "H3", "D4", "C5", "H6"]);
    let trips = parse_hand(["SA", "HA", "DA", "CK", "HQ"]);
    assert_eq!(wheel.kind, Kind::Straight);
    assert!(wheel < six_high);
    assert!(wheel > trips);
}

#[test]
fn best_hand_picks_the_royal_flush_of_spades() {
    let common = parse_cards(&["SA", "SK", "SQ", "SJ", "ST"]);
    let hole = parse_cards(&["H2", "H3"]);
    let best = Hand::calc_best_hand(&common, &hole);
    assert_eq!(best.kind, Kind::RoyalFlush);
    assert_eq!(best.cards.len(), 5);
    assert!(best.cards.iter().all(|c| c.suit == Suit::Spade));
    assert_eq!(best, Hand::calc_best_hand(&common, &hole));
}

#[test]
fn best_hand_uses_hole_cards_when_they_help() {
    let common = parse_cards(&["SA", "SK", "SQ", "H2", "D7"]);
    let hole = parse_cards(&["SJ", "ST"]);
    let best = Hand::calc_best_hand(&common, &hole);
    assert_eq!(best.kind, Kind::RoyalFlush);
}

#[test]
fn best_hand_is_the_maximum_of_all_five_card_subsets() {
    let common = parse_cards(&["H9", "C9", "D4", "S4", "HK"]);
    let hole = parse_cards(&["S9", "C2"]);
    let best = Hand::calc_best_hand(&common, &hole);
    assert_eq!(best.kind, Kind::FullHouse);
    let mut all = common.clone();
    all.extend(hole.iter());
    let mut found = false;
    for i in 0..7 {
        for j in (i + 1)..7 {
            let sub: Vec<Card> = all
                .iter()
                .enumerate()
                .filter(|(k, _)| *k != i && *k != j)
                .map(|(_, c)| *c)
                .collect();
            let h = Hand::new(&sub);
            assert!(h <= best);
            if h == best {
                found = true;
            }
        }
    }
    assert!(found);
    assert_eq!(best, Hand::calc_best_hand(&common, &hole));
}

#[test]
fn two_pairs_compare_by_high_pair_then_low_pair_then_kicker() {
    let kings_over_twos = parse_hand(["SK", "HK", "S2", "H2", "D3"]);
    let queens_over_jacks = parse_hand(["SQ", "HQ", "SJ", "HJ", "DA"]);
    assert!(kings_over_twos > queens_over_jacks);
    let queens_over_tens = parse_hand(["CQ", "DQ", "ST", "HT", "DA"]);
    assert!(queens_over_jacks > queens_over_tens);
}

#[test]
fn full_houses_with_same_triplet_and_pair_compare_equal() {
    let h1 = parse_hand(["S4", "H4", "D4", "CA", "HA"]);
    let h2 = parse_hand(["C4", "H4", "D4", "SA", "DA"]);
    assert_eq!(h1, h2);
    assert_eq!(ranks(&h1), vec![Rank::Four, Rank::Four, Rank::Four, Rank::A, Rank::A]);
}

#[test]
fn wheel_ranks_below_every_other_straight() {
    let wheel = parse_hand(["SA", "H2", "D3", "C4", "H5"]);
    assert_eq!(ranks(&wheel), vec![Rank::Five, Rank::Four, Rank::Three, Rank::Two, Rank::A]);
    for straight in [
        ["S2", "H3", "D4", "C5", "H6"],
        ["S6", "H7", "D8", "C9", "HT"],
        ["ST", "HJ", "DQ", "CK", "HA"],
    ] {
        let h = parse_hand(straight);
        assert_eq!(h.kind, Kind::Straight);
        assert!(wheel < h);
    }
}

#[test]
fn best_hand_does_not_depend_on_card_order_or_split() {
    let all = parse_cards(&["H9", "C9", "D4", "S4", "HK", "S9", "C2"]);
    let best = Hand::calc_best_hand(&all[..5], &all[5..]);
    let mut reversed = all.clone();
    reversed.reverse();
    assert_eq!(best, Hand::calc_best_hand(&reversed[..5], &reversed[5..]));
    let rotated: Vec<Card> = all[3..].iter().chain(all[..3].iter()).copied().collect();
    assert_eq!(best, Hand::calc_best_hand(&rotated[..5], &rotated[5..]));
}
