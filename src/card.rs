use crate::error::PokerError;
use rand::seq::SliceRandom;
use std::cmp::Ordering;
use vstd::prelude::*;

verus! {

/// The four French suits. Suits carry no order between them.
#[derive(Debug, Clone, Copy, PartialEq, Eq, Structural, Hash)]
pub enum Suit {
    Spade,
    Heart,
    Diamond,
    Club,
}

/// Position of a suit in the canonical enumeration (spade, heart, diamond, club).
pub open spec fn suit_index(s: Suit) -> int {
    match s {
        Suit::Spade => 0,
        Suit::Heart => 1,
        Suit::Diamond => 2,
        Suit::Club => 3,
    }
}

/// The suit at position `i` of the canonical enumeration.
pub open spec fn suit_at(i: int) -> Suit {
    if i == 0 {
        Suit::Spade
    } else if i == 1 {
        Suit::Heart
    } else if i == 2 {
        Suit::Diamond
    } else {
        Suit::Club
    }
}

/// The one-character code of a suit.
pub open spec fn suit_code(s: Suit) -> char {
    match s {
        Suit::Spade => 'S',
        Suit::Heart => 'H',
        Suit::Diamond => 'D',
        Suit::Club => 'C',
    }
}

/// The suit whose code is `c`, if any.
pub open spec fn suit_of_code(c: char) -> Option<Suit> {
    if c == 'S' {
        Some(Suit::Spade)
    } else if c == 'H' {
        Some(Suit::Heart)
    } else if c == 'D' {
        Some(Suit::Diamond)
    } else if c == 'C' {
        Some(Suit::Club)
    } else {
        None
    }
}

/// Walks the four suits in canonical order.
pub struct SuitIter {
    i: u8,
}

impl SuitIter {
    /// How many suits have been handed out so far.
    pub closed spec fn position(&self) -> int {
        self.i as int - 1
    }

    pub closed spec fn wf(&self) -> bool {
        1 <= self.i <= 5
    }

    /// The next suit, or `None` once all four have been handed out.
    pub fn next(&mut self) -> (r: Option<Suit>)
        requires
            old(self).wf(),
        ensures
            final(self).wf(),
            old(self).position() < 4 ==> r == Some(suit_at(old(self).position()))
                && final(self).position() == old(self).position() + 1,
            old(self).position() >= 4 ==> r is None && final(self).position() == old(
                self,
            ).position(),
    {
        let out = match self.i {
            1 => Some(Suit::Spade),
            2 => Some(Suit::Heart),
            3 => Some(Suit::Diamond),
            4 => Some(Suit::Club),
            _ => None,
        };
        if out.is_some() {
            self.i = self.i + 1;
        }
        out
    }
}

impl Suit {
    /// Iterates the suits in canonical order.
    pub fn iter() -> (r: SuitIter)
        ensures
            r.wf(),
            r.position() == 0,
    {
        SuitIter { i: 1 }
    }

    /// Reads a suit from its one-character code (`S`, `H`, `D`, `C`).
    pub fn parse(suit: char) -> (r: Result<Suit, PokerError>)
        ensures
            r == (match suit_of_code(suit) {
                Some(s) => Ok(s),
                None => Err(PokerError::ParseError),
            }),
    {
        match suit {
            'S' => Ok(Suit::Spade),
            'H' => Ok(Suit::Heart),
            'C' => Ok(Suit::Club),
            'D' => Ok(Suit::Diamond),
            _ => Err(PokerError::ParseError),
        }
    }

    /// The code of the suit as text.
    pub fn as_str(&self) -> (t: &'static str)
        ensures
            t@ == seq![suit_code(*self)],
    {
        match self {
            Suit::Spade => {
                proof {
                    reveal_strlit("S");
                }
                "S"
            },
            Suit::Heart => {
                proof {
                    reveal_strlit("H");
                }
                "H"
            },
            Suit::Diamond => {
                proof {
                    reveal_strlit("D");
                }
                "D"
            },
            Suit::Club => {
                proof {
                    reveal_strlit("C");
                }
                "C"
            },
        }
    }

    /// The one-character code of the suit.
    pub fn to_char(&self) -> (c: char)
        ensures
            c == suit_code(*self),
    {
        match self {
            Suit::Spade => 'S',
            Suit::Heart => 'H',
            Suit::Diamond => 'D',
            Suit::Club => 'C',
        }
    }
}

/// The ten numeral ranks, ace included.
#[derive(Debug, Clone, Copy, PartialEq, Eq, Structural, PartialOrd, Ord, Hash)]
pub enum Numeral {
    Two,
    Three,
    Four,
    Five,
    Six,
    Seven,
    Eight,
    Nine,
    Ten,
    A,
}

/// The three face ranks.
#[derive(Debug, Clone, Copy, PartialEq, Eq, Structural, PartialOrd, Ord, Hash)]
pub enum Face {
    J,
    Q,
    K,
}

impl Numeral {
    /// The one-character code of the numeral rank.
    pub fn to_char(&self) -> (c: char)
        ensures
            c == match *self {
                Numeral::A => 'A',
                Numeral::Two => '2',
                Numeral::Three => '3',
                Numeral::Four => '4',
                Numeral::Five => '5',
                Numeral::Six => '6',
                Numeral::Seven => '7',
                Numeral::Eight => '8',
                Numeral::Nine => '9',
                Numeral::Ten => 'T',
            },
    {
        match self {
            Numeral::A => 'A',
            Numeral::Two => '2',
            Numeral::Three => '3',
            Numeral::Four => '4',
            Numeral::Five => '5',
            Numeral::Six => '6',
            Numeral::Seven => '7',
            Numeral::Eight => '8',
            Numeral::Nine => '9',
            Numeral::Ten => 'T',
        }
    }
}

impl Face {
    /// The one-character code of the face rank.
    pub fn to_char(&self) -> (c: char)
        ensures
            c == match *self {
                Face::J => 'J',
                Face::Q => 'Q',
                Face::K => 'K',
            },
    {
        match self {
            Face::J => 'J',
            Face::Q => 'Q',
            Face::K => 'K',
        }
    }
}

/// The two jokers of a modern deck.
#[derive(Debug, Clone, Copy, PartialEq, Eq, Structural)]
pub enum Joker {
    Red,
    Black,
}

/// The thirteen ranks, from two (lowest) to ace (highest).
#[derive(Debug, Clone, Copy, PartialEq, Eq, Structural, PartialOrd, Ord, Hash)]
pub enum Rank {
    Two,
    Three,
    Four,
    Five,
    Six,
    Seven,
    Eight,
    Nine,
    Ten,
    J,
    Q,
    K,
    A,
}

/// Position of a rank in ascending order: two is 0, ace is 12.
pub open spec fn rank_index(r: Rank) -> int {
    match r {
        Rank::Two => 0,
        Rank::Three => 1,
        Rank::Four => 2,
        Rank::Five => 3,
        Rank::Six => 4,
        Rank::Seven => 5,
        Rank::Eight => 6,
        Rank::Nine => 7,
        Rank::Ten => 8,
        Rank::J => 9,
        Rank::Q => 10,
        Rank::K => 11,
        Rank::A => 12,
    }
}

/// The rank at position `i` of the ascending order.
pub open spec fn rank_at(i: int) -> Rank {
    if i <= 0 {
        Rank::Two
    } else if i == 1 {
        Rank::Three
    } else if i == 2 {
        Rank::Four
    } else if i == 3 {
        Rank::Five
    } else if i == 4 {
        Rank::Six
    } else if i == 5 {
        Rank::Seven
    } else if i == 6 {
        Rank::Eight
    } else if i == 7 {
        Rank::Nine
    } else if i == 8 {
        Rank::Ten
    } else if i == 9 {
        Rank::J
    } else if i == 10 {
        Rank::Q
    } else if i == 11 {
        Rank::K
    } else {
        Rank::A
    }
}

/// The strength of a rank with the ace high: two is 2, ten is 10, ace is 14.
pub open spec fn rank_value(r: Rank) -> int {
    rank_index(r) + 2
}

/// The one-character code of a rank.
pub open spec fn rank_code(r: Rank) -> char {
    match r {
        Rank::Two => '2',
        Rank::Three => '3',
        Rank::Four => '4',
        Rank::Five => '5',
        Rank::Six => '6',
        Rank::Seven => '7',
        Rank::Eight => '8',
        Rank::Nine => '9',
        Rank::Ten => 'T',
        Rank::J => 'J',
        Rank::Q => 'Q',
        Rank::K => 'K',
        Rank::A => 'A',
    }
}

/// The rank whose code is `c`, if any.
pub open spec fn rank_of_code(c: char) -> Option<Rank> {
    if c == '2' {
        Some(Rank::Two)
    } else if c == '3' {
        Some(Rank::Three)
    } else if c == '4' {
        Some(Rank::Four)
    } else if c == '5' {
        Some(Rank::Five)
    } else if c == '6' {
        Some(Rank::Six)
    } else if c == '7' {
        Some(Rank::Seven)
    } else if c == '8' {
        Some(Rank::Eight)
    } else if c == '9' {
        Some(Rank::Nine)
    } else if c == 'T' {
        Some(Rank::Ten)
    } else if c == 'J' {
        Some(Rank::J)
    } else if c == 'Q' {
        Some(Rank::Q)
    } else if c == 'K' {
        Some(Rank::K)
    } else if c == 'A' {
        Some(Rank::A)
    } else {
        None
    }
}

/// Walks the thirteen ranks from two up to ace.
pub struct RankIter {
    i: u8,
}

impl RankIter {
    /// How many ranks have been handed out so far.
    pub closed spec fn position(&self) -> int {
        self.i as int - 2
    }

    pub closed spec fn wf(&self) -> bool {
        2 <= self.i <= 15
    }

    /// The next rank, or `None` once all thirteen have been handed out.
    pub fn next(&mut self) -> (r: Option<Rank>)
        requires
            old(self).wf(),
        ensures
            final(self).wf(),
            old(self).position() < 13 ==> r == Some(rank_at(old(self).position()))
                && final(self).position() == old(self).position() + 1,
            old(self).position() >= 13 ==> r is None && final(self).position() == old(
                self,
            ).position(),
    {
        let out = match self.i {
            2 => Some(Rank::Two),
            3 => Some(Rank::Three),
            4 => Some(Rank::Four),
            5 => Some(Rank::Five),
            6 => Some(Rank::Six),
            7 => Some(Rank::Seven),
            8 => Some(Rank::Eight),
            9 => Some(Rank::Nine),
            10 => Some(Rank::Ten),
            11 => Some(Rank::J),
            12 => Some(Rank::Q),
            13 => Some(Rank::K),
            14 => Some(Rank::A),
            _ => None,
        };
        if out.is_some() {
            self.i = self.i + 1;
        }
        out
    }
}

impl Rank {
    /// Iterates the ranks from two up to ace.
    pub fn iter() -> (r: RankIter)
        ensures
            r.wf(),
            r.position() == 0,
    {
        RankIter { i: 2 }
    }

    /// The face value of the rank, counting the ace as one.
    pub fn as_usize(&self) -> (r: usize)
        ensures
            r == (if *self == Rank::A {
                1
            } else {
                rank_value(*self)
            }),
    {
        match self {
            Rank::A => 1,
            Rank::Two => 2,
            Rank::Three => 3,
            Rank::Four => 4,
            Rank::Five => 5,
            Rank::Six => 6,
            Rank::Seven => 7,
            Rank::Eight => 8,
            Rank::Nine => 9,
            Rank::Ten => 10,
            Rank::J => 11,
            Rank::Q => 12,
            Rank::K => 13,
        }
    }

    /// The strength of the rank with the ace high (2 to 14).
    pub fn strength(&self) -> (r: u8)
        ensures
            r == rank_value(*self),
    {
        match self {
            Rank::Two => 2,
            Rank::Three => 3,
            Rank::Four => 4,
            Rank::Five => 5,
            Rank::Six => 6,
            Rank::Seven => 7,
            Rank::Eight => 8,
            Rank::Nine => 9,
            Rank::Ten => 10,
            Rank::J => 11,
            Rank::Q => 12,
            Rank::K => 13,
            Rank::A => 14,
        }
    }

    /// Reads a rank from its one-character code (`2`..`9`, `T`, `J`, `Q`, `K`, `A`).
    pub fn parse(rank: char) -> (r: Result<Rank, PokerError>)
        ensures
            r == (match rank_of_code(rank) {
                Some(k) => Ok(k),
                None => Err(PokerError::ParseError),
            }),
    {
        match rank {
            'A' => Ok(Rank::A),
            '2' => Ok(Rank::Two),
            '3' => Ok(Rank::Three),
            '4' => Ok(Rank::Four),
            '5' => Ok(Rank::Five),
            '6' => Ok(Rank::Six),
            '7' => Ok(Rank::Seven),
            '8' => Ok(Rank::Eight),
            '9' => Ok(Rank::Nine),
            'T' => Ok(Rank::Ten),
            'J' => Ok(Rank::J),
            'Q' => Ok(Rank::Q),
            'K' => Ok(Rank::K),
            _ => Err(PokerError::ParseError),
        }
    }

    /// The code of the rank as text.
    pub fn as_str(&self) -> (t: &'static str)
        ensures
            t@ == seq![rank_code(*self)],
    {
        match self {
            Rank::A => {
                proof {
                    reveal_strlit("A");
                }
                "A"
            },
            Rank::Two => {
                proof {
                    reveal_strlit("2");
                }
                "2"
            },
            Rank::Three => {
                proof {
                    reveal_strlit("3");
                }
                "3"
            },
            Rank::Four => {
                proof {
                    reveal_strlit("4");
                }
                "4"
            },
            Rank::Five => {
                proof {
                    reveal_strlit("5");
                }
                "5"
            },
            Rank::Six => {
                proof {
                    reveal_strlit("6");
                }
                "6"
            },
            Rank::Seven => {
                proof {
                    reveal_strlit("7");
                }
                "7"
            },
            Rank::Eight => {
                proof {
                    reveal_strlit("8");
                }
                "8"
            },
            Rank::Nine => {
                proof {
                    reveal_strlit("9");
                }
                "9"
            },
            Rank::Ten => {
                proof {
                    reveal_strlit("T");
                }
                "T"
            },
            Rank::J => {
                proof {
                    reveal_strlit("J");
                }
                "J"
            },
            Rank::Q => {
                proof {
                    reveal_strlit("Q");
                }
                "Q"
            },
            Rank::K => {
                proof {
                    reveal_strlit("K");
                }
                "K"
            },
        }
    }

    /// The one-character code of the rank.
    pub fn to_char(&self) -> (c: char)
        ensures
            c == rank_code(*self),
    {
        match self {
            Rank::A => 'A',
            Rank::Two => '2',
            Rank::Three => '3',
            Rank::Four => '4',
            Rank::Five => '5',
            Rank::Six => '6',
            Rank::Seven => '7',
            Rank::Eight => '8',
            Rank::Nine => '9',
            Rank::Ten => 'T',
            Rank::J => 'J',
            Rank::Q => 'Q',
            Rank::K => 'K',
        }
    }
}

/// A French-suited card.
#[derive(Debug, Clone, Copy, PartialEq, Eq, Structural, Hash)]
pub struct Card {
    pub rank: Rank,
    pub suit: Suit,
}

/// A card of a modern deck, jokers included.
#[derive(Debug, Clone, Copy, PartialEq, Eq, Structural)]
pub enum ModernCard {
    Card(Card),
    Joker(Joker),
}

/// An ordered pile of cards.
pub type Deck = Vec<Card>;

/// The two-character code of a card: its suit, then its rank.
pub open spec fn card_code(c: Card) -> Seq<char> {
    seq![suit_code(c.suit), rank_code(c.rank)]
}

/// The card whose two-character code is `s`, or a parse error.
pub open spec fn card_of_code(s: Seq<char>) -> Result<Card, PokerError> {
    if s.len() == 2 && suit_of_code(s[0]) is Some && rank_of_code(s[1]) is Some {
        Ok(Card { rank: rank_of_code(s[1])->0, suit: suit_of_code(s[0])->0 })
    } else {
        Err(PokerError::ParseError)
    }
}

/// The 52 cards ordered by rank ascending, then by suit.
pub open spec fn sorted_deck() -> Seq<Card> {
    Seq::new(52, |i: int| Card { rank: rank_at(i / 4), suit: suit_at(i % 4) })
}

/// Reading a card's code gives the card back, so the code is a one-to-one text form.
pub proof fn lemma_card_code_round_trip(c: Card, d: Card)
    ensures
        card_of_code(card_code(c)) == Ok::<Card, PokerError>(c),
        card_code(c) == card_code(d) ==> c == d,
{
    assert(card_code(c)[0] == suit_code(c.suit) && card_code(c)[1] == rank_code(c.rank));
    if card_code(c) == card_code(d) {
        assert(card_code(d)[0] == suit_code(d.suit) && card_code(d)[1] == rank_code(d.rank));
    }
}

/// The sorted deck holds 52 distinct cards, ordered by rank, then by suit.
pub proof fn lemma_sorted_deck()
    ensures
        sorted_deck().len() == 52,
        sorted_deck().no_duplicates(),
        forall|i: int, j: int|
            0 <= i < j < 52 ==> {
                let a = #[trigger] sorted_deck()[i];
                let b = #[trigger] sorted_deck()[j];
                rank_index(a.rank) < rank_index(b.rank) || (rank_index(a.rank) == rank_index(
                    b.rank,
                ) && suit_index(a.suit) < suit_index(b.suit))
            },
{
    let d = sorted_deck();
    assert forall|i: int, j: int| 0 <= i < j < 52 implies {
        let a = #[trigger] d[i];
        let b = #[trigger] d[j];
        rank_index(a.rank) < rank_index(b.rank) || (rank_index(a.rank) == rank_index(b.rank)
            && suit_index(a.suit) < suit_index(b.suit))
    } by {
        assert(i == 4 * (i / 4) + i % 4 && 0 <= i % 4 < 4);
        assert(j == 4 * (j / 4) + j % 4 && 0 <= j % 4 < 4);
        assert(0 <= i / 4 < 13 && 0 <= j / 4 < 13);
        assert(rank_index(rank_at(i / 4)) == i / 4);
        assert(rank_index(rank_at(j / 4)) == j / 4);
        assert(suit_index(suit_at(i % 4)) == i % 4);
        assert(suit_index(suit_at(j % 4)) == j % 4);
    }
    assert forall|i: int, j: int| 0 <= i < 52 && 0 <= j < 52 && i != j implies d[i] != d[j] by {
        if i < j {
            assert(d[i] == d[i] && d[j] == d[j]);
        } else {
            assert(d[j] == d[j] && d[i] == d[i]);
        }
    }
}

/// Order of two ints as a std `Ordering`.
pub open spec fn cmp_int(a: int, b: int) -> Ordering {
    if a < b {
        Ordering::Less
    } else if a > b {
        Ordering::Greater
    } else {
        Ordering::Equal
    }
}

/// Relies on rand's `SliceRandom::shuffle`, driven by the thread-local generator:
/// it only swaps elements, so the result is a permutation of the input.
#[verifier::external_body]
fn shuffle_cards(deck: &mut Vec<Card>)
    ensures
        final(deck)@.to_multiset() == old(deck)@.to_multiset(),
{
    deck.shuffle(&mut rand::rng());
}

impl Card {
    /// A new deck of the 52 cards, ranks ascending and suits in canonical order.
    pub fn new_sorted() -> (deck: Deck)
        ensures
            deck@ == sorted_deck(),
    {
        let mut deck: Deck = Vec::with_capacity(52);
        let mut ranks = Rank::iter();
        loop
            invariant
                ranks.wf(),
                0 <= ranks.position() <= 13,
                deck@ == sorted_deck().take(4 * ranks.position()),
            ensures
                deck@ == sorted_deck().take(52),
            decreases 13 - ranks.position(),
        {
            let ghost k = ranks.position();
            match ranks.next() {
                Some(rank) => {
                    let mut suits = Suit::iter();
                    loop
                        invariant
                            suits.wf(),
                            0 <= suits.position() <= 4,
                            ranks.wf(),
                            ranks.position() == k + 1,
                            0 <= k < 13,
                            rank == rank_at(k),
                            deck@ == sorted_deck().take(4 * k + suits.position()),
                        ensures
                            ranks.wf(),
                            ranks.position() == k + 1,
                            deck@ == sorted_deck().take(4 * k + 4),
                        decreases 4 - suits.position(),
                    {
                        let ghost j = suits.position();
                        match suits.next() {
                            Some(suit) => {
                                deck.push(Card { rank, suit });
                                assert((4 * k + j) / 4 == k && (4 * k + j) % 4 == j) by {
                                    assert(0 <= j < 4);
                                }
                                assert(deck@.last() == sorted_deck()[4 * k + j]);
                                assert(deck@ =~= sorted_deck().take(4 * k + j + 1));
                            },
                            None => {
                                break ;
                            },
                        }
                    }
                },
                None => {
                    break ;
                },
            }
        }
        assert(deck@ =~= sorted_deck());
        deck
    }

    /// A new deck of the 52 cards in random order.
    pub fn new_deck() -> (deck: Deck)
        ensures
            deck@.len() == 52,
            deck@.no_duplicates(),
            deck@.to_multiset() == sorted_deck().to_multiset(),
    {
        let mut deck = Self::new_sorted();
        shuffle_cards(&mut deck);
        proof {
            deck@.to_multiset_ensures();
            sorted_deck().to_multiset_ensures();
            lemma_sorted_deck();
            sorted_deck().lemma_multiset_has_no_duplicates();
            deck@.lemma_multiset_has_no_duplicates_conv();
        }
        deck
    }

    /// Reads a card from its two-character code, suit first (`SA` is the ace of spades).
    pub fn parse(card: &str) -> (r: Result<Card, PokerError>)
        ensures
            r == card_of_code(card@),
    {
        if card.unicode_len() != 2 {
            return Err(PokerError::ParseError);
        }
        let suit = Suit::parse(card.get_char(0));
        let rank = Rank::parse(card.get_char(1));
        match (suit, rank) {
            (Ok(suit), Ok(rank)) => Ok(Card { rank, suit }),
            _ => Err(PokerError::ParseError),
        }
    }

    /// The two-character code of the card, suit first.
    pub fn to_string(&self) -> (s: String)
        ensures
            s@ == card_code(*self),
    {
        let mut s = String::new();
        s.append(self.suit.as_str());
        s.append(self.rank.as_str());
        assert(s@ =~= card_code(*self));
        s
    }
}

impl PartialOrd for Card {
    fn partial_cmp(&self, other: &Card) -> (r: Option<Ordering>) {
        let a = self.rank.strength();
        let b = other.rank.strength();
        if a < b {
            Some(Ordering::Less)
        } else if a > b {
            Some(Ordering::Greater)
        } else {
            Some(Ordering::Equal)
        }
    }
}

impl vstd::std_specs::cmp::PartialOrdSpecImpl for Card {
    open spec fn obeys_partial_cmp_spec() -> bool {
        true
    }

    /// Cards compare by rank alone.
    open spec fn partial_cmp_spec(&self, other: &Card) -> Option<Ordering> {
        Some(cmp_int(rank_value(self.rank), rank_value(other.rank)))
    }
}

} // verus!
