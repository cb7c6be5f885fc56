//! Rules engine for a Texas Hold'em table: cards and decks, hand evaluation,
//! seats and rooms, and the betting-round state machine of one hand.

pub mod card;
pub mod deal;
pub mod error;
pub mod game;
pub mod guest;
pub mod hand;
pub mod record;
pub mod room;
pub mod seat;
pub mod showdown;

pub use card::{Card, Deck, Face, Joker, ModernCard, Numeral, Rank, RankIter, Suit, SuitIter};
pub use deal::Deal;
pub use error::{
    bad_request_error, conflict_error, forbidden_error, internal_server_error, not_found_error,
    unauthorized_error, Error, ErrorType, PokerError,
};
pub use game::{Game, GameResult, Round};
pub use guest::Guest;
pub use hand::{Hand, Kind};
pub use record::{Action, Record, Records};
pub use room::{Room, MAX_SEATS};
pub use seat::Seat;
