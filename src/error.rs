use vstd::prelude::*;

verus! {

/// Failures of the game core.
#[derive(Debug, Clone, Copy, PartialEq, Eq, Structural)]
pub enum PokerError {
    /// Acting out of turn, betting below the legal amount, checking when behind.
    InvalidAction,
    /// Room full, guest already seated, or guest not seated where a seat is needed.
    SeatUnavailable,
    /// Stack below the buy-in needed to be ready, or a bet larger than the stack.
    InsufficientStack,
    /// A malformed card or round token.
    ParseError,
    /// No seat can act although the hand is not over.
    NoActivePlayer,
}

/// Categories of failures reported to clients of the table service.
#[derive(Debug, Clone, Copy, PartialEq, Eq, Structural)]
pub enum ErrorType {
    InternalServerError,
    DatabaseError,
    UnauthorizedError,
    ConflictError,
    NotFoundError,
    BadRequestError,
    ForbiddenError,
}

/// The words that name an error category.
pub open spec fn error_type_text(t: ErrorType) -> Seq<char> {
    match t {
        ErrorType::InternalServerError => "internal server error"@,
        ErrorType::DatabaseError => "database error"@,
        ErrorType::UnauthorizedError => "unauthorized"@,
        ErrorType::ConflictError => "conflict"@,
        ErrorType::NotFoundError => "not found"@,
        ErrorType::BadRequestError => "bad request"@,
        ErrorType::ForbiddenError => "forbidden"@,
    }
}

/// The HTTP status code of an error category.
pub open spec fn status_of(t: ErrorType) -> u16 {
    match t {
        ErrorType::InternalServerError => 500,
        ErrorType::DatabaseError => 500,
        ErrorType::UnauthorizedError => 401,
        ErrorType::ConflictError => 409,
        ErrorType::NotFoundError => 404,
        ErrorType::BadRequestError => 400,
        ErrorType::ForbiddenError => 403,
    }
}

impl ErrorType {
    /// The words that name the category.
    pub fn to_string(&self) -> (r: String)
        ensures
            r@ == error_type_text(*self),
    {
        match self {
            ErrorType::InternalServerError => "internal server error".to_owned(),
            ErrorType::DatabaseError => "database error".to_owned(),
            ErrorType::UnauthorizedError => "unauthorized".to_owned(),
            ErrorType::ConflictError => "conflict".to_owned(),
            ErrorType::NotFoundError => "not found".to_owned(),
            ErrorType::BadRequestError => "bad request".to_owned(),
            ErrorType::ForbiddenError => "forbidden".to_owned(),
        }
    }
}

/// A failure reported to a client: its category and a message.
#[derive(Debug)]
pub struct Error {
    pub kind: ErrorType,
    pub msg: String,
}

impl Error {
    /// The HTTP status code that reports the error.
    pub fn status_code(&self) -> (r: u16)
        ensures
            r == status_of(self.kind),
    {
        match self.kind {
            ErrorType::InternalServerError | ErrorType::DatabaseError => 500,
            ErrorType::UnauthorizedError => 401,
            ErrorType::ConflictError => 409,
            ErrorType::NotFoundError => 404,
            ErrorType::BadRequestError => 400,
            ErrorType::ForbiddenError => 403,
        }
    }

    /// The category's words, a colon, and the message.
    pub fn to_string(&self) -> (r: String)
        ensures
            r@ == error_type_text(self.kind) + ": "@ + self.msg@,
    {
        let mut text = self.kind.to_string();
        text.append(": ");
        text.append(self.msg.as_str());
        text
    }

    /// The message shown to the client: database details stay hidden unless `verbose`.
    pub fn public_message(&self, verbose: bool) -> (r: String)
        ensures
            r@ == if !verbose && self.kind == ErrorType::DatabaseError {
                "something went wrong, please retry"@
            } else {
                self.msg@
            },
    {
        if !verbose && self.kind == ErrorType::DatabaseError {
            "something went wrong, please retry".to_owned()
        } else {
            self.msg.clone()
        }
    }
}

/// An error of category `kind` carrying `msg`.
fn error_of(kind: ErrorType, msg: &str) -> (r: Error)
    ensures
        r.kind == kind,
        r.msg@ == msg@,
{
    Error { kind, msg: msg.to_owned() }
}

pub fn internal_server_error(msg: &str) -> (r: Error)
    ensures
        r.kind == ErrorType::InternalServerError,
        r.msg@ == msg@,
{
    error_of(ErrorType::InternalServerError, msg)
}

pub fn unauthorized_error(msg: &str) -> (r: Error)
    ensures
        r.kind == ErrorType::UnauthorizedError,
        r.msg@ == msg@,
{
    error_of(ErrorType::UnauthorizedError, msg)
}

pub fn conflict_error(msg: &str) -> (r: Error)
    ensures
        r.kind == ErrorType::ConflictError,
        r.msg@ == msg@,
{
    error_of(ErrorType::ConflictError, msg)
}

pub fn not_found_error(msg: &str) -> (r: Error)
    ensures
        r.kind == ErrorType::NotFoundError,
        r.msg@ == msg@,
{
    error_of(ErrorType::NotFoundError, msg)
}

pub fn bad_request_error(msg: &str) -> (r: Error)
    ensures
        r.kind == ErrorType::BadRequestError,
        r.msg@ == msg@,
{
    error_of(ErrorType::BadRequestError, msg)
}

pub fn forbidden_error(msg: &str) -> (r: Error)
    ensures
        r.kind == ErrorType::ForbiddenError,
        r.msg@ == msg@,
{
    error_of(ErrorType::ForbiddenError, msg)
}

} // verus!
