//! Talking to the Steam Web API about session tickets: what is asked, and
//! what the answer means. Sending the request is left to the caller.

use vstd::prelude::*;
use vstd::string::StringExecFns;

use crate::util::string::{decimal, decimal_text};

verus! {

/// The application that tickets are issued for.
pub const APP_ID: u32 = 1061090;

/// The status of an answer that can be read.
pub const STATUS_OK: u16 = 200;

/// The account that a ticket was issued to, and the account that owns the
/// game.
#[derive(Debug, Clone, Copy, PartialEq, Eq, Structural)]
pub struct UserSteamId {
    pub steam_id: u64,
    pub owner_steam_id: u64,
}

impl UserSteamId {
    /// The two ids together.
    pub fn new(steam_id: u64, owner_steam_id: u64) -> (ids: Self)
        ensures
            ids.steam_id == steam_id,
            ids.owner_steam_id == owner_steam_id,
    {
        Self { steam_id, owner_steam_id }
    }

    /// The two ids in words, for the log.
    pub fn description(&self) -> (text: String)
        ensures
            text@ == "(SteamId: "@ + decimal_text(self.steam_id as nat) + ", OwnerId: "@
                + decimal_text(self.owner_steam_id as nat) + ")"@,
    {
        let mut text: String = String::from_str("(SteamId: ");
        text.append(decimal(self.steam_id).as_str());
        text.append(", OwnerId: ");
        text.append(decimal(self.owner_steam_id).as_str());
        text.append(")");
        text
    }
}

/// The character of a hexadecimal digit, in lower case.
pub open spec fn hex_digit(digit: nat) -> char {
    "0123456789abcdef"@[digit as int]
}

/// Bytes in hexadecimal: two digits for each byte, the high one first.
pub open spec fn hex_text(bytes: Seq<u8>) -> Seq<char> {
    Seq::new(
        2 * bytes.len(),
        |i: int|
            if i % 2 == 0 {
                hex_digit((bytes[i / 2] / 16) as nat)
            } else {
                hex_digit((bytes[i / 2] % 16) as nat)
            },
    )
}

/// `hex::encode`: the bytes in hexadecimal with lower-case digits, two for
/// each byte.
#[verifier::external_body]
pub(crate) fn hex_encode(bytes: &[u8]) -> (text: String)
    ensures
        text@ == hex_text(bytes@),
{
    hex::encode(bytes)
}

/// Whether a character is one of the ten decimal digits.
pub open spec fn is_decimal_digit(c: char) -> bool {
    '0' <= c <= '9'
}

/// The number that decimal digits spell.
pub open spec fn digits_value(digits: Seq<char>) -> nat
    decreases digits.len(),
{
    if digits.len() == 0 {
        0
    } else {
        digits_value(digits.drop_last()) * 10 + (digits.last() as u32 - '0' as u32) as nat
    }
}

/// The number that a text spells: the text must be one or more decimal
/// digits, which a plus sign may precede, and the number must fit in 64
/// bits.
pub open spec fn parsed_u64(text: Seq<char>) -> Option<u64> {
    let digits = if text.len() > 0 && text[0] == '+' {
        text.skip(1)
    } else {
        text
    };
    if digits.len() > 0 && (forall|i: int| 0 <= i < digits.len() ==> is_decimal_digit(digits[i]))
        && digits_value(digits) <= u64::MAX {
        Some(digits_value(digits) as u64)
    } else {
        None
    }
}

/// `str::parse::<u64>`: the number that the text spells in decimal. The
/// text is an optional plus sign followed by digits only; anything else,
/// an empty text and a number too large for 64 bits are errors.
#[verifier::external_body]
pub(crate) fn parse_u64(text: &str) -> (number: Option<u64>)
    ensures
        number == parsed_u64(text@),
{
    match text.parse::<u64>() {
        Ok(number) => Some(number),
        Err(_) => None,
    }
}

/// What is asked of the API for a ticket: the key, the application, and the
/// ticket in hexadecimal.
pub struct TicketQuery {
    pub key: String,
    pub appid: String,
    pub ticket: String,
}

/// The question that verifies `ticket`.
pub fn ticket_query(api_key: &str, ticket: &[u8]) -> (query: TicketQuery)
    ensures
        query.key@ == api_key@,
        query.appid@ == decimal_text(APP_ID as nat),
        query.ticket@ == hex_text(ticket@),
{
    TicketQuery {
        key: String::from_str(api_key),
        appid: decimal(APP_ID as u64),
        ticket: hex_encode(ticket),
    }
}

/// What the API says of a ticket that it accepts.
pub struct TicketParams {
    pub steam_id: String,
    pub owner_steam_id: String,
}

/// What the API says of a ticket that it refuses.
pub struct TicketError {
    pub error_code: i32,
    pub error_desc: String,
}

/// Why a ticket was not verified.
#[derive(Debug, Clone, PartialEq, Eq)]
pub enum SteamError {
    /// The API answered with another status than `STATUS_OK`.
    UnexpectedStatus(u16),
    /// An id in the answer is no number.
    InvalidId,
    /// The API refused the ticket.
    Refused { error_code: i32, error_desc: String },
    /// The answer holds neither ids nor an error.
    Empty,
}

/// What an answer of the API means: the ids where it holds them and both
/// are numbers, else the reason why there are none. The ids are looked at
/// before the error.
pub open spec fn answer_meaning(
    status: u16,
    params: Option<TicketParams>,
    error: Option<TicketError>,
) -> Result<UserSteamId, SteamError> {
    if status != STATUS_OK {
        Err(SteamError::UnexpectedStatus(status))
    } else {
        match params {
            Some(p) => match (parsed_u64(p.steam_id@), parsed_u64(p.owner_steam_id@)) {
                (Some(steam_id), Some(owner_steam_id)) => Ok(
                    UserSteamId { steam_id, owner_steam_id },
                ),
                _ => Err(SteamError::InvalidId),
            },
            None => match error {
                Some(e) => Err(
                    SteamError::Refused { error_code: e.error_code, error_desc: e.error_desc },
                ),
                None => Err(SteamError::Empty),
            },
        }
    }
}

/// Reads the answer of the API to a ticket question.
pub fn read_ticket_answer(status: u16, params: Option<TicketParams>, error: Option<TicketError>)
    -> (result: Result<UserSteamId, SteamError>)
    ensures
        result == answer_meaning(status, params, error),
{
    if status != STATUS_OK {
        return Err(SteamError::UnexpectedStatus(status));
    }
    match params {
        Some(params) => {
            let steam_id: u64 = match parse_u64(params.steam_id.as_str()) {
                Some(id) => id,
                None => {
                    return Err(SteamError::InvalidId);
                },
            };
            let owner_steam_id: u64 = match parse_u64(params.owner_steam_id.as_str()) {
                Some(id) => id,
                None => {
                    return Err(SteamError::InvalidId);
                },
            };
            Ok(UserSteamId::new(steam_id, owner_steam_id))
        },
        None => match error {
            Some(error) => Err(
                SteamError::Refused {
                    error_code: error.error_code,
                    error_desc: error.error_desc,
                },
            ),
            None => Err(SteamError::Empty),
        },
    }
}

} // verus!
