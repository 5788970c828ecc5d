//! Error taxonomy of the scoring core and of the login helpers.

use vstd::prelude::*;

verus! {

/// Errors returned by the scoring core.
///
/// Every core operation reports failure synchronously through this type;
/// the core never panics and never retries.
#[derive(Clone, Copy, Debug, PartialEq, Eq, Structural)]
pub enum WhistError {
    /// A bid label or bid value that is not in the catalogue.
    UnknownBid,
    /// Seat indices that do not partition the seats exactly once, or a
    /// team variant that does not match the bid's category.
    InvalidTeamComposition,
    /// An achieved-tricks value outside `0..=13`.
    OutOfRangeTricks,
    /// A per-round delta was requested beyond the recorded history.
    DiffOutOfRange,
    /// A cumulative score entry would leave the representable range.
    ScoreOverflow,
}

impl WhistError {
    /// A short human-readable description, for the calling layer to show.
    pub fn message(&self) -> (r: String)
        ensures
            r@ == self.spec_message(),
    {
        match self {
            WhistError::UnknownBid => "unknown bid".to_owned(),
            WhistError::InvalidTeamComposition => "invalid team composition".to_owned(),
            WhistError::OutOfRangeTricks => "achieved tricks out of range".to_owned(),
            WhistError::DiffOutOfRange => "diff index out of range".to_owned(),
            WhistError::ScoreOverflow => "score out of representable range".to_owned(),
        }
    }

    pub open spec fn spec_message(&self) -> Seq<char> {
        match self {
            WhistError::UnknownBid => "unknown bid"@,
            WhistError::InvalidTeamComposition => "invalid team composition"@,
            WhistError::OutOfRangeTricks => "achieved tricks out of range"@,
            WhistError::DiffOutOfRange => "diff index out of range"@,
            WhistError::ScoreOverflow => "score out of representable range"@,
        }
    }
}

/// Why a presented token is not acceptable.
#[derive(Clone, Copy, Debug, PartialEq, Eq, Structural)]
pub enum TokenError {
    NotSigned,
    Expired,
}

impl TokenError {
    /// A short human-readable description, for the calling layer to show.
    pub fn message(&self) -> (r: String)
        ensures
            r@ == self.spec_message(),
    {
        match self {
            TokenError::NotSigned => "This token was not signed".to_owned(),
            TokenError::Expired => "This token has expired".to_owned(),
        }
    }

    pub open spec fn spec_message(&self) -> Seq<char> {
        match self {
            TokenError::NotSigned => "This token was not signed"@,
            TokenError::Expired => "This token has expired"@,
        }
    }
}

/// Why a login attempt was rejected.
#[derive(Clone, Copy, Debug, PartialEq, Eq, Structural)]
pub enum LoginErr {
    TooShort,
    WrongEmail,
    WrongCreds,
}

impl LoginErr {
    /// A short human-readable description, for the calling layer to show.
    pub fn message(&self) -> (r: String)
        ensures
            r@ == self.spec_message(),
    {
        match self {
            LoginErr::TooShort => "minimaal 8 tekens".to_owned(),
            LoginErr::WrongEmail => "geen juiste email".to_owned(),
            LoginErr::WrongCreds => "fout email of wachtwoord".to_owned(),
        }
    }

    pub open spec fn spec_message(&self) -> Seq<char> {
        match self {
            LoginErr::TooShort => "minimaal 8 tekens"@,
            LoginErr::WrongEmail => "geen juiste email"@,
            LoginErr::WrongCreds => "fout email of wachtwoord"@,
        }
    }
}

} // verus!
