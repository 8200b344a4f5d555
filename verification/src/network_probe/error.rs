//! Errors of checks and of the choice of a path.

use vstd::prelude::*;
use vstd::string::*;

use crate::ids::CandidateId;
use crate::text::{hex_text, push_hex};

verus! {

/// Why a check fails.
#[derive(Debug)]
pub enum ProbeError {
    InvalidConfig(&'static str),
    /// The socket or the system fails, for this reason.
    Io(String),
    /// A message cannot be written or read, for this reason.
    Protocol(String),
    RandomnessUnavailable,
    NoCandidates,
    AuthorizationExpired,
    UnauthorizedCheck,
    InvalidCandidate(CandidateId),
}

/// Why no path is chosen.
#[derive(Debug, Clone, Copy, PartialEq, Eq, Structural)]
pub enum SelectionError {
    NoSuccessfulDirectPath,
    RandomnessUnavailable,
}

impl ProbeError {
    /// The error in words.
    pub open spec fn spec_message(self) -> Seq<char> {
        match self {
            ProbeError::InvalidConfig(field) => "invalid probe configuration: "@ + field@,
            ProbeError::Io(error) => "probe I/O error: "@ + error@,
            ProbeError::Protocol(error) => "probe protocol error: "@ + error@,
            ProbeError::RandomnessUnavailable => "secure randomness is unavailable"@,
            ProbeError::NoCandidates => "no usable network candidate is available"@,
            ProbeError::AuthorizationExpired => "path check authorization has expired"@,
            ProbeError::UnauthorizedCheck => "path check is not authorized"@,
            ProbeError::InvalidCandidate(id) => "invalid network candidate "@ + hex_text(id.value as nat, 32),
        }
    }

    /// The error in words.
    pub fn message(&self) -> (message: String)
        ensures
            message@ == self.spec_message(),
    {
        match self {
            ProbeError::InvalidConfig(field) => {
                let mut text: String = "invalid probe configuration: ".to_owned();
                text.append(field);
                text
            },
            ProbeError::Io(error) => {
                let mut text: String = "probe I/O error: ".to_owned();
                text.append(error.as_str());
                text
            },
            ProbeError::Protocol(error) => {
                let mut text: String = "probe protocol error: ".to_owned();
                text.append(error.as_str());
                text
            },
            ProbeError::RandomnessUnavailable => "secure randomness is unavailable".to_owned(),
            ProbeError::NoCandidates => "no usable network candidate is available".to_owned(),
            ProbeError::AuthorizationExpired => "path check authorization has expired".to_owned(),
            ProbeError::UnauthorizedCheck => "path check is not authorized".to_owned(),
            ProbeError::InvalidCandidate(id) => {
                let mut text: String = "invalid network candidate ".to_owned();
                text.append(hex_of(*id).as_str());
                text
            },
        }
    }
}

/// A name in thirty-two hexadecimal digits.
fn hex_of(id: CandidateId) -> (text: String)
    ensures
        text@ == hex_text(id.value as nat, 32),
{
    let mut text: String = String::new();
    push_hex(&mut text, id.value, 32);
    assert(text@ =~= hex_text(id.value as nat, 32));
    text
}

impl SelectionError {
    /// The error in words.
    pub open spec fn spec_message(self) -> Seq<char> {
        match self {
            SelectionError::NoSuccessfulDirectPath => "no successful direct path is available"@,
            SelectionError::RandomnessUnavailable => "secure randomness is unavailable"@,
        }
    }

    /// The error in words.
    pub fn message(self) -> (message: String)
        ensures
            message@ == self.spec_message(),
    {
        match self {
            SelectionError::NoSuccessfulDirectPath => "no successful direct path is available".to_owned(),
            SelectionError::RandomnessUnavailable => "secure randomness is unavailable".to_owned(),
        }
    }
}

} // verus!
