//! The errors that this library reports.

use vstd::prelude::*;

verus! {

/// What went wrong with a message or an exchange of messages.
#[derive(Debug, Clone, Copy, PartialEq, Eq)]
pub enum IoError {
    /// No reply arrived within the read timeout.
    Timeout,
    /// A message ended before the data it announces.
    UnexpectedEof,
    /// A reply is shorter than the AMS/TCP and AMS headers together.
    ReplyTooShort,
    /// A reply does not come from the address the request was sent to.
    UnexpectedSource,
    /// A reply answers another command than the one requested.
    UnexpectedCommand,
    /// A reply does not carry the state flags of a reply to an ADS command.
    UnexpectedStateFlags,
    /// A reply carries another invoke ID than the request.
    UnexpectedInvokeId,
    /// A reply holds fewer bytes than the caller asked for.
    ShortData,
    /// A reply gives a length for its data that is more than the buffer
    /// that was offered holds, or more than the data that the reply carries.
    BufferOverflow,
    /// A UDP packet does not start with the magic number.
    InvalidMagic,
    /// A UDP packet carries a nonzero invoke ID.
    InvalidInvokeId,
    /// A UDP packet is for another service, or not a reply where one is expected.
    InvalidService,
    /// The reply to a route request carries no status.
    NoStatus,
}

/// The error type of the library.
#[derive(Debug, Clone, Copy, PartialEq, Eq)]
pub enum Error {
    /// A length does not fit its 32-bit or 16-bit field, or a decoded state
    /// code is not a known one.
    InvalidData,
    /// A message was malformed, misdirected or late.
    Io(IoError),
    /// The device answered with a nonzero ADS error code.
    Ads {
        /// What was being attempted.
        action: &'static str,
        /// The error code as sent by the device.
        code: u32,
    },
    /// The operation is not available on this object.
    Unimplemented,
}

impl IoError {
    /// The text of [`IoError::message`].
    pub open spec fn spec_message(self) -> Seq<char> {
        match self {
            IoError::Timeout => "timed out"@,
            IoError::UnexpectedEof => "unexpected end of file"@,
            IoError::ReplyTooShort => "reply too short"@,
            IoError::UnexpectedSource => "unexpected source address"@,
            IoError::UnexpectedCommand => "unexpected command"@,
            IoError::UnexpectedStateFlags => "unexpected state flags"@,
            IoError::UnexpectedInvokeId => "unexpected invoke ID"@,
            IoError::ShortData => "got less data than expected"@,
            IoError::BufferOverflow => "buffer overflow"@,
            IoError::InvalidMagic => "parsing UDP packet: invalid magic"@,
            IoError::InvalidInvokeId => "parsing UDP packet: invalid invoke ID"@,
            IoError::InvalidService => "parsing UDP packet: invalid service ID"@,
            IoError::NoStatus => "setting route: no status in reply"@,
        }
    }

    /// A short description of the error.
    pub fn message(&self) -> (r: &'static str)
        ensures
            r@ == self.spec_message(),
    {
        match self {
            IoError::Timeout => "timed out",
            IoError::UnexpectedEof => "unexpected end of file",
            IoError::ReplyTooShort => "reply too short",
            IoError::UnexpectedSource => "unexpected source address",
            IoError::UnexpectedCommand => "unexpected command",
            IoError::UnexpectedStateFlags => "unexpected state flags",
            IoError::UnexpectedInvokeId => "unexpected invoke ID",
            IoError::ShortData => "got less data than expected",
            IoError::BufferOverflow => "buffer overflow",
            IoError::InvalidMagic => "parsing UDP packet: invalid magic",
            IoError::InvalidInvokeId => "parsing UDP packet: invalid invoke ID",
            IoError::InvalidService => "parsing UDP packet: invalid service ID",
            IoError::NoStatus => "setting route: no status in reply",
        }
    }
}

/// What a result code `code` of the device means for the operation `action`:
/// zero is success, anything else is the device's error.
pub open spec fn spec_ads_result(action: &'static str, code: u32) -> Result<(), Error> {
    if code == 0 {
        Ok(())
    } else {
        Err(Error::Ads { action, code })
    }
}

/// The error for a nonzero ADS error code `code` met while doing `action`.
pub fn ads_error(action: &'static str, code: u32) -> (r: Error)
    ensures
        r == (Error::Ads { action, code }),
{
    Error::Ads { action, code }
}

/// Turns a result code of the device into a `Result`.
pub fn ads_result(action: &'static str, code: u32) -> (r: Result<(), Error>)
    ensures
        r == spec_ads_result(action, code),
{
    if code == 0 {
        Ok(())
    } else {
        Err(ads_error(action, code))
    }
}

} // verus!
