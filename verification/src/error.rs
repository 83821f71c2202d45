//! Modbus exception codes and the error type of the library.
use std::sync::Arc;
use vstd::prelude::*;

use crate::utils::{decimal, decimal_digits};

verus! {

/// Exception codes that a server puts into an exception response.
#[derive(Debug, Clone, Copy, PartialEq, Eq, Structural)]
pub enum ErrorCode {
    IllegalFunction,
    IllegalDataAddress,
    IllegalDataValue,
    ServerDeviceFailure,
    Acknowledge,
    ServerDeviceBusy,
    MemoryParityError,
    GatewayPathUnavailable,
    GatewayTargetDeviceFailedToRespond,
}

impl ErrorCode {
    /// The byte that stands for this code on the wire.
    pub open spec fn value(self) -> u8 {
        match self {
            ErrorCode::IllegalFunction => 0x01,
            ErrorCode::IllegalDataAddress => 0x02,
            ErrorCode::IllegalDataValue => 0x03,
            ErrorCode::ServerDeviceFailure => 0x04,
            ErrorCode::Acknowledge => 0x05,
            ErrorCode::ServerDeviceBusy => 0x06,
            ErrorCode::MemoryParityError => 0x08,
            ErrorCode::GatewayPathUnavailable => 0x0a,
            ErrorCode::GatewayTargetDeviceFailedToRespond => 0x0b,
        }
    }

    /// The byte that stands for this code on the wire.
    pub fn as_u8(self) -> (r: u8)
        ensures
            r == self.value(),
    {
        match self {
            ErrorCode::IllegalFunction => 0x01,
            ErrorCode::IllegalDataAddress => 0x02,
            ErrorCode::IllegalDataValue => 0x03,
            ErrorCode::ServerDeviceFailure => 0x04,
            ErrorCode::Acknowledge => 0x05,
            ErrorCode::ServerDeviceBusy => 0x06,
            ErrorCode::MemoryParityError => 0x08,
            ErrorCode::GatewayPathUnavailable => 0x0a,
            ErrorCode::GatewayTargetDeviceFailedToRespond => 0x0b,
        }
    }

    /// The code that a wire byte stands for, if any.
    pub open spec fn of_value(value: u8) -> Option<ErrorCode> {
        match value {
            0x01 => Some(ErrorCode::IllegalFunction),
            0x02 => Some(ErrorCode::IllegalDataAddress),
            0x03 => Some(ErrorCode::IllegalDataValue),
            0x04 => Some(ErrorCode::ServerDeviceFailure),
            0x05 => Some(ErrorCode::Acknowledge),
            0x06 => Some(ErrorCode::ServerDeviceBusy),
            0x08 => Some(ErrorCode::MemoryParityError),
            0x0a => Some(ErrorCode::GatewayPathUnavailable),
            0x0b => Some(ErrorCode::GatewayTargetDeviceFailedToRespond),
            _ => None,
        }
    }
}

impl TryFrom<u8> for ErrorCode {
    type Error = ();

    fn try_from(value: u8) -> (r: Result<Self, Self::Error>) {
        match value {
            0x01 => Ok(ErrorCode::IllegalFunction),
            0x02 => Ok(ErrorCode::IllegalDataAddress),
            0x03 => Ok(ErrorCode::IllegalDataValue),
            0x04 => Ok(ErrorCode::ServerDeviceFailure),
            0x05 => Ok(ErrorCode::Acknowledge),
            0x06 => Ok(ErrorCode::ServerDeviceBusy),
            0x08 => Ok(ErrorCode::MemoryParityError),
            0x0a => Ok(ErrorCode::GatewayPathUnavailable),
            0x0b => Ok(ErrorCode::GatewayTargetDeviceFailedToRespond),
            _ => Err(()),
        }
    }
}

impl vstd::std_specs::convert::TryFromSpecImpl<u8> for ErrorCode {
    open spec fn obeys_try_from_spec() -> bool {
        true
    }

    open spec fn try_from_spec(value: u8) -> Result<Self, Self::Error> {
        match ErrorCode::of_value(value) {
            Some(code) => Ok(code),
            None => Err(()),
        }
    }
}

/// `std::io::Error`, carried through in [`ModbusError::Io`] and never looked
/// into.
#[verifier::external_type_specification]
#[verifier::external_body]
pub struct ExIoError(std::io::Error);

/// Everything that can go wrong in this library.
#[derive(Debug)]
pub enum ModbusError {
    CrcCheckFailed,
    LrcCheckFailed,
    /// An ASCII frame held a character that is no hex digit.
    InvalidHex,
    /// Two bytes of one RTU frame lay further apart than t1.5.
    T1_5Exceeded,
    /// The line fell silent for t3.5 in the middle of an RTU frame.
    IncompleteFrame,
    InsufficientData,
    InvalidResponse,
    InvalidData,
    Timeout,
    PortNotOpen,
    PortAlreadyOpen,
    PortDestroyed,
    ModbusErrorCode(u8),
    NotSupported,
    IllegalFunction,
    IllegalDataAddress,
    IllegalDataValue,
    ServerDeviceFailure,
    ConnectionError(String),
    InvalidState(String),
    Io(Arc<std::io::Error>),
}

impl Clone for ModbusError {
    fn clone(&self) -> (r: Self)
        ensures
            r == *self,
    {
        match self {
            ModbusError::CrcCheckFailed => ModbusError::CrcCheckFailed,
            ModbusError::LrcCheckFailed => ModbusError::LrcCheckFailed,
            ModbusError::InvalidHex => ModbusError::InvalidHex,
            ModbusError::T1_5Exceeded => ModbusError::T1_5Exceeded,
            ModbusError::IncompleteFrame => ModbusError::IncompleteFrame,
            ModbusError::InsufficientData => ModbusError::InsufficientData,
            ModbusError::InvalidResponse => ModbusError::InvalidResponse,
            ModbusError::InvalidData => ModbusError::InvalidData,
            ModbusError::Timeout => ModbusError::Timeout,
            ModbusError::PortNotOpen => ModbusError::PortNotOpen,
            ModbusError::PortAlreadyOpen => ModbusError::PortAlreadyOpen,
            ModbusError::PortDestroyed => ModbusError::PortDestroyed,
            ModbusError::ModbusErrorCode(code) => ModbusError::ModbusErrorCode(*code),
            ModbusError::NotSupported => ModbusError::NotSupported,
            ModbusError::IllegalFunction => ModbusError::IllegalFunction,
            ModbusError::IllegalDataAddress => ModbusError::IllegalDataAddress,
            ModbusError::IllegalDataValue => ModbusError::IllegalDataValue,
            ModbusError::ServerDeviceFailure => ModbusError::ServerDeviceFailure,
            ModbusError::ConnectionError(text) => ModbusError::ConnectionError(text.clone()),
            ModbusError::InvalidState(text) => ModbusError::InvalidState(text.clone()),
            ModbusError::Io(e) => ModbusError::Io(e.clone()),
        }
    }
}

impl From<std::io::Error> for ModbusError {
    fn from(e: std::io::Error) -> (r: Self) {
        ModbusError::Io(Arc::new(e))
    }
}

impl vstd::std_specs::convert::FromSpecImpl<std::io::Error> for ModbusError {
    open spec fn obeys_from_spec() -> bool {
        true
    }

    open spec fn from_spec(e: std::io::Error) -> Self {
        ModbusError::Io(Arc::new(e))
    }
}

impl ModbusError {
    /// The text of the errors that carry nothing but their name.
    pub open spec fn fixed_text(self) -> Seq<char> {
        match self {
            ModbusError::CrcCheckFailed => "CRC check failed"@,
            ModbusError::LrcCheckFailed => "LRC check failed"@,
            ModbusError::InvalidHex => "Invalid hex character"@,
            ModbusError::T1_5Exceeded => "Inter-character timeout (t1.5) exceeded"@,
            ModbusError::IncompleteFrame => "Incomplete frame"@,
            ModbusError::InsufficientData => "Insufficient data length"@,
            ModbusError::InvalidResponse => "Invalid response"@,
            ModbusError::InvalidData => "Invalid data"@,
            ModbusError::Timeout => "Timeout"@,
            ModbusError::PortNotOpen => "Port is not open"@,
            ModbusError::PortAlreadyOpen => "Port is already open"@,
            ModbusError::PortDestroyed => "Port is destroyed"@,
            ModbusError::NotSupported => "Not supported"@,
            ModbusError::IllegalFunction => "Illegal function"@,
            ModbusError::IllegalDataAddress => "Illegal data address"@,
            ModbusError::IllegalDataValue => "Illegal data value"@,
            _ => "Server device failure"@,
        }
    }

    /// The text of this error, for people to read.
    pub fn message(&self) -> (r: String)
        ensures
            match *self {
                ModbusError::ModbusErrorCode(code) => r@ == "MODBUS_ERROR_CODE_"@ + decimal_digits(
                    code as nat,
                ),
                ModbusError::ConnectionError(text) => r@ == "Connection error: "@ + text@,
                ModbusError::InvalidState(text) => r@ == "Invalid state: "@ + text@,
                ModbusError::Io(e) => exists|text: String| #[trigger]
                    vstd::string::to_string_from_display_ensures::<std::io::Error>(&*e, text)
                        && r@ == "IO error: "@ + text@,
                _ => r@ == self.fixed_text(),
            },
    {
        let mut prefix: String;
        match self {
            ModbusError::ModbusErrorCode(code) => {
                prefix = "MODBUS_ERROR_CODE_".to_owned();
                prefix.append(decimal(*code as u128).as_str());
            },
            ModbusError::ConnectionError(text) => {
                prefix = "Connection error: ".to_owned();
                prefix.append(text.as_str());
            },
            ModbusError::InvalidState(text) => {
                prefix = "Invalid state: ".to_owned();
                prefix.append(text.as_str());
            },
            ModbusError::Io(e) => {
                prefix = "IO error: ".to_owned();
                let text: String = (**e).to_string();
                prefix.append(text.as_str());
            },
            ModbusError::CrcCheckFailed => prefix = "CRC check failed".to_owned(),
            ModbusError::LrcCheckFailed => prefix = "LRC check failed".to_owned(),
            ModbusError::InvalidHex => prefix = "Invalid hex character".to_owned(),
            ModbusError::T1_5Exceeded => prefix =
            "Inter-character timeout (t1.5) exceeded".to_owned(),
            ModbusError::IncompleteFrame => prefix = "Incomplete frame".to_owned(),
            ModbusError::InsufficientData => prefix = "Insufficient data length".to_owned(),
            ModbusError::InvalidResponse => prefix = "Invalid response".to_owned(),
            ModbusError::InvalidData => prefix = "Invalid data".to_owned(),
            ModbusError::Timeout => prefix = "Timeout".to_owned(),
            ModbusError::PortNotOpen => prefix = "Port is not open".to_owned(),
            ModbusError::PortAlreadyOpen => prefix = "Port is already open".to_owned(),
            ModbusError::PortDestroyed => prefix = "Port is destroyed".to_owned(),
            ModbusError::NotSupported => prefix = "Not supported".to_owned(),
            ModbusError::IllegalFunction => prefix = "Illegal function".to_owned(),
            ModbusError::IllegalDataAddress => prefix = "Illegal data address".to_owned(),
            ModbusError::IllegalDataValue => prefix = "Illegal data value".to_owned(),
            ModbusError::ServerDeviceFailure => prefix = "Server device failure".to_owned(),
        }
        prefix
    }
}

/// The error that an exception code is reported as.
pub open spec fn error_of_code(code: ErrorCode) -> ModbusError {
    match code {
        ErrorCode::IllegalFunction => ModbusError::IllegalFunction,
        ErrorCode::IllegalDataAddress => ModbusError::IllegalDataAddress,
        ErrorCode::IllegalDataValue => ModbusError::IllegalDataValue,
        ErrorCode::ServerDeviceFailure => ModbusError::ServerDeviceFailure,
        _ => ModbusError::ModbusErrorCode(code.value()),
    }
}

/// The exception code that an error is answered with. Errors that have no
/// code of their own count as a failure of the server device.
pub open spec fn code_of_error(err: ModbusError) -> ErrorCode {
    match err {
        ModbusError::IllegalFunction => ErrorCode::IllegalFunction,
        ModbusError::IllegalDataAddress => ErrorCode::IllegalDataAddress,
        ModbusError::IllegalDataValue => ErrorCode::IllegalDataValue,
        ModbusError::ModbusErrorCode(value) => match ErrorCode::of_value(value) {
            Some(code) => code,
            None => ErrorCode::ServerDeviceFailure,
        },
        _ => ErrorCode::ServerDeviceFailure,
    }
}

pub fn get_error_by_code(code: ErrorCode) -> (r: ModbusError)
    ensures
        r == error_of_code(code),
{
    match code {
        ErrorCode::IllegalFunction => ModbusError::IllegalFunction,
        ErrorCode::IllegalDataAddress => ModbusError::IllegalDataAddress,
        ErrorCode::IllegalDataValue => ModbusError::IllegalDataValue,
        ErrorCode::ServerDeviceFailure => ModbusError::ServerDeviceFailure,
        _ => ModbusError::ModbusErrorCode(code.as_u8()),
    }
}

pub fn get_code_by_error(err: &ModbusError) -> (r: ErrorCode)
    ensures
        r == code_of_error(*err),
{
    match err {
        ModbusError::IllegalFunction => ErrorCode::IllegalFunction,
        ModbusError::IllegalDataAddress => ErrorCode::IllegalDataAddress,
        ModbusError::IllegalDataValue => ErrorCode::IllegalDataValue,
        ModbusError::ServerDeviceFailure => ErrorCode::ServerDeviceFailure,
        ModbusError::ModbusErrorCode(value) => match ErrorCode::try_from(*value) {
            Ok(code) => code,
            Err(_) => ErrorCode::ServerDeviceFailure,
        },
        _ => ErrorCode::ServerDeviceFailure,
    }
}

/// Every exception code survives the way through [`get_error_by_code`] and
/// [`get_code_by_error`].
pub proof fn law_error_code_round_trip(code: ErrorCode)
    ensures
        code_of_error(error_of_code(code)) == code,
{
}

/// Every exception code is the one that its own wire byte stands for, and no
/// other byte stands for it.
pub proof fn law_error_code_value_round_trip(code: ErrorCode, value: u8)
    ensures
        ErrorCode::of_value(code.value()) == Some(code),
        ErrorCode::of_value(value) == Some(code) ==> value == code.value(),
{
}

} // verus!
