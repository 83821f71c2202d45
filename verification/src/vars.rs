//! Protocol constants: function codes, the exception flag, coil values and
//! the codes of Read Device Identification.
use vstd::prelude::*;

pub mod limits;

verus! {

/// Standard Modbus function codes.
#[derive(Clone, Copy, Debug, PartialEq, Eq, Structural)]
pub enum FunctionCode {
    ReadCoils,
    ReadDiscreteInputs,
    ReadHoldingRegisters,
    ReadInputRegisters,
    WriteSingleCoil,
    WriteSingleRegister,
    WriteMultipleCoils,
    WriteMultipleRegisters,
    ReportServerId,
    MaskWriteRegister,
    ReadWriteMultipleRegisters,
    ReadDeviceIdentification,
}

impl FunctionCode {
    /// The byte that stands for this function on the wire.
    pub open spec fn value(self) -> u8 {
        match self {
            FunctionCode::ReadCoils => 0x01,
            FunctionCode::ReadDiscreteInputs => 0x02,
            FunctionCode::ReadHoldingRegisters => 0x03,
            FunctionCode::ReadInputRegisters => 0x04,
            FunctionCode::WriteSingleCoil => 0x05,
            FunctionCode::WriteSingleRegister => 0x06,
            FunctionCode::WriteMultipleCoils => 0x0f,
            FunctionCode::WriteMultipleRegisters => 0x10,
            FunctionCode::ReportServerId => 0x11,
            FunctionCode::MaskWriteRegister => 0x16,
            FunctionCode::ReadWriteMultipleRegisters => 0x17,
            FunctionCode::ReadDeviceIdentification => 0x2b,
        }
    }

    pub fn as_u8(self) -> (r: u8)
        ensures
            r == self.value(),
    {
        match self {
            FunctionCode::ReadCoils => 0x01,
            FunctionCode::ReadDiscreteInputs => 0x02,
            FunctionCode::ReadHoldingRegisters => 0x03,
            FunctionCode::ReadInputRegisters => 0x04,
            FunctionCode::WriteSingleCoil => 0x05,
            FunctionCode::WriteSingleRegister => 0x06,
            FunctionCode::WriteMultipleCoils => 0x0f,
            FunctionCode::WriteMultipleRegisters => 0x10,
            FunctionCode::ReportServerId => 0x11,
            FunctionCode::MaskWriteRegister => 0x16,
            FunctionCode::ReadWriteMultipleRegisters => 0x17,
            FunctionCode::ReadDeviceIdentification => 0x2b,
        }
    }
}

/// An exception response carries the request's function code with this bit
/// set.
pub const EXCEPTION_OFFSET: u8 = 0x80;

/// Value that switches a coil on (function code 5).
pub const COIL_ON: u16 = 0xff00;

/// Value that switches a coil off (function code 5).
pub const COIL_OFF: u16 = 0x0000;

/// Sub-function of function code 0x2B that selects Read Device Identification.
pub const MEI_READ_DEVICE_ID: u8 = 0x0e;

/// Access types of a Read Device Identification request.
#[derive(Clone, Copy, Debug, PartialEq, Eq, Structural)]
pub enum ReadDeviceIdCode {
    BasicStream,
    RegularStream,
    ExtendedStream,
    SpecificAccess,
}

impl ReadDeviceIdCode {
    /// The byte that stands for this access type on the wire.
    pub open spec fn value(self) -> u8 {
        match self {
            ReadDeviceIdCode::BasicStream => 0x01,
            ReadDeviceIdCode::RegularStream => 0x02,
            ReadDeviceIdCode::ExtendedStream => 0x03,
            ReadDeviceIdCode::SpecificAccess => 0x04,
        }
    }

    pub fn as_u8(self) -> (r: u8)
        ensures
            r == self.value(),
    {
        match self {
            ReadDeviceIdCode::BasicStream => 0x01,
            ReadDeviceIdCode::RegularStream => 0x02,
            ReadDeviceIdCode::ExtendedStream => 0x03,
            ReadDeviceIdCode::SpecificAccess => 0x04,
        }
    }
}

/// Conformity level that a Read Device Identification response reports.
#[derive(Clone, Copy, Debug, PartialEq, Eq, Structural)]
pub enum ConformityLevel {
    Basic,
    Regular,
    Extended,
}

impl ConformityLevel {
    /// The byte that stands for this level on the wire.
    pub open spec fn value(self) -> u8 {
        match self {
            ConformityLevel::Basic => 0x81,
            ConformityLevel::Regular => 0x82,
            ConformityLevel::Extended => 0x83,
        }
    }

    pub fn as_u8(self) -> (r: u8)
        ensures
            r == self.value(),
    {
        match self {
            ConformityLevel::Basic => 0x81,
            ConformityLevel::Regular => 0x82,
            ConformityLevel::Extended => 0x83,
        }
    }
}

} // verus!
