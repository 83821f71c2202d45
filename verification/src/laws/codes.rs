//! The numbers that stand for things on the wire.
use vstd::prelude::*;

use crate::error::{code_of_error, error_of_code, ErrorCode, ModbusError};
use crate::vars::limits::{
    READ_COILS_MAX, READ_COILS_MIN, READ_REGISTERS_MAX, READ_REGISTERS_MIN, RW_REGISTERS_WRITE_MAX,
    WRITE_COILS_MAX, WRITE_REGISTERS_MAX,
};
use crate::vars::{
    ConformityLevel, FunctionCode, ReadDeviceIdCode, COIL_OFF, COIL_ON, EXCEPTION_OFFSET,
    MEI_READ_DEVICE_ID,
};

verus! {

/// The exception codes of the protocol. No other byte is one.
pub proof fn law_exception_codes(value: u8)
    ensures
        ErrorCode::IllegalFunction.value() == 1,
        ErrorCode::IllegalDataAddress.value() == 2,
        ErrorCode::IllegalDataValue.value() == 3,
        ErrorCode::ServerDeviceFailure.value() == 4,
        ErrorCode::Acknowledge.value() == 5,
        ErrorCode::ServerDeviceBusy.value() == 6,
        ErrorCode::MemoryParityError.value() == 8,
        ErrorCode::GatewayPathUnavailable.value() == 10,
        ErrorCode::GatewayTargetDeviceFailedToRespond.value() == 11,
        ErrorCode::of_value(value) is None <==> value == 0 || value == 7 || value == 9 || value >= 12,
        ErrorCode::of_value(value) matches Some(code) ==> code.value() == value,
        <ErrorCode as vstd::std_specs::convert::TryFromSpec<u8>>::try_from_spec(value) matches Ok(
            code,
        ) ==> code.value() == value,
        <ErrorCode as vstd::std_specs::convert::TryFromSpec<u8>>::try_from_spec(value) is Err
            <==> value == 0 || value == 7 || value == 9 || value >= 12,
{
}

/// The four codes that errors are named after are reported as these errors, and the others
/// by their number. An error is answered with the code that is named like it or whose
/// number it holds; all other errors are failures of the device.
pub proof fn law_errors_and_codes(err: ModbusError, value: u8, code: ErrorCode)
    ensures
        error_of_code(ErrorCode::IllegalFunction) == ModbusError::IllegalFunction,
        error_of_code(ErrorCode::IllegalDataAddress) == ModbusError::IllegalDataAddress,
        error_of_code(ErrorCode::IllegalDataValue) == ModbusError::IllegalDataValue,
        error_of_code(ErrorCode::ServerDeviceFailure) == ModbusError::ServerDeviceFailure,
        code.value() > 4 ==> error_of_code(code) == ModbusError::ModbusErrorCode(code.value()),
        code_of_error(ModbusError::IllegalFunction) == ErrorCode::IllegalFunction,
        code_of_error(ModbusError::IllegalDataAddress) == ErrorCode::IllegalDataAddress,
        code_of_error(ModbusError::IllegalDataValue) == ErrorCode::IllegalDataValue,
        1 <= value <= 11 && value != 7 && value != 9 ==> code_of_error(
            ModbusError::ModbusErrorCode(value),
        ).value() == value,
        value == 0 || value == 7 || value == 9 || value >= 12 ==> code_of_error(
            ModbusError::ModbusErrorCode(value),
        ) == ErrorCode::ServerDeviceFailure,
        !(err is IllegalFunction || err is IllegalDataAddress || err is IllegalDataValue
            || err is ModbusErrorCode) ==> code_of_error(err) == ErrorCode::ServerDeviceFailure,
{
}

/// The function codes, sub functions, values and limits of the protocol.
pub proof fn law_protocol_numbers()
    ensures
        FunctionCode::ReadCoils.value() == 1,
        FunctionCode::ReadDiscreteInputs.value() == 2,
        FunctionCode::ReadHoldingRegisters.value() == 3,
        FunctionCode::ReadInputRegisters.value() == 4,
        FunctionCode::WriteSingleCoil.value() == 5,
        FunctionCode::WriteSingleRegister.value() == 6,
        FunctionCode::WriteMultipleCoils.value() == 15,
        FunctionCode::WriteMultipleRegisters.value() == 16,
        FunctionCode::ReportServerId.value() == 17,
        FunctionCode::MaskWriteRegister.value() == 22,
        FunctionCode::ReadWriteMultipleRegisters.value() == 23,
        FunctionCode::ReadDeviceIdentification.value() == 43,
        ReadDeviceIdCode::BasicStream.value() == 1,
        ReadDeviceIdCode::RegularStream.value() == 2,
        ReadDeviceIdCode::ExtendedStream.value() == 3,
        ReadDeviceIdCode::SpecificAccess.value() == 4,
        ConformityLevel::Basic.value() == 129,
        ConformityLevel::Regular.value() == 130,
        ConformityLevel::Extended.value() == 131,
        EXCEPTION_OFFSET == 128,
        COIL_ON == 65280,
        COIL_OFF == 0,
        MEI_READ_DEVICE_ID == 14,
        READ_COILS_MIN == 1 && READ_COILS_MAX == 2000,
        READ_REGISTERS_MIN == 1 && READ_REGISTERS_MAX == 125,
        WRITE_COILS_MAX == 1968,
        WRITE_REGISTERS_MAX == 123,
        RW_REGISTERS_WRITE_MAX == 121,
{
}

/// What an error says of itself.
pub proof fn law_error_texts()
    ensures
        ModbusError::CrcCheckFailed.fixed_text() == "CRC check failed"@,
        ModbusError::LrcCheckFailed.fixed_text() == "LRC check failed"@,
        ModbusError::InvalidHex.fixed_text() == "Invalid hex character"@,
        ModbusError::T1_5Exceeded.fixed_text() == "Inter-character timeout (t1.5) exceeded"@,
        ModbusError::IncompleteFrame.fixed_text() == "Incomplete frame"@,
        ModbusError::InsufficientData.fixed_text() == "Insufficient data length"@,
        ModbusError::InvalidResponse.fixed_text() == "Invalid response"@,
        ModbusError::InvalidData.fixed_text() == "Invalid data"@,
        ModbusError::Timeout.fixed_text() == "Timeout"@,
        ModbusError::PortNotOpen.fixed_text() == "Port is not open"@,
        ModbusError::PortAlreadyOpen.fixed_text() == "Port is already open"@,
        ModbusError::PortDestroyed.fixed_text() == "Port is destroyed"@,
        ModbusError::NotSupported.fixed_text() == "Not supported"@,
        ModbusError::IllegalFunction.fixed_text() == "Illegal function"@,
        ModbusError::IllegalDataAddress.fixed_text() == "Illegal data address"@,
        ModbusError::IllegalDataValue.fixed_text() == "Illegal data value"@,
        ModbusError::ServerDeviceFailure.fixed_text() == "Server device failure"@,
{
}

} // verus!
