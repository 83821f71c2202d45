use rs_modbus::error::{get_code_by_error, get_error_by_code, ErrorCode, ModbusError};
use std::sync::Arc;

#[test]
fn test_error_code_values() {
    assert_eq!(ErrorCode::IllegalFunction.as_u8(), 0x01);
    assert_eq!(ErrorCode::IllegalDataAddress.as_u8(), 0x02);
    assert_eq!(ErrorCode::IllegalDataValue.as_u8(), 0x03);
    assert_eq!(ErrorCode::ServerDeviceFailure.as_u8(), 0x04);
    assert_eq!(ErrorCode::Acknowledge.as_u8(), 0x05);
    assert_eq!(ErrorCode::ServerDeviceBusy.as_u8(), 0x06);
    assert_eq!(ErrorCode::MemoryParityError.as_u8(), 0x08);
    assert_eq!(ErrorCode::GatewayPathUnavailable.as_u8(), 0x0a);
    assert_eq!(ErrorCode::GatewayTargetDeviceFailedToRespond.as_u8(), 0x0b);
}

#[test]
fn test_get_error_by_code() {
    let err = get_error_by_code(ErrorCode::IllegalFunction);
    assert!(matches!(err, ModbusError::IllegalFunction));
}

#[test]
fn test_get_code_by_error_roundtrip() {
    for code in [
        ErrorCode::IllegalFunction,
        ErrorCode::IllegalDataAddress,
        ErrorCode::IllegalDataValue,
        ErrorCode::ServerDeviceFailure,
        ErrorCode::Acknowledge,
        ErrorCode::ServerDeviceBusy,
        ErrorCode::MemoryParityError,
        ErrorCode::GatewayPathUnavailable,
        ErrorCode::GatewayTargetDeviceFailedToRespond,
    ] {
        let err = get_error_by_code(code);
        assert_eq!(get_code_by_error(&err), code);
    }
}

#[test]
fn test_get_code_by_error_non_modbus() {
    let err = ModbusError::Timeout;
    assert_eq!(get_code_by_error(&err), ErrorCode::ServerDeviceFailure);
}

#[test]
fn test_get_code_by_error_unknown() {
    let err = ModbusError::ModbusErrorCode(0x99);
    assert_eq!(get_code_by_error(&err), ErrorCode::ServerDeviceFailure);
}

#[test]
fn bytes_without_a_code_are_refused() {
    assert_eq!(ErrorCode::try_from(0x0b), Ok(ErrorCode::GatewayTargetDeviceFailedToRespond));
    for byte in [0x00u8, 0x07, 0x09, 0x0c, 0xff] {
        assert_eq!(ErrorCode::try_from(byte), Err(()));
    }
}

#[test]
fn messages_name_the_error() {
    assert_eq!(ModbusError::CrcCheckFailed.message(), "CRC check failed");
    assert_eq!(ModbusError::LrcCheckFailed.message(), "LRC check failed");
    assert_eq!(ModbusError::InvalidHex.message(), "Invalid hex character");
    assert_eq!(
        ModbusError::T1_5Exceeded.message(),
        "Inter-character timeout (t1.5) exceeded"
    );
    assert_eq!(ModbusError::IncompleteFrame.message(), "Incomplete frame");
    assert_eq!(ModbusError::InsufficientData.message(), "Insufficient data length");
    assert_eq!(ModbusError::InvalidResponse.message(), "Invalid response");
    assert_eq!(ModbusError::InvalidData.message(), "Invalid data");
    assert_eq!(ModbusError::Timeout.message(), "Timeout");
    assert_eq!(ModbusError::PortNotOpen.message(), "Port is not open");
    assert_eq!(ModbusError::PortAlreadyOpen.message(), "Port is already open");
    assert_eq!(ModbusError::PortDestroyed.message(), "Port is destroyed");
    assert_eq!(ModbusError::ModbusErrorCode(153).message(), "MODBUS_ERROR_CODE_153");
    assert_eq!(ModbusError::NotSupported.message(), "Not supported");
    assert_eq!(ModbusError::IllegalFunction.message(), "Illegal function");
    assert_eq!(ModbusError::IllegalDataAddress.message(), "Illegal data address");
    assert_eq!(ModbusError::IllegalDataValue.message(), "Illegal data value");
    assert_eq!(ModbusError::ServerDeviceFailure.message(), "Server device failure");
    assert_eq!(
        ModbusError::ConnectionError("refused".to_string()).message(),
        "Connection error: refused"
    );
    assert_eq!(
        ModbusError::InvalidState("Master closed".to_string()).message(),
        "Invalid state: Master closed"
    );
}

#[test]
fn io_errors_are_carried_through() {
    let err = ModbusError::from(std::io::Error::new(std::io::ErrorKind::Other, "broken pipe"));
    assert_eq!(err.message(), "IO error: broken pipe");
    let copy = err.clone();
    match (err, copy) {
        (ModbusError::Io(a), ModbusError::Io(b)) => assert!(Arc::ptr_eq(&a, &b)),
        _ => panic!("both are IO errors"),
    }
}

#[test]
fn clones_keep_the_error() {
    let err = ModbusError::ConnectionError("refused".to_string());
    assert!(matches!(err.clone(), ModbusError::ConnectionError(ref s) if s == "refused"));
    assert!(matches!(ModbusError::ModbusErrorCode(7).clone(), ModbusError::ModbusErrorCode(7)));
    assert!(matches!(ModbusError::T1_5Exceeded.clone(), ModbusError::T1_5Exceeded));
}
