//! Modbus master and slave.
//!
//! The library is layered. Application layers ([`layers::application`]) turn data
//! units into bytes and byte streams into data units: Modbus TCP, RTU and ASCII.
//! Physical layers ([`layers::physical`]) carry bytes: TCP, UDP and serial lines.
//! On top of them a [`master`] makes requests and reads the answers, and a
//! [`slave`] has its models carry requests out and answers them.
//!
//! Nothing here touches a socket, a port or a clock. The caller performs input and
//! output, reports what happened, and does what the library asks for.
pub mod error;
pub mod exchange;
pub mod laws;
pub mod layers;
pub mod master;
pub mod master_session;
pub mod slave;
pub mod types;
pub mod utils;
pub mod vars;

mod crc_table;
mod table;

pub use self::error::{get_code_by_error, get_error_by_code, ErrorCode, ModbusError};
pub use self::master::ModbusMaster;
pub use self::slave::{ModbusSlave, ModbusSlaveModel};
pub use self::types::{
    AddressRange, ApplicationDataUnit, DeviceIdentification, DeviceObject, FramedDataUnit, ServerId,
};
