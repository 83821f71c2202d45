//! The layers of the stack: application layers frame data units, physical
//! layers carry bytes.
pub mod application;
pub mod physical;
