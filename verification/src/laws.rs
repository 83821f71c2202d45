//! What the library is for, in terms of bytes, bits and numbers.
//!
//! The functions of the library are specified over models of their own. The laws here
//! say what these models come to on the wire and for the devices at both ends.
pub mod codes;
pub mod connections;
pub mod devices;
pub mod frames;
pub mod lines;
pub mod requests;
pub mod serving;
pub mod wire;
