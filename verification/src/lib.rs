//! A MODBUS TCP protocol engine: the MBAP frame codec, every function-specific
//! PDU, the Modbus Encapsulated Interface sub-protocol with its paginated
//! Read Device Identification, and the pure decision logic of the client and
//! the server. Transport and task plumbing live outside this crate's core.

pub mod address;
pub mod client;
pub mod connection;
pub mod consts;
pub mod encoding;
pub mod function_code;
pub mod message;
pub mod messages;
pub mod modbus_encapsulated_interface;
pub mod modbus_exception;
pub mod server;
