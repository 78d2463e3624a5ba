//! The bytes by which PostgreSQL messages are told apart. `F_` marks those
//! that the client sends, `B_` those that the server sends.
use vstd::prelude::*;

verus! {

/// Version 3.0 of the protocol.
pub const F_PROTO_VERSION: u32 = 196608;

/// Request code of a cancellation.
pub const F_CANCEL_REQUEST: u32 = 80877102;

/// Request code that asks for TLS.
pub const F_SSL_REQUEST: u32 = 80877103;

/// Request code that asks for GSSAPI encryption.
pub const F_GSS_REQUEST: u32 = 80877104;

/// `p`
pub const F_PASSWORD_MESSAGE: u8 = 0x70;

/// `P`
pub const F_PARSE: u8 = 0x50;

/// `B`
pub const F_BIND: u8 = 0x42;

/// `D`
pub const F_DESCRIBE: u8 = 0x44;

/// `E`
pub const F_EXECUTE: u8 = 0x45;

/// `C`
pub const F_CLOSE: u8 = 0x43;

/// `S`
pub const F_SYNC: u8 = 0x53;

/// `Q`
pub const F_QUERY: u8 = 0x51;

/// `F`
pub const F_FUNCTION_CALL: u8 = 0x46;

/// `H`
pub const F_FLUSH: u8 = 0x48;

/// `X`
pub const F_TERMINATE: u8 = 0x58;

/// `d`
pub const F_COPY_DATA: u8 = 0x64;

/// `c`
pub const F_COPY_DONE: u8 = 0x63;

/// `f`
pub const F_COPY_FAIL: u8 = 0x66;

/// `R`
pub const B_AUTH_REQUEST: u8 = 0x52;

/// `S`
pub const B_PARAMETER_STATUS: u8 = 0x53;

/// `K`
pub const B_BACKEND_KEY_DATA: u8 = 0x4b;

/// `1`
pub const B_PARSE_COMPLETE: u8 = 0x31;

/// `2`
pub const B_BIND_COMPLETE: u8 = 0x32;

/// `3`
pub const B_CLOSE_COMPLETE: u8 = 0x33;

/// `C`
pub const B_COMMAND_COMPLETE: u8 = 0x43;

/// `D`
pub const B_DATA_ROW: u8 = 0x44;

/// `E`
pub const B_ERROR: u8 = 0x45;

/// `I`
pub const B_EMPTY_QUERY: u8 = 0x49;

/// `N`
pub const B_NOTICE: u8 = 0x4e;

/// `A`
pub const B_NOTIFICATION: u8 = 0x41;

/// `n`
pub const B_NO_DATA: u8 = 0x6e;

/// `s`
pub const B_PORTAL_SUSPENDED: u8 = 0x73;

/// `t`
pub const B_PARAMETER_DESC: u8 = 0x74;

/// `T`
pub const B_ROW_DESC: u8 = 0x54;

/// `Z`
pub const B_READY_FOR_QUERY: u8 = 0x5a;

} // verus!
