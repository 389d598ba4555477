//! An in-memory key/value server's core: the RESP codec, the store and the commands.

use vstd::prelude::*;

pub mod backend;
pub mod buffer;
pub mod cmd;
pub mod codec;
pub mod convert;
pub mod decode;
pub mod double;
pub mod encode;
pub mod frame;
pub mod laws;
pub mod network;
pub mod order;
pub mod text;

pub use backend::Backend;
pub use cmd::{Command, CommandError, CommandExecutor, Get, HGet, HGetAll, HSet, SetValue};
pub use codec::{RespDecode, RespEncode};
pub use decode::{calc_total_length, extract_simple_frame_data, parse_length, RespError};
pub use frame::{
    BulkString, RespArray, RespDouble, RespFrame, RespMap, RespNull, RespNullArray,
    RespNullBulkString, RespSet, SimpleError, SimpleString,
};
pub use network::{process_buffer, request_handler, serve_one};
pub use text::find_crlf;

verus! {

} // verus!
