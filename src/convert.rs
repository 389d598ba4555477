use vstd::prelude::*;
use vstd::slice::slice_to_vec;
use vstd::std_specs::convert::{FromSpecImpl, TryFromSpecImpl};
use vstd::string::StringExecFns;

use crate::cmd::{
    parse_frame_request, parse_request, reports, Command, CommandError, Get, HGet, HGetAll, HSet,
    Request, SetValue,
};
use crate::decode::RespError;
use crate::frame::{
    view_frames,
    BulkString, RespArray, RespDouble, RespFrame, RespMap, RespNull, RespNullArray,
    RespNullBulkString, RespSet, SimpleError, SimpleString,
};

verus! {

impl From<SimpleString> for RespFrame {
    fn from(v: SimpleString) -> Self {
        RespFrame::SimpleString(v)
    }
}

impl FromSpecImpl<SimpleString> for RespFrame {
    open spec fn obeys_from_spec() -> bool {
        true
    }

    open spec fn from_spec(v: SimpleString) -> Self {
        RespFrame::SimpleString(v)
    }
}

impl From<SimpleError> for RespFrame {
    fn from(v: SimpleError) -> Self {
        RespFrame::Error(v)
    }
}

impl FromSpecImpl<SimpleError> for RespFrame {
    open spec fn obeys_from_spec() -> bool {
        true
    }

    open spec fn from_spec(v: SimpleError) -> Self {
        RespFrame::Error(v)
    }
}

impl From<i64> for RespFrame {
    fn from(v: i64) -> Self {
        RespFrame::Integer(v)
    }
}

impl FromSpecImpl<i64> for RespFrame {
    open spec fn obeys_from_spec() -> bool {
        true
    }

    open spec fn from_spec(v: i64) -> Self {
        RespFrame::Integer(v)
    }
}

impl From<BulkString> for RespFrame {
    fn from(v: BulkString) -> Self {
        RespFrame::BulkString(v)
    }
}

impl FromSpecImpl<BulkString> for RespFrame {
    open spec fn obeys_from_spec() -> bool {
        true
    }

    open spec fn from_spec(v: BulkString) -> Self {
        RespFrame::BulkString(v)
    }
}

impl From<RespNullBulkString> for RespFrame {
    fn from(v: RespNullBulkString) -> Self {
        RespFrame::NullBulkString(v)
    }
}

impl FromSpecImpl<RespNullBulkString> for RespFrame {
    open spec fn obeys_from_spec() -> bool {
        true
    }

    open spec fn from_spec(v: RespNullBulkString) -> Self {
        RespFrame::NullBulkString(v)
    }
}

impl From<RespArray> for RespFrame {
    fn from(v: RespArray) -> Self {
        RespFrame::Array(v)
    }
}

impl FromSpecImpl<RespArray> for RespFrame {
    open spec fn obeys_from_spec() -> bool {
        true
    }

    open spec fn from_spec(v: RespArray) -> Self {
        RespFrame::Array(v)
    }
}

impl From<RespNullArray> for RespFrame {
    fn from(v: RespNullArray) -> Self {
        RespFrame::NullArray(v)
    }
}

impl FromSpecImpl<RespNullArray> for RespFrame {
    open spec fn obeys_from_spec() -> bool {
        true
    }

    open spec fn from_spec(v: RespNullArray) -> Self {
        RespFrame::NullArray(v)
    }
}

impl From<RespNull> for RespFrame {
    fn from(v: RespNull) -> Self {
        RespFrame::Null(v)
    }
}

impl FromSpecImpl<RespNull> for RespFrame {
    open spec fn obeys_from_spec() -> bool {
        true
    }

    open spec fn from_spec(v: RespNull) -> Self {
        RespFrame::Null(v)
    }
}

impl From<bool> for RespFrame {
    fn from(v: bool) -> Self {
        RespFrame::Boolean(v)
    }
}

impl FromSpecImpl<bool> for RespFrame {
    open spec fn obeys_from_spec() -> bool {
        true
    }

    open spec fn from_spec(v: bool) -> Self {
        RespFrame::Boolean(v)
    }
}

impl From<RespDouble> for RespFrame {
    fn from(v: RespDouble) -> Self {
        RespFrame::Double(v)
    }
}

impl FromSpecImpl<RespDouble> for RespFrame {
    open spec fn obeys_from_spec() -> bool {
        true
    }

    open spec fn from_spec(v: RespDouble) -> Self {
        RespFrame::Double(v)
    }
}

impl From<RespMap> for RespFrame {
    fn from(v: RespMap) -> Self {
        RespFrame::RespMap(v)
    }
}

impl FromSpecImpl<RespMap> for RespFrame {
    open spec fn obeys_from_spec() -> bool {
        true
    }

    open spec fn from_spec(v: RespMap) -> Self {
        RespFrame::RespMap(v)
    }
}

impl From<RespSet> for RespFrame {
    fn from(v: RespSet) -> Self {
        RespFrame::RespSet(v)
    }
}

impl FromSpecImpl<RespSet> for RespFrame {
    open spec fn obeys_from_spec() -> bool {
        true
    }

    open spec fn from_spec(v: RespSet) -> Self {
        RespFrame::RespSet(v)
    }
}

impl SimpleString {
    /// A simple string holding `s`.
    pub fn new<T: Into<String>>(s: T) -> (r: Self)
        ensures
            call_ensures(T::into, (s,), r.0),
    {
        SimpleString(s.into())
    }
}

impl SimpleError {
    /// An error holding `s`.
    pub fn new<T: Into<String>>(s: T) -> (r: Self)
        ensures
            call_ensures(T::into, (s,), r.0),
    {
        SimpleError(s.into())
    }
}

impl BulkString {
    /// A bulk string holding `s`.
    pub fn new<T: Into<Vec<u8>>>(s: T) -> (r: Self)
        ensures
            call_ensures(T::into, (s,), r.0),
    {
        BulkString(s.into())
    }
}

impl RespArray {
    /// An array holding `s`.
    pub fn new<T: Into<Vec<RespFrame>>>(s: T) -> (r: Self)
        ensures
            call_ensures(T::into, (s,), r.0),
    {
        RespArray(s.into())
    }
}

impl RespSet {
    /// A set holding `s`.
    pub fn new<T: Into<Vec<RespFrame>>>(s: T) -> (r: Self)
        ensures
            call_ensures(T::into, (s,), r.0),
    {
        RespSet(s.into())
    }
}

impl From<&str> for SimpleString {
    fn from(s: &str) -> Self {
        SimpleString(String::from_str(s))
    }
}

impl FromSpecImpl<&str> for SimpleString {
    open spec fn obeys_from_spec() -> bool {
        false
    }

    closed spec fn from_spec(v: &str) -> Self {
        arbitrary()
    }
}

impl From<&str> for SimpleError {
    fn from(s: &str) -> Self {
        SimpleError(String::from_str(s))
    }
}

impl FromSpecImpl<&str> for SimpleError {
    open spec fn obeys_from_spec() -> bool {
        false
    }

    closed spec fn from_spec(v: &str) -> Self {
        arbitrary()
    }
}

impl From<&str> for RespFrame {
    fn from(s: &str) -> Self {
        RespFrame::SimpleString(SimpleString(String::from_str(s)))
    }
}

impl FromSpecImpl<&str> for RespFrame {
    open spec fn obeys_from_spec() -> bool {
        false
    }

    closed spec fn from_spec(v: &str) -> Self {
        arbitrary()
    }
}

impl From<&str> for BulkString {
    fn from(s: &str) -> Self {
        BulkString(slice_to_vec(s.as_bytes()))
    }
}

impl FromSpecImpl<&str> for BulkString {
    open spec fn obeys_from_spec() -> bool {
        false
    }

    closed spec fn from_spec(v: &str) -> Self {
        arbitrary()
    }
}

impl From<String> for BulkString {
    fn from(s: String) -> Self {
        BulkString(slice_to_vec(s.as_str().as_bytes()))
    }
}

impl FromSpecImpl<String> for BulkString {
    open spec fn obeys_from_spec() -> bool {
        false
    }

    closed spec fn from_spec(v: String) -> Self {
        arbitrary()
    }
}

impl From<&[u8]> for BulkString {
    fn from(s: &[u8]) -> Self {
        BulkString(slice_to_vec(s))
    }
}

impl FromSpecImpl<&[u8]> for BulkString {
    open spec fn obeys_from_spec() -> bool {
        false
    }

    closed spec fn from_spec(v: &[u8]) -> Self {
        arbitrary()
    }
}

impl From<&[u8]> for RespFrame {
    fn from(s: &[u8]) -> Self {
        RespFrame::BulkString(BulkString(slice_to_vec(s)))
    }
}

impl FromSpecImpl<&[u8]> for RespFrame {
    open spec fn obeys_from_spec() -> bool {
        false
    }

    closed spec fn from_spec(v: &[u8]) -> Self {
        arbitrary()
    }
}

impl<const N: usize> From<&[u8; N]> for BulkString {
    fn from(s: &[u8; N]) -> Self {
        BulkString(slice_to_vec(s.as_slice()))
    }
}

impl<const N: usize> FromSpecImpl<&[u8; N]> for BulkString {
    open spec fn obeys_from_spec() -> bool {
        false
    }

    closed spec fn from_spec(v: &[u8; N]) -> Self {
        arbitrary()
    }
}

impl<const N: usize> From<&[u8; N]> for RespFrame {
    fn from(s: &[u8; N]) -> Self {
        RespFrame::BulkString(BulkString(slice_to_vec(s.as_slice())))
    }
}

impl<const N: usize> FromSpecImpl<&[u8; N]> for RespFrame {
    open spec fn obeys_from_spec() -> bool {
        false
    }

    closed spec fn from_spec(v: &[u8; N]) -> Self {
        arbitrary()
    }
}

} // verus!

verus! {

impl From<RespError> for CommandError {
    fn from(e: RespError) -> Self {
        CommandError::RespError(e)
    }
}

impl FromSpecImpl<RespError> for CommandError {
    open spec fn obeys_from_spec() -> bool {
        true
    }

    open spec fn from_spec(e: RespError) -> Self {
        CommandError::RespError(e)
    }
}

impl TryFrom<RespArray> for Command {
    type Error = CommandError;

    fn try_from(v: RespArray) -> (r: Result<Self, Self::Error>)
        ensures
            match parse_request(view_frames(v.0@)) {
                Ok(q) => r matches Ok(c) && c@ == q,
                Err(f) => r matches Err(e) && reports(e, f),
            },
    {
        Command::from_array(v)
    }
}

impl TryFromSpecImpl<RespArray> for Command {
    open spec fn obeys_try_from_spec() -> bool {
        false
    }

    closed spec fn try_from_spec(v: RespArray) -> Result<Self, Self::Error> {
        arbitrary()
    }
}

impl TryFrom<RespFrame> for Command {
    type Error = CommandError;

    fn try_from(f: RespFrame) -> (r: Result<Self, Self::Error>)
        ensures
            match parse_frame_request(f@) {
                Ok(q) => r matches Ok(c) && c@ == q,
                Err(x) => r matches Err(e) && reports(e, x),
            },
    {
        Command::from_frame(f)
    }
}

impl TryFromSpecImpl<RespFrame> for Command {
    open spec fn obeys_try_from_spec() -> bool {
        false
    }

    closed spec fn try_from_spec(f: RespFrame) -> Result<Self, Self::Error> {
        arbitrary()
    }
}

impl TryFrom<RespArray> for Get {
    type Error = CommandError;

    fn try_from(v: RespArray) -> (r: Result<Self, Self::Error>)
        ensures
            match parse_request(view_frames(v.0@)) {
                Ok(Request::Get { key }) => r matches Ok(c) && c.key@ == key,
                Ok(_) => r matches Err(CommandError::InvalidCommand(_)),
                Err(f) => r matches Err(e) && reports(e, f),
            },
    {
        match Command::from_array(v) {
            Ok(Command::Get(c)) => Ok(c),
            Ok(_) => Err(CommandError::InvalidCommand(String::from_str("Invalid command: another command"))),
            Err(e) => Err(e),
        }
    }
}

impl TryFromSpecImpl<RespArray> for Get {
    open spec fn obeys_try_from_spec() -> bool {
        false
    }

    closed spec fn try_from_spec(v: RespArray) -> Result<Self, Self::Error> {
        arbitrary()
    }
}

impl TryFrom<RespArray> for SetValue {
    type Error = CommandError;

    fn try_from(v: RespArray) -> (r: Result<Self, Self::Error>)
        ensures
            match parse_request(view_frames(v.0@)) {
                Ok(Request::SetValue { key, value }) => r matches Ok(c) && c.key@ == key && c.value@ == value,
                Ok(_) => r matches Err(CommandError::InvalidCommand(_)),
                Err(f) => r matches Err(e) && reports(e, f),
            },
    {
        match Command::from_array(v) {
            Ok(Command::SetValue(c)) => Ok(c),
            Ok(_) => Err(CommandError::InvalidCommand(String::from_str("Invalid command: another command"))),
            Err(e) => Err(e),
        }
    }
}

impl TryFromSpecImpl<RespArray> for SetValue {
    open spec fn obeys_try_from_spec() -> bool {
        false
    }

    closed spec fn try_from_spec(v: RespArray) -> Result<Self, Self::Error> {
        arbitrary()
    }
}

impl TryFrom<RespArray> for HGet {
    type Error = CommandError;

    fn try_from(v: RespArray) -> (r: Result<Self, Self::Error>)
        ensures
            match parse_request(view_frames(v.0@)) {
                Ok(Request::HGet { key, field }) => r matches Ok(c) && c.key@ == key && c.field@ == field,
                Ok(_) => r matches Err(CommandError::InvalidCommand(_)),
                Err(f) => r matches Err(e) && reports(e, f),
            },
    {
        match Command::from_array(v) {
            Ok(Command::HGet(c)) => Ok(c),
            Ok(_) => Err(CommandError::InvalidCommand(String::from_str("Invalid command: another command"))),
            Err(e) => Err(e),
        }
    }
}

impl TryFromSpecImpl<RespArray> for HGet {
    open spec fn obeys_try_from_spec() -> bool {
        false
    }

    closed spec fn try_from_spec(v: RespArray) -> Result<Self, Self::Error> {
        arbitrary()
    }
}

impl TryFrom<RespArray> for HSet {
    type Error = CommandError;

    fn try_from(v: RespArray) -> (r: Result<Self, Self::Error>)
        ensures
            match parse_request(view_frames(v.0@)) {
                Ok(Request::HSet { key, field, value }) => r matches Ok(c) && c.key@ == key && c.field@ == field && c.value@ == value,
                Ok(_) => r matches Err(CommandError::InvalidCommand(_)),
                Err(f) => r matches Err(e) && reports(e, f),
            },
    {
        match Command::from_array(v) {
            Ok(Command::HSet(c)) => Ok(c),
            Ok(_) => Err(CommandError::InvalidCommand(String::from_str("Invalid command: another command"))),
            Err(e) => Err(e),
        }
    }
}

impl TryFromSpecImpl<RespArray> for HSet {
    open spec fn obeys_try_from_spec() -> bool {
        false
    }

    closed spec fn try_from_spec(v: RespArray) -> Result<Self, Self::Error> {
        arbitrary()
    }
}

impl TryFrom<RespArray> for HGetAll {
    type Error = CommandError;

    fn try_from(v: RespArray) -> (r: Result<Self, Self::Error>)
        ensures
            match parse_request(view_frames(v.0@)) {
                Ok(Request::HGetAll { key, sort }) => r matches Ok(c) && c.key@ == key && c.sort == sort,
                Ok(_) => r matches Err(CommandError::InvalidCommand(_)),
                Err(f) => r matches Err(e) && reports(e, f),
            },
    {
        match Command::from_array(v) {
            Ok(Command::HGetAll(c)) => Ok(c),
            Ok(_) => Err(CommandError::InvalidCommand(String::from_str("Invalid command: another command"))),
            Err(e) => Err(e),
        }
    }
}

impl TryFromSpecImpl<RespArray> for HGetAll {
    open spec fn obeys_try_from_spec() -> bool {
        false
    }

    closed spec fn try_from_spec(v: RespArray) -> Result<Self, Self::Error> {
        arbitrary()
    }
}

} // verus!
