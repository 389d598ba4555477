use vstd::prelude::*;
use vstd::slice::slice_to_vec;
use vstd::string::StringExecFns;
use vstd::utf8::{decode_utf8, encode_utf8, valid_utf8};

use crate::backend::{lists_entries, Backend, StoreView};
use crate::decode::{string_from_utf8, RespError};
use crate::frame::{
    clone_frame, keys_ascending, lemma_map_insert_fresh, map_insert, view_entries, view_frames,
    BulkString, Frame, RespArray, RespFrame, RespMap, RespNull, SimpleString,
};
use crate::order::lemma_text_less_asymmetric;

verus! {

/// Why an array is not a command.
#[derive(Debug, PartialEq, Eq)]
pub enum CommandError {
    /// The array names no command: the message says which name, or that there is none.
    InvalidCommand(String),
    /// The command has the wrong number of arguments, or a key or field that is not a bulk
    /// string.
    InvalidArgument(String),
    /// The frame could not be read.
    RespError(RespError),
    /// A key or field is not UTF-8.
    Utf8Error,
}

/// `GET key`.
#[derive(Debug)]
pub struct Get {
    pub key: String,
}

/// `SET key value`.
#[derive(Debug)]
pub struct SetValue {
    pub key: String,
    pub value: RespFrame,
}

/// `HGET key field`.
#[derive(Debug)]
pub struct HGet {
    pub key: String,
    pub field: String,
}

/// `HSET key field value`.
#[derive(Debug)]
pub struct HSet {
    pub key: String,
    pub field: String,
    pub value: RespFrame,
}

/// `HGETALL key`; with `sort`, the fields come in ascending order.
#[derive(Debug)]
pub struct HGetAll {
    pub key: String,
    pub sort: bool,
}

/// A command, ready to run against the store.
#[derive(Debug)]
pub enum Command {
    Get(Get),
    SetValue(SetValue),
    HGet(HGet),
    HSet(HSet),
    HGetAll(HGetAll),
}

/// What a command asks for.
pub enum Request {
    Get { key: Seq<char> },
    SetValue { key: Seq<char>, value: Frame },
    HGet { key: Seq<char>, field: Seq<char> },
    HSet { key: Seq<char>, field: Seq<char>, value: Frame },
    HGetAll { key: Seq<char>, sort: bool },
}

impl View for Command {
    type V = Request;

    open spec fn view(&self) -> Request {
        match self {
            Command::Get(c) => Request::Get { key: c.key@ },
            Command::SetValue(c) => Request::SetValue { key: c.key@, value: c.value@ },
            Command::HGet(c) => Request::HGet { key: c.key@, field: c.field@ },
            Command::HSet(c) => Request::HSet { key: c.key@, field: c.field@, value: c.value@ },
            Command::HGetAll(c) => Request::HGetAll { key: c.key@, sort: c.sort },
        }
    }
}

/// Why an array is not a command, in mathematical terms.
pub enum Fault {
    /// Empty, or not led by a bulk string.
    NotNamed,
    /// Led by a name that is no command.
    Unknown(Seq<u8>),
    /// The wrong number of elements for the command.
    Arity,
    /// A key or field that is not a bulk string.
    Argument,
    /// A key or field that is not UTF-8.
    Utf8,
}

/// The characters that `String::from_utf8_lossy` makes of some bytes.
pub uninterp spec fn lossy_utf8(b: Seq<u8>) -> Seq<char>;

/// Relies on `String::from_utf8_lossy`: UTF-8 bytes give their characters, other bytes
/// give replacement characters.
#[verifier::external_body]
fn lossy_text(b: &[u8]) -> (r: String)
    ensures
        r@ == lossy_utf8(b@),
        valid_utf8(b@) ==> r@ == decode_utf8(b@),
{
    String::from_utf8_lossy(b).into_owned()
}

pub open spec fn lower_byte(b: u8) -> u8 {
    if 65 <= b <= 90 {
        (b + 32) as u8
    } else {
        b
    }
}

/// The bytes with ASCII capitals made small.
pub open spec fn ascii_lower(s: Seq<u8>) -> Seq<u8> {
    s.map_values(|b: u8| lower_byte(b))
}

/// The lowercase names of the commands, with how many elements their arrays hold.
pub open spec fn command_arity(word: Seq<u8>) -> Option<nat> {
    if word == seq![103u8, 101, 116] {
        Some(2)
    } else if word == seq![115u8, 101, 116] {
        Some(3)
    } else if word == seq![104u8, 103, 101, 116] {
        Some(3)
    } else if word == seq![104u8, 115, 101, 116] {
        Some(4)
    } else if word == seq![104u8, 103, 101, 116, 97, 108, 108] {
        Some(2)
    } else {
        None
    }
}

/// The text of a key or field argument.
pub open spec fn text_arg(f: Frame) -> Result<Seq<char>, Fault> {
    match f {
        Frame::BulkString(b) => if valid_utf8(b) {
            Ok(decode_utf8(b))
        } else {
            Err(Fault::Utf8)
        },
        _ => Err(Fault::Argument),
    }
}

/// The command that an array of frames spells: a case-insensitive name, then exactly its
/// arguments.
pub open spec fn parse_request(xs: Seq<Frame>) -> Result<Request, Fault> {
    if xs.len() == 0 || !(xs[0] is BulkString) {
        Err(Fault::NotNamed)
    } else {
        let name = xs[0]->BulkString_0;
        let word = ascii_lower(name);
        match command_arity(word) {
            None => Err(Fault::Unknown(name)),
            Some(n) => if xs.len() != n {
                Err(Fault::Arity)
            } else if word == seq![103u8, 101, 116] || word == seq![104u8, 103, 101, 116, 97, 108, 108] {
                match text_arg(xs[1]) {
                    Err(f) => Err(f),
                    Ok(key) => if word.len() == 3 {
                        Ok(Request::Get { key })
                    } else {
                        Ok(Request::HGetAll { key, sort: false })
                    },
                }
            } else if word == seq![115u8, 101, 116] {
                match text_arg(xs[1]) {
                    Err(f) => Err(f),
                    Ok(key) => Ok(Request::SetValue { key, value: xs[2] }),
                }
            } else if !(xs[1] is BulkString && xs[2] is BulkString) {
                Err(Fault::Argument)
            } else {
                match (text_arg(xs[1]), text_arg(xs[2])) {
                    (Err(f), _) => Err(f),
                    (Ok(_), Err(f)) => Err(f),
                    (Ok(key), Ok(field)) => if word == seq![104u8, 103, 101, 116] {
                        Ok(Request::HGet { key, field })
                    } else {
                        Ok(Request::HSet { key, field, value: xs[3] })
                    },
                }
            },
        }
    }
}

/// The command that a frame spells: it must be an array.
pub open spec fn parse_frame_request(f: Frame) -> Result<Request, Fault> {
    match f {
        Frame::Array(xs) => parse_request(xs),
        _ => Err(Fault::NotNamed),
    }
}

/// The error that the library reports for a fault.
pub open spec fn reports(e: CommandError, f: Fault) -> bool {
    match f {
        Fault::NotNamed => e is InvalidCommand,
        Fault::Unknown(name) => e matches CommandError::InvalidCommand(m) && m@ == "Invalid command: "@
            + lossy_utf8(name) && (valid_utf8(name) ==> m@ == "Invalid command: "@ + decode_utf8(name)),
        Fault::Arity => e is InvalidArgument,
        Fault::Argument => e is InvalidArgument,
        Fault::Utf8 => e is Utf8Error,
    }
}

pub open spec fn ok_frame() -> Frame {
    Frame::SimpleString("OK"@)
}

/// The fields and values of `ps`, one after another, each field as a bulk string.
pub open spec fn flat_pairs(ps: Seq<(Seq<char>, Frame)>) -> Seq<Frame> {
    Seq::new(
        2 * ps.len(),
        |i: int| if i % 2 == 0 { Frame::BulkString(encode_utf8(ps[i / 2].0)) } else { ps[i / 2].1 },
    )
}

/// What `HGETALL` answers: every field of the hash with its value, in ascending field
/// order when `sort` holds; an empty array when there is no hash.
pub open spec fn hgetall_answer(hashes: Map<Seq<char>, Map<Seq<char>, Frame>>, key: Seq<char>, sort: bool, r: Frame) -> bool {
    if hashes.contains_key(key) {
        exists|ps: Seq<(Seq<char>, Frame)>| #[trigger] lists_entries(ps, hashes[key]) && (sort ==> keys_ascending(ps))
            && r == Frame::Array(flat_pairs(ps))
    } else {
        r == Frame::Array(Seq::empty())
    }
}

/// Running `q` on a store that holds `before` leaves `after` and answers `r`.
pub open spec fn executes(q: Request, before: StoreView, after: StoreView, r: Frame) -> bool {
    match q {
        Request::Get { key } => after == before && r == if before.values.contains_key(key) {
            before.values[key]
        } else {
            Frame::Null
        },
        Request::SetValue { key, value } => after == (StoreView {
            values: before.values.insert(key, value),
            hashes: before.hashes,
        }) && r == ok_frame(),
        Request::HGet { key, field } => after == before && r == if before.hashes.contains_key(key)
            && before.hashes[key].contains_key(field) {
            before.hashes[key][field]
        } else {
            Frame::Null
        },
        Request::HSet { key, field, value } => after == (StoreView {
            values: before.values,
            hashes: before.hashes.insert(
                key,
                (if before.hashes.contains_key(key) {
                    before.hashes[key]
                } else {
                    Map::empty()
                }).insert(field, value),
            ),
        }) && r == ok_frame(),
        Request::HGetAll { key, sort } => after == before && hgetall_answer(before.hashes, key, sort, r),
    }
}

} // verus!

verus! {

fn lower(b: u8) -> (r: u8)
    ensures
        r == lower_byte(b),
{
    if 65 <= b && b <= 90 {
        b + 32
    } else {
        b
    }
}

/// Whether `name`, with ASCII capitals made small, is `word`.
fn name_is(name: &[u8], word: &[u8]) -> (r: bool)
    ensures
        r == (ascii_lower(name@) == word@),
{
    if name.len() != word.len() {
        assert(ascii_lower(name@).len() != word@.len());
        return false;
    }
    let mut i: usize = 0;
    while i < name.len()
        invariant
            i <= name@.len(),
            name@.len() == word@.len(),
            forall|m: int| 0 <= m < i ==> lower_byte(name@[m]) == word@[m],
        decreases name.len() - i,
    {
        if lower(name[i]) != word[i] {
            assert(ascii_lower(name@)[i as int] != word@[i as int]);
            return false;
        }
        i += 1;
    }
    assert(ascii_lower(name@) =~= word@);
    true
}

fn text_of(b: BulkString) -> (r: Result<String, CommandError>)
    ensures
        match text_arg(Frame::BulkString(b.0@)) {
            Ok(t) => r matches Ok(s) && s@ == t,
            Err(f) => r matches Err(e) && reports(e, f),
        },
{
    match string_from_utf8(b.0) {
        Some(s) => Ok(s),
        None => Err(CommandError::Utf8Error),
    }
}

fn invalid_argument(text: &str) -> (r: CommandError)
    ensures
        r is InvalidArgument,
{
    CommandError::InvalidArgument(String::from_str(text))
}

fn ok_reply() -> (r: RespFrame)
    ensures
        r@ == ok_frame(),
{
    RespFrame::SimpleString(SimpleString(String::from_str("OK")))
}

impl Command {
    /// The command that the array spells: a case-insensitive name, then exactly its arguments.
    pub fn from_array(v: RespArray) -> (r: Result<Command, CommandError>)
        ensures
            match parse_request(view_frames(v.0@)) {
                Ok(q) => r matches Ok(c) && c@ == q,
                Err(f) => r matches Err(e) && reports(e, f),
            },
    {
        let ghost xs = view_frames(v.0@);
        let mut items = v.0;
        if items.len() == 0 {
            return Err(CommandError::InvalidCommand(String::from_str("Invalid command: the array is empty")));
        }
        let kind: u8 = match &items[0] {
            RespFrame::BulkString(name) => {
                let name = name.0.as_slice();
                if name_is(name, &[103u8, 101, 116]) {
                    1
                } else if name_is(name, &[115u8, 101, 116]) {
                    2
                } else if name_is(name, &[104u8, 103, 101, 116]) {
                    3
                } else if name_is(name, &[104u8, 115, 101, 116]) {
                    4
                } else if name_is(name, &[104u8, 103, 101, 116, 97, 108, 108]) {
                    5
                } else {
                    let mut message = String::from_str("Invalid command: ");
                    let text = lossy_text(name);
                    message.append(text.as_str());
                    return Err(CommandError::InvalidCommand(message));
                }
            },
            _ => {
                return Err(CommandError::InvalidCommand(String::from_str("Invalid command: it must start with a bulk string")));
            },
        };
        let arity: usize = if kind == 1 || kind == 5 { 2 } else if kind == 4 { 4 } else { 3 };
        if items.len() != arity {
            return Err(invalid_argument("wrong number of arguments"));
        }
        assert(items@.len() == xs.len());
        if kind == 1 || kind == 5 {
            let key = match items.pop() {
                Some(RespFrame::BulkString(b)) => text_of(b)?,
                _ => return Err(invalid_argument("the key must be a bulk string")),
            };
            if kind == 1 {
                Ok(Command::Get(Get { key }))
            } else {
                Ok(Command::HGetAll(HGetAll { key, sort: false }))
            }
        } else if kind == 2 {
            let value = items.pop().unwrap();
            let key = match items.pop() {
                Some(RespFrame::BulkString(b)) => text_of(b)?,
                _ => return Err(invalid_argument("the key must be a bulk string")),
            };
            Ok(Command::SetValue(SetValue { key, value }))
        } else {
            let value = if kind == 4 { items.pop() } else { None };
            let field = items.pop();
            let key = items.pop();
            match (key, field) {
                (Some(RespFrame::BulkString(k)), Some(RespFrame::BulkString(f))) => {
                    let key = text_of(k)?;
                    let field = text_of(f)?;
                    match value {
                        Some(value) => Ok(Command::HSet(HSet { key, field, value })),
                        None => Ok(Command::HGet(HGet { key, field })),
                    }
                },
                _ => Err(invalid_argument("the key and the field must be bulk strings")),
            }
        }
    }

    /// The command that the frame spells; only an array spells one.
    pub fn from_frame(f: RespFrame) -> (r: Result<Command, CommandError>)
        ensures
            match parse_frame_request(f@) {
                Ok(q) => r matches Ok(c) && c@ == q,
                Err(x) => r matches Err(e) && reports(e, x),
            },
    {
        match f {
            RespFrame::Array(a) => Command::from_array(a),
            _ => Err(CommandError::InvalidCommand(String::from_str("Invalid command: it must be an array"))),
        }
    }
}

} // verus!

verus! {

/// The entries in ascending key order; `es` must not repeat a key.
fn sorted_entries(es: &Vec<(String, RespFrame)>) -> (r: Vec<(String, RespFrame)>)
    requires
        forall|i: int, j: int| 0 <= i < j < es@.len() ==> (#[trigger] view_entries(es@)[i]).0 != (#[trigger] view_entries(es@)[j]).0,
    ensures
        keys_ascending(view_entries(r@)),
        forall|p: (Seq<char>, Frame)| #[trigger] view_entries(r@).contains(p) <==> view_entries(es@).contains(p),
{
    let ghost ves = view_entries(es@);
    let mut m = RespMap::new();
    let mut i: usize = 0;
    assert(m.entries_view() =~= Seq::<(Seq<char>, Frame)>::empty());
    while i < es.len()
        invariant
            i <= es@.len(),
            ves == view_entries(es@),
            forall|a: int, b: int| 0 <= a < b < es@.len() ==> (#[trigger] ves[a]).0 != (#[trigger] ves[b]).0,
            keys_ascending(m.entries_view()),
            forall|p: (Seq<char>, Frame)| #[trigger] m.entries_view().contains(p) <==> ves.subrange(0, i as int).contains(p),
        decreases es.len() - i,
    {
        let entry = &es[i];
        let key = entry.0.clone();
        let value = clone_frame(&entry.1);
        let ghost cur = m.entries_view();
        assert(forall|p: (Seq<char>, Frame)| #[trigger] cur.contains(p) <==> ves.subrange(0, i as int).contains(p));
        proof {
            assert forall|q: int| 0 <= q < cur.len() implies (#[trigger] cur[q]).0 != key@ by {
                assert(cur.contains(cur[q]));
                let w = choose|w: int| 0 <= w < i && ves.subrange(0, i as int)[w] == cur[q];
                assert(ves[w] == cur[q]);
                assert(ves[w].0 != ves[i as int].0);
            }
            lemma_map_insert_fresh(cur, key@, value@);
        }
        m.insert(key, value);
        proof {
            assert(ves[i as int] == (key@, value@));
            assert(m.entries_view() == map_insert(cur, key@, value@));
            assert forall|p: (Seq<char>, Frame)| #[trigger] m.entries_view().contains(p) <==> ves.subrange(0, i + 1).contains(p) by {
                let before = ves.subrange(0, i as int);
                let after = ves.subrange(0, i + 1);
                assert(after =~= before.push(ves[i as int]));
                assert(map_insert(cur, key@, value@).contains(p) == (cur.contains(p) || p == (key@, value@)));
                assert(cur.contains(p) == before.contains(p));
                if p == (key@, value@) {
                    assert(after[i as int] == p);
                }
                if before.contains(p) {
                    let w = choose|w: int| 0 <= w < before.len() && before[w] == p;
                    assert(after[w] == p);
                }
                if after.contains(p) {
                    let w = choose|w: int| 0 <= w < after.len() && after[w] == p;
                    if w < i {
                        assert(before[w] == p);
                    }
                }
            }
        }
        i += 1;
    }
    assert(ves.subrange(0, i as int) =~= ves);
    m.into_entries()
}

proof fn lemma_sorted_lists(es: Seq<(Seq<char>, Frame)>, rs: Seq<(Seq<char>, Frame)>, h: Map<Seq<char>, Frame>)
    requires
        lists_entries(es, h),
        keys_ascending(rs),
        forall|p: (Seq<char>, Frame)| #[trigger] rs.contains(p) <==> es.contains(p),
    ensures
        lists_entries(rs, h),
{
    assert forall|i: int| 0 <= i < rs.len() implies h.contains_key((#[trigger] rs[i]).0) && h[rs[i].0] == rs[i].1 by {
        assert(rs.contains(rs[i]));
        let w = choose|w: int| 0 <= w < es.len() && es[w] == rs[i];
        assert(h.contains_key(es[w].0));
    }
    assert forall|i: int, j: int| 0 <= i < j < rs.len() implies (#[trigger] rs[i]).0 != (#[trigger] rs[j]).0 by {
        lemma_text_less_asymmetric(rs[i].0, rs[j].0);
    }
    assert forall|k: Seq<char>| #[trigger] h.contains_key(k) implies exists|i: int| 0 <= i < rs.len() && (#[trigger] rs[i]).0 == k by {
        let w = choose|w: int| 0 <= w < es.len() && (#[trigger] es[w]).0 == k;
        assert(es.contains(es[w]));
        assert(rs.contains(es[w]));
        let q = choose|q: int| 0 <= q < rs.len() && rs[q] == es[w];
        assert(rs[q].0 == k);
    }
}

/// Each field as a bulk string, then its value.
fn flatten(es: &Vec<(String, RespFrame)>) -> (r: Vec<RespFrame>)
    ensures
        view_frames(r@) == flat_pairs(view_entries(es@)),
{
    let ghost ves = view_entries(es@);
    let mut out: Vec<RespFrame> = Vec::new();
    let mut i: usize = 0;
    while i < es.len()
        invariant
            i <= es@.len(),
            ves == view_entries(es@),
            out@.len() == 2 * i,
            forall|m: int| 0 <= m < 2 * i ==> (#[trigger] out@[m])@ == flat_pairs(ves)[m],
        decreases es.len() - i,
    {
        let entry = &es[i];
        out.push(RespFrame::BulkString(BulkString(slice_to_vec(entry.0.as_str().as_bytes()))));
        out.push(clone_frame(&entry.1));
        proof {
            assert(flat_pairs(ves)[2 * i] == Frame::BulkString(encode_utf8(ves[i as int].0)));
            assert(flat_pairs(ves)[2 * i + 1] == ves[i as int].1);
        }
        i += 1;
    }
    assert(view_frames(out@) =~= flat_pairs(ves));
    out
}

/// A command that runs against the store.
pub trait CommandExecutor: Sized {
    /// What the command asks for.
    spec fn request(&self) -> Request;

    /// Runs the command and gives its answer.
    fn execute(self, backend: &mut Backend) -> (r: RespFrame)
        ensures
            executes(self.request(), old(backend)@, final(backend)@, r@),
    ;
}

impl CommandExecutor for Get {
    open spec fn request(&self) -> Request {
        Request::Get { key: self.key@ }
    }

    fn execute(self, backend: &mut Backend) -> (r: RespFrame) {
        match backend.get(self.key.as_str()) {
            Some(value) => value,
            None => RespFrame::Null(RespNull),
        }
    }
}

impl CommandExecutor for SetValue {
    open spec fn request(&self) -> Request {
        Request::SetValue { key: self.key@, value: self.value@ }
    }

    fn execute(self, backend: &mut Backend) -> (r: RespFrame) {
        backend.set(self.key, self.value);
        ok_reply()
    }
}

impl CommandExecutor for HGet {
    open spec fn request(&self) -> Request {
        Request::HGet { key: self.key@, field: self.field@ }
    }

    fn execute(self, backend: &mut Backend) -> (r: RespFrame) {
        match backend.hget(self.key.as_str(), self.field.as_str()) {
            Some(value) => value,
            None => RespFrame::Null(RespNull),
        }
    }
}

impl CommandExecutor for HSet {
    open spec fn request(&self) -> Request {
        Request::HSet { key: self.key@, field: self.field@, value: self.value@ }
    }

    fn execute(self, backend: &mut Backend) -> (r: RespFrame) {
        backend.hset(self.key, self.field, self.value);
        ok_reply()
    }
}

impl CommandExecutor for HGetAll {
    open spec fn request(&self) -> Request {
        Request::HGetAll { key: self.key@, sort: self.sort }
    }

    fn execute(self, backend: &mut Backend) -> (r: RespFrame) {
        match backend.hgetall(self.key.as_str()) {
            None => {
                let items: Vec<RespFrame> = Vec::new();
                assert(view_frames(items@) =~= Seq::<Frame>::empty());
                RespFrame::Array(RespArray(items))
            },
            Some(entries) => {
                let ghost h = backend@.hashes[self.key@];
                let listed = if self.sort {
                    let sorted = sorted_entries(&entries);
                    proof {
                        lemma_sorted_lists(view_entries(entries@), view_entries(sorted@), h);
                    }
                    sorted
                } else {
                    entries
                };
                let items = flatten(&listed);
                let r = RespFrame::Array(RespArray(items));
                assert(lists_entries(view_entries(listed@), h) && (self.sort ==> keys_ascending(view_entries(listed@)))
                    && r@ == Frame::Array(flat_pairs(view_entries(listed@))));
                r
            },
        }
    }
}

impl CommandExecutor for Command {
    open spec fn request(&self) -> Request {
        self@
    }

    fn execute(self, backend: &mut Backend) -> (r: RespFrame) {
        match self {
            Command::Get(c) => c.execute(backend),
            Command::SetValue(c) => c.execute(backend),
            Command::HGet(c) => c.execute(backend),
            Command::HSet(c) => c.execute(backend),
            Command::HGetAll(c) => c.execute(backend),
        }
    }
}

} // verus!

verus! {

impl CommandError {
    /// The text that tells a client about this error.
    pub fn message(&self) -> (r: String)
        ensures
            self matches CommandError::InvalidCommand(m) ==> r@ == m@,
            self matches CommandError::InvalidArgument(m) ==> r@ == "Invalid argument: "@ + m@,
            self is RespError ==> r@ == "Invalid frame"@,
            self is Utf8Error ==> r@ == "Utf8 error: the text is not UTF-8"@,
    {
        match self {
            CommandError::InvalidCommand(m) => m.clone(),
            CommandError::InvalidArgument(m) => {
                let mut text = String::from_str("Invalid argument: ");
                text.append(m.as_str());
                text
            },
            CommandError::RespError(_) => String::from_str("Invalid frame"),
            CommandError::Utf8Error => String::from_str("Utf8 error: the text is not UTF-8"),
        }
    }
}

} // verus!
