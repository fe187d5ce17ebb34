//! JSON values as the proxy reads them in requests and responses.
use vstd::prelude::*;

use crate::error::{InvalidType, Position, Unexpected};

verus! {

/// A JSON number as the JSON parser keeps it: a non-negative integer, a
/// negative integer, or any other number, held as its decimal text.
#[derive(Debug)]
pub enum JsonNumber {
    PosInt(u64),
    NegInt(i64),
    Float(String),
}

/// A JSON value. An object keeps its members in the order of the text,
/// including any key that occurs twice.
#[derive(Debug)]
pub enum JsonValue {
    Null,
    Bool(bool),
    Number(JsonNumber),
    String(String),
    Array(Vec<JsonValue>),
    Object(Vec<(String, JsonValue)>),
}

impl JsonValue {
    /// The kind of the value.
    pub open spec fn spec_kind(self) -> InvalidType {
        match self {
            JsonValue::Null => InvalidType::Null,
            JsonValue::Bool(_) => InvalidType::Bool,
            JsonValue::Number(_) => InvalidType::Number,
            JsonValue::String(_) => InvalidType::String,
            JsonValue::Array(_) => InvalidType::Array,
            JsonValue::Object(_) => InvalidType::Object,
        }
    }

    pub fn kind(&self) -> (res: InvalidType)
        ensures
            res == self.spec_kind(),
    {
        match self {
            JsonValue::Null => InvalidType::Null,
            JsonValue::Bool(_) => InvalidType::Bool,
            JsonValue::Number(_) => InvalidType::Number,
            JsonValue::String(_) => InvalidType::String,
            JsonValue::Array(_) => InvalidType::Array,
            JsonValue::Object(_) => InvalidType::Object,
        }
    }

    /// The value as a message about a value of the wrong type names it.
    pub open spec fn spec_unexpected(self) -> Unexpected {
        match self {
            JsonValue::Null => Unexpected::Null,
            JsonValue::Bool(b) => Unexpected::Bool(b),
            JsonValue::Number(JsonNumber::PosInt(u)) => Unexpected::Unsigned(u),
            JsonValue::Number(JsonNumber::NegInt(i)) => Unexpected::Signed(i),
            JsonValue::Number(JsonNumber::Float(t)) => Unexpected::Float(t),
            JsonValue::String(s) => Unexpected::Str(s),
            JsonValue::Array(_) => Unexpected::Array,
            JsonValue::Object(_) => Unexpected::Object,
        }
    }

    pub fn unexpected(&self) -> (res: Unexpected)
        ensures
            res == self.spec_unexpected(),
    {
        match self {
            JsonValue::Null => Unexpected::Null,
            JsonValue::Bool(b) => Unexpected::Bool(*b),
            JsonValue::Number(JsonNumber::PosInt(u)) => Unexpected::Unsigned(*u),
            JsonValue::Number(JsonNumber::NegInt(i)) => Unexpected::Signed(*i),
            JsonValue::Number(JsonNumber::Float(t)) => Unexpected::Float(t.clone()),
            JsonValue::String(s) => Unexpected::Str(s.clone()),
            JsonValue::Array(_) => Unexpected::Array,
            JsonValue::Object(_) => Unexpected::Object,
        }
    }

    /// The value as an unsigned integer: only a non-negative integer number
    /// has one.
    pub open spec fn spec_as_u64(self) -> Option<u64> {
        match self {
            JsonValue::Number(JsonNumber::PosInt(n)) => Some(n),
            _ => None,
        }
    }

    pub fn as_u64(&self) -> (res: Option<u64>)
        ensures
            res == self.spec_as_u64(),
    {
        match self {
            JsonValue::Number(JsonNumber::PosInt(n)) => Some(*n),
            _ => None,
        }
    }
}

/// Where a JSON value stands in the text it was read from: its first
/// byte, the byte after its last, and where the values it holds stand (the
/// items of an array, the member values of an object, in order). For the
/// members of an object, `borrowed` says whether each name was written
/// without escapes, so that the reader could take it as it stands.
#[derive(Debug)]
pub struct Span {
    pub start: usize,
    pub end: usize,
    pub parts: Vec<Span>,
    pub borrowed: Vec<bool>,
}

/// The span of the `i`-th value held, or the whole span where there is no
/// such part.
pub open spec fn part(span: Span, i: int) -> Span {
    if 0 <= i < span.parts.len() {
        span.parts[i]
    } else {
        span
    }
}

/// Whether the `i`-th member name was written without escapes; a name
/// whose span is not given counts as one.
pub open spec fn borrowed_key(span: Span, i: int) -> bool {
    if 0 <= i < span.borrowed.len() {
        span.borrowed[i]
    } else {
        true
    }
}

pub fn part_of(span: &Span, i: usize) -> (res: &Span)
    ensures
        *res == part(*span, i as int),
{
    if i < span.parts.len() {
        &span.parts[i]
    } else {
        span
    }
}

pub fn borrowed_key_of(span: &Span, i: usize) -> (res: bool)
    ensures
        res == borrowed_key(*span, i as int),
{
    if i < span.borrowed.len() {
        span.borrowed[i]
    } else {
        true
    }
}

/// The number of line feeds among the first `i` bytes.
pub open spec fn newlines_before(body: Seq<u8>, i: int) -> nat
    decreases i,
{
    if i <= 0 {
        0
    } else {
        newlines_before(body, i - 1) + (if body[i - 1] == 10u8 {
            1nat
        } else {
            0nat
        })
    }
}

/// Where the line that holds byte `i` starts.
pub open spec fn line_start(body: Seq<u8>, i: int) -> int
    decreases i,
{
    if i <= 0 {
        0
    } else if body[i - 1] == 10u8 {
        i
    } else {
        line_start(body, i - 1)
    }
}

/// The line and column of byte `offset`, taken no further than the end of
/// the body: the line counts the line feeds before it from 1, the column
/// counts the bytes between the start of its line and it.
pub open spec fn position_at(body: Seq<u8>, offset: int) -> Position {
    let i = if offset < 0 {
        0
    } else if offset > body.len() {
        body.len() as int
    } else {
        offset
    };
    Position {
        line: if newlines_before(body, i) < usize::MAX {
            (newlines_before(body, i) + 1) as usize
        } else {
            usize::MAX
        },
        column: (i - line_start(body, i)) as usize,
    }
}

pub fn position_of(body: &[u8], offset: usize) -> (res: Position)
    ensures
        res == position_at(body@, offset as int),
{
    let n = if offset <= body.len() {
        offset
    } else {
        body.len()
    };
    let mut count: usize = 0;
    let mut start: usize = 0;
    let mut k: usize = 0;
    while k < n
        invariant
            n <= body@.len(),
            k <= n,
            count <= k,
            start <= k,
            count == newlines_before(body@, k as int),
            start == line_start(body@, k as int),
        decreases n - k,
    {
        if body[k] == 10 {
            count = count + 1;
            start = k + 1;
        }
        k = k + 1;
    }
    Position { line: count.saturating_add(1), column: n - start }
}

/// A byte that JSON reads as white space.
pub open spec fn is_json_space(b: u8) -> bool {
    b == 32u8 || b == 10u8 || b == 9u8 || b == 13u8
}

/// Going back from byte `i` over white space.
pub open spec fn skip_space_back(body: Seq<u8>, i: int) -> int
    decreases i,
{
    if i <= 0 || i > body.len() {
        i
    } else if is_json_space(body[i - 1]) {
        skip_space_back(body, i - 1)
    } else {
        i
    }
}

/// The byte of the colon that stands, past white space, before a member
/// value starting at `start`: where the reader stands once it has read the
/// member's name and the white space after it.
pub open spec fn colon_before(body: Seq<u8>, start: int) -> int {
    let s = if start <= body.len() {
        start
    } else {
        body.len() as int
    };
    let k = skip_space_back(body, s);
    if k > 0 {
        k - 1
    } else {
        0
    }
}

pub fn colon_offset(body: &[u8], start: usize) -> (res: usize)
    ensures
        res == colon_before(body@, start as int),
{
    let mut k = if start <= body.len() {
        start
    } else {
        body.len()
    };
    let ghost s = k as int;
    while k > 0 && (body[k - 1] == 32 || body[k - 1] == 10 || body[k - 1] == 9 || body[k - 1] == 13)
        invariant
            k <= body@.len(),
            0 <= s <= body@.len(),
            skip_space_back(body@, s) == skip_space_back(body@, k as int),
        decreases k,
    {
        k = k - 1;
    }
    if k > 0 {
        k - 1
    } else {
        0
    }
}

} // verus!
