//! Why a request body is not a JSON-RPC request, and the texts that say so.
use vstd::prelude::*;

verus! {

#[verifier::external_type_specification]
#[verifier::external_body]
pub struct ExJsonError(serde_json::Error);

/// The kind of JSON value found where another kind was expected.
#[derive(Copy, Clone, Debug, PartialEq, Eq, Structural)]
pub enum InvalidType {
    Null,
    Bool,
    Number,
    String,
    Array,
    Object,
}

/// A request body that the proxy cannot read as a JSON-RPC request, in
/// short.
#[derive(Debug)]
pub enum BadRequest {
    /// A request without a `method` field.
    MissingMethod,
    /// A value of the wrong kind.
    InvalidType(InvalidType),
    /// The body is not JSON at all.
    Json(serde_json::Error),
}

impl InvalidType {
    /// The name under which the kind is reported.
    pub open spec fn spec_name(self) -> Seq<char> {
        match self {
            InvalidType::Null => "Null"@,
            InvalidType::Bool => "Bool"@,
            InvalidType::Number => "Number"@,
            InvalidType::String => "String"@,
            InvalidType::Array => "Array"@,
            InvalidType::Object => "Object"@,
        }
    }

    pub fn name(&self) -> (res: &'static str)
        ensures
            res@ == self.spec_name(),
    {
        match self {
            InvalidType::Null => "Null",
            InvalidType::Bool => "Bool",
            InvalidType::Number => "Number",
            InvalidType::String => "String",
            InvalidType::Array => "Array",
            InvalidType::Object => "Object",
        }
    }
}

/// The text of `serde_json::Error`'s `Display`.
#[verifier::external_body]
fn json_error_text(error: &serde_json::Error) -> String {
    format!("{}", error)
}

impl BadRequest {
    /// The message that describes the problem; for `Json`, the parser's
    /// message follows the prefix.
    pub open spec fn spec_message_prefix(&self) -> Seq<char> {
        match self {
            BadRequest::MissingMethod => "missing field: method"@,
            BadRequest::InvalidType(t) => "invalid type: "@ + t.spec_name(),
            BadRequest::Json(_) => "failed to parse Json: "@,
        }
    }

    /// The text that describes the problem.
    pub fn message(&self) -> (res: String)
        ensures
            !(self is Json) ==> res@ == self.spec_message_prefix(),
            self is Json ==> res@.len() >= self.spec_message_prefix().len()
                && res@.subrange(0, self.spec_message_prefix().len() as int) == self.spec_message_prefix(),
    {
        match self {
            BadRequest::MissingMethod => String::from_str("missing field: method"),
            BadRequest::InvalidType(t) => {
                let s = String::from_str("invalid type: ");
                s.concat(t.name())
            },
            BadRequest::Json(e) => {
                let s = String::from_str("failed to parse Json: ");
                let text = json_error_text(e);
                let res = s.concat(text.as_str());
                assert(res@.subrange(0, self.spec_message_prefix().len() as int) =~= self.spec_message_prefix());
                res
            },
        }
    }
}

/// A decimal digit.
pub open spec fn digit_char(d: nat) -> char {
    (d + 48) as char
}

/// The decimal text of a number, without leading zeros.
pub open spec fn decimal(n: nat) -> Seq<char>
    decreases n,
{
    if n < 10 {
        seq![digit_char(n)]
    } else {
        decimal(n / 10).push(digit_char(n % 10))
    }
}

/// The decimal text of an integer, with a minus sign when it is negative.
pub open spec fn signed_decimal(i: int) -> Seq<char> {
    if i < 0 {
        "-"@ + decimal((-i) as nat)
    } else {
        decimal(i as nat)
    }
}

fn digit_text(d: u64) -> (res: &'static str)
    requires
        d < 10,
    ensures
        res@ == seq![digit_char(d as nat)],
{
    proof {
        reveal_strlit("0");
        reveal_strlit("1");
        reveal_strlit("2");
        reveal_strlit("3");
        reveal_strlit("4");
        reveal_strlit("5");
        reveal_strlit("6");
        reveal_strlit("7");
        reveal_strlit("8");
        reveal_strlit("9");
    }
    match d {
        0 => "0",
        1 => "1",
        2 => "2",
        3 => "3",
        4 => "4",
        5 => "5",
        6 => "6",
        7 => "7",
        8 => "8",
        _ => "9",
    }
}

/// The decimal text of a number.
pub fn decimal_text(n: u64) -> (res: String)
    ensures
        res@ == decimal(n as nat),
    decreases n,
{
    if n < 10 {
        String::from_str(digit_text(n))
    } else {
        let high = decimal_text(n / 10);
        let res = high.concat(digit_text(n % 10));
        assert(res@ =~= decimal(n as nat));
        res
    }
}

/// The decimal text of a signed number.
pub fn signed_decimal_text(i: i64) -> (res: String)
    ensures
        res@ == signed_decimal(i as int),
{
    if i < 0 {
        let magnitude: u64 = (0i128 - i as i128) as u64;
        String::from_str("-").concat(decimal_text(magnitude).as_str())
    } else {
        decimal_text(i as u64)
    }
}

/// What Rust's `Debug` formatting writes for a string: the text in double
/// quotes, with the characters that need it escaped.
pub uninterp spec fn str_debug(text: Seq<char>) -> Seq<char>;

/// Calls `Debug::fmt` of `str` through `format!("{:?}")`.
#[verifier::external_body]
fn debug_text(text: &str) -> (res: String)
    ensures
        res@ == str_debug(text@),
{
    format!("{:?}", text)
}

/// A value of the wrong type, as a message names it.
#[derive(Debug)]
pub enum Unexpected {
    Null,
    Bool(bool),
    /// A non-negative integer.
    Unsigned(u64),
    /// A negative integer.
    Signed(i64),
    /// Any other number, by its decimal text.
    Float(String),
    Str(String),
    Array,
    Object,
}

impl Unexpected {
    pub open spec fn spec_text(&self) -> Seq<char> {
        match self {
            Unexpected::Null => "null"@,
            Unexpected::Bool(b) => "boolean `"@ + (if *b { "true"@ } else { "false"@ }) + "`"@,
            Unexpected::Unsigned(u) => "integer `"@ + decimal(*u as nat) + "`"@,
            Unexpected::Signed(i) => "integer `"@ + signed_decimal(*i as int) + "`"@,
            Unexpected::Float(t) => "floating point `"@ + t@ + "`"@,
            Unexpected::Str(s) => "string "@ + str_debug(s@),
            Unexpected::Array => "sequence"@,
            Unexpected::Object => "map"@,
        }
    }

    pub fn text(&self) -> (res: String)
        ensures
            res@ == self.spec_text(),
    {
        match self {
            Unexpected::Null => String::from_str("null"),
            Unexpected::Bool(b) => String::from_str("boolean `").concat(if *b { "true" } else { "false" }).concat("`"),
            Unexpected::Unsigned(u) => String::from_str("integer `").concat(decimal_text(*u).as_str()).concat("`"),
            Unexpected::Signed(i) => String::from_str("integer `").concat(signed_decimal_text(*i).as_str()).concat(
                "`",
            ),
            Unexpected::Float(t) => String::from_str("floating point `").concat(t.as_str()).concat("`"),
            Unexpected::Str(s) => String::from_str("string ").concat(debug_text(s.as_str()).as_str()),
            Unexpected::Array => String::from_str("sequence"),
            Unexpected::Object => String::from_str("map"),
        }
    }
}

/// What the reader expected where it found a value of the wrong type.
#[derive(Copy, Clone, Debug, PartialEq, Eq, Structural)]
pub enum Expected {
    /// The body: one request or a batch.
    Body,
    /// One request of a batch.
    Request,
    /// The method's name.
    Text,
    /// The parameters.
    Sequence,
    /// A member's name in a single request, which the reader takes as it
    /// stands in the body.
    BorrowedText,
    /// A block hash.
    HashText,
}

impl Expected {
    pub open spec fn spec_text(self) -> Seq<char> {
        match self {
            Expected::Body => "a single rpc request, or a batch of rpc requests"@,
            Expected::Request => "struct RpcRequest"@,
            Expected::Text => "a string"@,
            Expected::Sequence => "a sequence"@,
            Expected::BorrowedText => "a borrowed string"@,
            Expected::HashText => "an ASCII hex string"@,
        }
    }

    pub fn text(&self) -> (res: &'static str)
        ensures
            res@ == self.spec_text(),
    {
        match self {
            Expected::Body => "a single rpc request, or a batch of rpc requests",
            Expected::Request => "struct RpcRequest",
            Expected::Text => "a string",
            Expected::Sequence => "a sequence",
            Expected::BorrowedText => "a borrowed string",
            Expected::HashText => "an ASCII hex string",
        }
    }
}

/// A field of a request.
#[derive(Copy, Clone, Debug, PartialEq, Eq, Structural)]
pub enum Field {
    Id,
    Method,
    Params,
}

impl Field {
    pub open spec fn spec_name(self) -> Seq<char> {
        match self {
            Field::Id => "id"@,
            Field::Method => "method"@,
            Field::Params => "params"@,
        }
    }

    pub fn name(&self) -> (res: &'static str)
        ensures
            res@ == self.spec_name(),
    {
        match self {
            Field::Id => "id",
            Field::Method => "method",
            Field::Params => "params",
        }
    }
}

/// A place in the body as the JSON reader reports it: the line, counted
/// from 1, and the column, the number of bytes before it on its line.
#[derive(Copy, Clone, Debug, PartialEq, Eq, Structural)]
pub struct Position {
    pub line: usize,
    pub column: usize,
}

/// What is wrong with a body that is JSON but not requests.
#[derive(Debug)]
pub enum Problem {
    /// A value of the wrong type where something else was expected.
    InvalidType(Unexpected, Expected),
    /// A request given as an array ends after this many items.
    InvalidLength(usize),
    /// A request lacks a field.
    MissingField(Field),
    /// A request of a batch names a field twice.
    DuplicateField(Field),
    /// A request given as an array has more than three items.
    TrailingCharacters,
}

impl Problem {
    pub open spec fn spec_text(&self) -> Seq<char> {
        match self {
            Problem::InvalidType(u, e) => "invalid type: "@ + u.spec_text() + ", expected "@ + e.spec_text(),
            Problem::InvalidLength(n) => "invalid length "@ + decimal(*n as nat)
                + ", expected struct RpcRequest with 3 elements"@,
            Problem::MissingField(f) => "missing field `"@ + f.spec_name() + "`"@,
            Problem::DuplicateField(f) => "duplicate field `"@ + f.spec_name() + "`"@,
            Problem::TrailingCharacters => "trailing characters"@,
        }
    }

    pub fn text(&self) -> (res: String)
        ensures
            res@ == self.spec_text(),
    {
        match self {
            Problem::InvalidType(u, e) => String::from_str("invalid type: ").concat(u.text().as_str()).concat(
                ", expected ",
            ).concat(e.text()),
            Problem::InvalidLength(n) => String::from_str("invalid length ").concat(
                decimal_text(*n as u64).as_str(),
            ).concat(", expected struct RpcRequest with 3 elements"),
            Problem::MissingField(f) => String::from_str("missing field `").concat(f.name()).concat("`"),
            Problem::DuplicateField(f) => String::from_str("duplicate field `").concat(f.name()).concat("`"),
            Problem::TrailingCharacters => String::from_str("trailing characters"),
        }
    }
}

/// Why a body is not read as requests.
#[derive(Debug)]
pub enum RequestError {
    /// The body is JSON, but not requests: what is wrong, and where the
    /// reader stood when it found it.
    Invalid(Problem, Position),
    /// The body is not JSON; the JSON reader's message.
    Json(String),
}

impl RequestError {
    /// The message of the error: the problem and where it was found, or the
    /// JSON reader's message.
    pub open spec fn spec_message(&self) -> Seq<char> {
        match self {
            RequestError::Invalid(p, at) => p.spec_text() + " at line "@ + decimal(at.line as nat) + " column "@
                + decimal(at.column as nat),
            RequestError::Json(text) => text@,
        }
    }

    pub fn message(&self) -> (res: String)
        ensures
            res@ == self.spec_message(),
    {
        match self {
            RequestError::Invalid(p, at) => p.text().concat(" at line ").concat(
                decimal_text(at.line as u64).as_str(),
            ).concat(" column ").concat(decimal_text(at.column as u64).as_str()),
            RequestError::Json(text) => text.clone(),
        }
    }
}

} // verus!
