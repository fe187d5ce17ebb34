//! JSON-RPC requests, responses and errors, and the decisions the client
//! side of the proxy makes about them.
use itertools::Itertools;
use vstd::prelude::*;

use crate::encoding::{ascii_bytes, ascii_text, base64_encode, base64_std, lemma_ascii_roundtrip, lemma_base64_std_visible};
use crate::error::{Expected, Field, Problem, RequestError, Unexpected};
use crate::json::{borrowed_key, borrowed_key_of, colon_before, colon_offset, part, part_of, position_at, position_of, JsonValue, Span};
use crate::users::{basic_prefix, header_credentials, split_credentials};
use crate::util::str_eq;
use vstd::utf8::{encode_utf8, encode_utf8_decode_utf8, encode_utf8_valid_utf8};

verus! {

pub const MISC_ERROR_CODE: i64 = -1;

pub const METHOD_NOT_ALLOWED_ERROR_CODE: i64 = -32604;

pub const PARSE_ERROR_CODE: i64 = -32700;

pub const METHOD_NOT_ALLOWED_ERROR_MESSAGE: &'static str = "Method not allowed";

pub const PRUNE_ERROR_MESSAGE: &'static str = "Block not available (pruned data)";

/// An RPC method, named by the text that goes into a request.
pub trait RpcMethod {
    spec fn spec_name(&self) -> Seq<char>;

    fn as_str(&self) -> (res: &str)
        ensures
            res@ == self.spec_name(),
    ;
}

/// A method given by the name a client sent.
#[derive(Debug)]
pub struct GenericRpcMethod(pub String);

impl RpcMethod for GenericRpcMethod {
    open spec fn spec_name(&self) -> Seq<char> {
        self.0@
    }

    fn as_str(&self) -> (res: &str) {
        self.0.as_str()
    }
}

impl core::ops::Deref for GenericRpcMethod {
    type Target = String;

    fn deref(&self) -> (res: &String)
        ensures
            *res == self.0,
    {
        &self.0
    }
}

/// A JSON-RPC request of a generic method.
#[derive(Debug)]
pub struct RpcRequest {
    pub id: Option<JsonValue>,
    pub method: GenericRpcMethod,
    pub params: Vec<JsonValue>,
}

/// The body of a request: one call, or a batch of calls.
#[derive(Debug)]
pub enum SingleOrBatchRpcRequest {
    Single(RpcRequest),
    Batch(Vec<RpcRequest>),
}

/// The id of a request: an id of `null` counts as no id.
pub open spec fn request_id(v: Option<JsonValue>) -> Option<JsonValue> {
    match v {
        Some(JsonValue::Null) => None,
        other => other,
    }
}

/// The error for a problem found where the reader stood at byte `offset`.
pub open spec fn problem_at(problem: Problem, body: Seq<u8>, offset: int) -> RequestError {
    RequestError::Invalid(problem, position_at(body, offset))
}

/// Where the reader stands when it finds a value of the wrong type: after
/// a value it read to its end, or at the bracket of an array or object.
pub open spec fn value_error_offset(value: JsonValue, span: Span) -> int {
    match value {
        JsonValue::Array(_) => span.start as int,
        JsonValue::Object(_) => span.start as int,
        _ => span.end as int,
    }
}

/// A value of the wrong type where `expected` was wanted.
pub open spec fn wrong_type(value: JsonValue, expected: Expected, span: Span, body: Seq<u8>) -> RequestError {
    problem_at(Problem::InvalidType(value.spec_unexpected(), expected), body, value_error_offset(value, span))
}

/// What reading the members of a request has found so far: its id, its
/// method and its parameters.
pub type Found = (Option<JsonValue>, Option<String>, Option<Vec<JsonValue>>);

/// Member `i` of a single request, read in the order of the text: its name
/// must be written without escapes; `id`, `method` and `params` take the
/// member's value, and `null` takes it away again; a method that is not a
/// string and parameters that are not an array are refused; other members
/// are skipped.
pub open spec fn single_step(found: Found, member: (String, JsonValue), i: int, span: Span, body: Seq<u8>) -> Result<
    Found,
    RequestError,
> {
    let vspan = part(span, i);
    if !borrowed_key(span, i) {
        Err(
            problem_at(
                Problem::InvalidType(Unexpected::Str(member.0), Expected::BorrowedText),
                body,
                colon_before(body, vspan.start as int),
            ),
        )
    } else if member.0@ == "id"@ {
        Ok((request_id(Some(member.1)), found.1, found.2))
    } else if member.0@ == "method"@ {
        match member.1 {
            JsonValue::Null => Ok((found.0, None, found.2)),
            JsonValue::String(m) => Ok((found.0, Some(m), found.2)),
            other => Err(wrong_type(other, Expected::Text, vspan, body)),
        }
    } else if member.0@ == "params"@ {
        match member.1 {
            JsonValue::Null => Ok((found.0, found.1, None)),
            JsonValue::Array(p) => Ok((found.0, found.1, Some(p))),
            other => Err(wrong_type(other, Expected::Sequence, vspan, body)),
        }
    } else {
        Ok(found)
    }
}

/// The members of a single request read one after the other; the first
/// refusal ends the reading.
pub open spec fn single_scan(members: Seq<(String, JsonValue)>, span: Span, body: Seq<u8>) -> Result<Found, RequestError>
    decreases members.len(),
{
    if members.len() == 0 {
        Ok((None, None, None))
    } else {
        match single_scan(members.drop_last(), span, body) {
            Ok(found) => single_step(found, members.last(), members.len() - 1, span, body),
            Err(e) => Err(e),
        }
    }
}

/// What reading the members of a request of a batch has found so far; the
/// id is `Some` once an `id` member was read.
pub type FoundFields = (Option<Option<JsonValue>>, Option<String>, Option<Vec<JsonValue>>);

/// Member `i` of a request of a batch, read in the order of the text: a
/// field may occur once, and a repeated one is reported where its name
/// ends; the method must be a string and the parameters an array; other
/// members are skipped.
pub open spec fn fields_step(found: FoundFields, member: (String, JsonValue), i: int, span: Span, body: Seq<u8>) -> Result<
    FoundFields,
    RequestError,
> {
    let vspan = part(span, i);
    let name_end = colon_before(body, vspan.start as int);
    if member.0@ == "id"@ {
        if found.0 is Some {
            Err(problem_at(Problem::DuplicateField(Field::Id), body, name_end))
        } else {
            Ok((Some(request_id(Some(member.1))), found.1, found.2))
        }
    } else if member.0@ == "method"@ {
        if found.1 is Some {
            Err(problem_at(Problem::DuplicateField(Field::Method), body, name_end))
        } else {
            match member.1 {
                JsonValue::String(m) => Ok((found.0, Some(m), found.2)),
                other => Err(wrong_type(other, Expected::Text, vspan, body)),
            }
        }
    } else if member.0@ == "params"@ {
        if found.2 is Some {
            Err(problem_at(Problem::DuplicateField(Field::Params), body, name_end))
        } else {
            match member.1 {
                JsonValue::Array(p) => Ok((found.0, found.1, Some(p))),
                other => Err(wrong_type(other, Expected::Sequence, vspan, body)),
            }
        }
    } else {
        Ok(found)
    }
}

/// The members of a request of a batch read one after the other; the first
/// refusal ends the reading.
pub open spec fn fields_scan(members: Seq<(String, JsonValue)>, span: Span, body: Seq<u8>) -> Result<
    FoundFields,
    RequestError,
>
    decreases members.len(),
{
    if members.len() == 0 {
        Ok((None, None, None))
    } else {
        match fields_scan(members.drop_last(), span, body) {
            Ok(found) => fields_step(found, members.last(), members.len() - 1, span, body),
            Err(e) => Err(e),
        }
    }
}

/// The request that the fields found make: the method is missed before the
/// parameters, and both are reported after the object's closing brace.
pub open spec fn request_from_found(
    id: Option<JsonValue>,
    method: Option<String>,
    params: Option<Vec<JsonValue>>,
    span: Span,
    body: Seq<u8>,
) -> Result<RpcRequest, RequestError> {
    match (method, params) {
        (Some(m), Some(p)) => Ok(RpcRequest { id, method: GenericRpcMethod(m), params: p }),
        (None, _) => Err(problem_at(Problem::MissingField(Field::Method), body, span.end as int)),
        (Some(_), None) => Err(problem_at(Problem::MissingField(Field::Params), body, span.end as int)),
    }
}

/// A single request given as an object.
pub open spec fn request_from_members(members: Seq<(String, JsonValue)>, span: Span, body: Seq<u8>) -> Result<
    RpcRequest,
    RequestError,
> {
    match single_scan(members, span, body) {
        Ok(found) => request_from_found(found.0, found.1, found.2, span, body),
        Err(e) => Err(e),
    }
}

/// A request of a batch given as an object.
pub open spec fn request_from_fields(members: Seq<(String, JsonValue)>, span: Span, body: Seq<u8>) -> Result<
    RpcRequest,
    RequestError,
> {
    match fields_scan(members, span, body) {
        Ok(found) => request_from_found(
            match found.0 {
                Some(id) => id,
                None => None,
            },
            found.1,
            found.2,
            span,
            body,
        ),
        Err(e) => Err(e),
    }
}

/// A request of a batch given as an array `[id, method, params]`: items are
/// read in order, so a short array is reported, after its closing bracket,
/// at the first item that is missing; an array longer than three items is
/// refused just after the start of its fourth item.
pub open spec fn request_from_items(items: Seq<JsonValue>, span: Span, body: Seq<u8>) -> Result<RpcRequest, RequestError> {
    if items.len() < 2 {
        Err(problem_at(Problem::InvalidLength(1), body, span.end as int))
    } else if !(items[1] is String) {
        Err(wrong_type(items[1], Expected::Text, part(span, 1), body))
    } else if items.len() < 3 {
        Err(problem_at(Problem::InvalidLength(2), body, span.end as int))
    } else if !(items[2] is Array) {
        Err(wrong_type(items[2], Expected::Sequence, part(span, 2), body))
    } else if items.len() > 3 {
        Err(problem_at(Problem::TrailingCharacters, body, part(span, 3).start + 1))
    } else {
        match (items[1], items[2]) {
            (JsonValue::String(m), JsonValue::Array(p)) => Ok(
                RpcRequest { id: request_id(Some(items[0])), method: GenericRpcMethod(m), params: p },
            ),
            _ => Err(problem_at(Problem::TrailingCharacters, body, span.end as int)),
        }
    }
}

/// One request of a batch.
pub open spec fn request_from_value(value: JsonValue, span: Span, body: Seq<u8>) -> Result<RpcRequest, RequestError> {
    match value {
        JsonValue::Object(members) => request_from_fields(members@, span, body),
        JsonValue::Array(items) => request_from_items(items@, span, body),
        other => Err(wrong_type(other, Expected::Request, span, body)),
    }
}

/// The requests of a batch, or the error of the first one that is not a
/// request.
pub open spec fn requests_from_values(values: Seq<JsonValue>, span: Span, body: Seq<u8>) -> Result<
    Seq<RpcRequest>,
    RequestError,
>
    decreases values.len(),
{
    if values.len() == 0 {
        Ok(seq![])
    } else {
        match requests_from_values(values.drop_last(), span, body) {
            Err(e) => Err(e),
            Ok(rs) => match request_from_value(values.last(), part(span, values.len() - 1), body) {
                Ok(r) => Ok(rs.push(r)),
                Err(e) => Err(e),
            },
        }
    }
}

/// The body that a JSON value gives, read from `body` where it stands at
/// `span`: an object is one call, an array a batch; anything else is
/// refused.
pub open spec fn body_from_json(
    value: JsonValue,
    span: Span,
    body: Seq<u8>,
    res: Result<SingleOrBatchRpcRequest, RequestError>,
) -> bool {
    match value {
        JsonValue::Object(members) => match request_from_members(members@, span, body) {
            Ok(r) => res == Ok::<SingleOrBatchRpcRequest, RequestError>(SingleOrBatchRpcRequest::Single(r)),
            Err(e) => res == Err::<SingleOrBatchRpcRequest, RequestError>(e),
        },
        JsonValue::Array(items) => match requests_from_values(items@, span, body) {
            Ok(rs) => res matches Ok(SingleOrBatchRpcRequest::Batch(v)) && v@ == rs,
            Err(e) => res == Err::<SingleOrBatchRpcRequest, RequestError>(e),
        },
        other => res == Err::<SingleOrBatchRpcRequest, RequestError>(wrong_type(other, Expected::Body, span, body)),
    }
}

/// The value of the last member of an object with the given name.
pub open spec fn last_member(members: Seq<(String, JsonValue)>, key: Seq<char>) -> Option<JsonValue>
    decreases members.len(),
{
    if members.len() == 0 {
        None
    } else if members.last().0@ == key {
        Some(members.last().1)
    } else {
        last_member(members.drop_last(), key)
    }
}

/// The text a member holds, if it is a string.
pub open spec fn text_of(v: Option<JsonValue>) -> Option<String> {
    match v {
        Some(JsonValue::String(s)) => Some(s),
        _ => None,
    }
}

/// The items a member holds, if it is an array.
pub open spec fn items_of(v: Option<JsonValue>) -> Option<Vec<JsonValue>> {
    match v {
        Some(JsonValue::Array(p)) => Some(p),
        _ => None,
    }
}

/// A member of a single request can be read: its name was written without
/// escapes, a `method` member holds a string or `null`, and a `params`
/// member an array or `null`.
pub open spec fn single_member_readable(member: (String, JsonValue), name_borrowed: bool) -> bool {
    &&& name_borrowed
    &&& (member.0@ == "method"@ ==> (member.1 is String || member.1 is Null))
    &&& (member.0@ == "params"@ ==> (member.1 is Array || member.1 is Null))
}

/// Every member of a single request can be read.
pub open spec fn single_members_readable(members: Seq<(String, JsonValue)>, span: Span) -> bool {
    forall|i: int| 0 <= i < members.len() ==> single_member_readable(#[trigger] members[i], borrowed_key(span, i))
}

proof fn lemma_single_scan_exact(members: Seq<(String, JsonValue)>, span: Span, body: Seq<u8>)
    ensures
        single_scan(members, span, body) is Ok <==> single_members_readable(members, span),
        single_scan(members, span, body) matches Ok(f) ==> {
            &&& f.0 == request_id(last_member(members, "id"@))
            &&& f.1 == text_of(last_member(members, "method"@))
            &&& f.2 == items_of(last_member(members, "params"@))
        },
    decreases members.len(),
{
    reveal_strlit("id");
    reveal_strlit("method");
    reveal_strlit("params");
    assert("method"@.len() != "id"@.len());
    assert("params"@.len() != "id"@.len());
    assert("params"@[0] != "method"@[0]);
    if members.len() > 0 {
        let prev = members.drop_last();
        let k = members.len() - 1;
        assert(members.last() == members[k]);
        assert forall|i: int| 0 <= i < prev.len() implies prev[i] == members[i] by {}
        lemma_single_scan_exact(prev, span, body);
        if single_members_readable(members, span) {
            assert forall|i: int| 0 <= i < prev.len() implies single_member_readable(
                #[trigger] prev[i],
                borrowed_key(span, i),
            ) by {
                assert(prev[i] == members[i]);
            }
            assert(single_member_readable(members[k], borrowed_key(span, k)));
        }
        if single_scan(members, span, body) is Ok {
            assert(single_scan(prev, span, body) is Ok);
            assert forall|i: int| 0 <= i < members.len() implies single_member_readable(
                #[trigger] members[i],
                borrowed_key(span, i),
            ) by {
                if i < k {
                    assert(prev[i] == members[i]);
                }
            }
        }
    }
}

/// A single request is read exactly when every member can be read (names
/// written without escapes, `method` members strings or `null`, `params`
/// members arrays or `null`) and the last `method` member holds a string
/// and the last `params` member an array. It then takes each field from the
/// last member of that name, wherever that member stands among the others:
/// its id is that member's value (`null` giving none), its method that
/// member's text and its parameters that member's items.
pub proof fn lemma_single_request_takes_last_members(members: Seq<(String, JsonValue)>, span: Span, body: Seq<u8>)
    ensures
        request_from_members(members, span, body) is Ok <==> {
            &&& single_members_readable(members, span)
            &&& last_member(members, "method"@) matches Some(JsonValue::String(_))
            &&& last_member(members, "params"@) matches Some(JsonValue::Array(_))
        },
        request_from_members(members, span, body) matches Ok(r) ==> {
            &&& r.id == request_id(last_member(members, "id"@))
            &&& last_member(members, "method"@) == Some(JsonValue::String(r.method.0))
            &&& last_member(members, "params"@) == Some(JsonValue::Array(r.params))
        },
{
    lemma_single_scan_exact(members, span, body);
}

/// A name that a request of a batch reads as a field.
pub open spec fn is_field_name(name: Seq<char>) -> bool {
    name == "id"@ || name == "method"@ || name == "params"@
}

/// Every member of a request of a batch can be read: no field is named
/// twice, a `method` member holds a string and a `params` member an array.
pub open spec fn fields_readable(members: Seq<(String, JsonValue)>) -> bool {
    &&& forall|i: int|
        0 <= i < members.len() ==> {
            &&& ((#[trigger] members[i]).0@ == "method"@ ==> members[i].1 is String)
            &&& (members[i].0@ == "params"@ ==> members[i].1 is Array)
        }
    &&& forall|i: int, j: int|
        0 <= i < j < members.len() && is_field_name(members[i].0@) ==> (#[trigger] members[i]).0@ != (
        #[trigger] members[j]).0@
}

proof fn lemma_last_member_none(members: Seq<(String, JsonValue)>, key: Seq<char>)
    ensures
        last_member(members, key) is None <==> forall|i: int| 0 <= i < members.len() ==> (#[trigger] members[i]).0@ != key,
    decreases members.len(),
{
    if members.len() > 0 {
        lemma_last_member_none(members.drop_last(), key);
        assert forall|i: int| 0 <= i < members.len() - 1 implies members.drop_last()[i] == members[i] by {}
        assert(members.last() == members[members.len() - 1]);
    }
}

proof fn lemma_fields_scan_exact(members: Seq<(String, JsonValue)>, span: Span, body: Seq<u8>)
    ensures
        fields_scan(members, span, body) is Ok <==> fields_readable(members),
        fields_scan(members, span, body) matches Ok(f) ==> {
            &&& f.0 == (if last_member(members, "id"@) is Some {
                Some(request_id(last_member(members, "id"@)))
            } else {
                None
            })
            &&& f.1 == text_of(last_member(members, "method"@))
            &&& f.2 == items_of(last_member(members, "params"@))
        },
    decreases members.len(),
{
    reveal_strlit("id");
    reveal_strlit("method");
    reveal_strlit("params");
    assert("method"@.len() != "id"@.len());
    assert("params"@.len() != "id"@.len());
    assert("params"@[0] != "method"@[0]);
    if members.len() > 0 {
        let prev = members.drop_last();
        let k = members.len() - 1;
        let last = members[k];
        assert(members.last() == last);
        assert forall|i: int| 0 <= i < prev.len() implies prev[i] == members[i] by {}
        lemma_fields_scan_exact(prev, span, body);
        lemma_last_member_none(prev, "id"@);
        lemma_last_member_none(prev, "method"@);
        lemma_last_member_none(prev, "params"@);
        if fields_readable(members) {
            assert forall|i: int| 0 <= i < prev.len() implies {
                &&& ((#[trigger] prev[i]).0@ == "method"@ ==> prev[i].1 is String)
                &&& (prev[i].0@ == "params"@ ==> prev[i].1 is Array)
            } by {
                assert(prev[i] == members[i]);
            }
            assert forall|i: int, j: int|
                0 <= i < j < prev.len() && is_field_name(prev[i].0@) implies (#[trigger] prev[i]).0@ != (
            #[trigger] prev[j]).0@ by {
                assert(prev[i] == members[i]);
                assert(prev[j] == members[j]);
            }
            assert(fields_readable(prev));
            if is_field_name(last.0@) {
                assert forall|i: int| 0 <= i < prev.len() implies (#[trigger] prev[i]).0@ != last.0@ by {
                    assert(prev[i] == members[i]);
                    assert(members[i].0@ != members[k].0@);
                }
            }
        }
        if fields_scan(members, span, body) is Ok {
            assert(fields_scan(prev, span, body) is Ok);
            assert forall|i: int|
                0 <= i < members.len() implies {
                    &&& ((#[trigger] members[i]).0@ == "method"@ ==> members[i].1 is String)
                    &&& (members[i].0@ == "params"@ ==> members[i].1 is Array)
                } by {
                if i < k {
                    assert(prev[i] == members[i]);
                }
            }
            let f = fields_scan(prev, span, body)->Ok_0;
            lemma_last_member_is_member(prev, "method"@);
            lemma_last_member_is_member(prev, "params"@);
            if is_field_name(last.0@) {
                if last.0@ == "id"@ {
                    assert(f.0 is None);
                } else if last.0@ == "method"@ {
                    assert(f.1 is None);
                    if last_member(prev, "method"@) is Some {
                        let i = choose|i: int|
                            0 <= i < prev.len() && #[trigger] prev[i] == (prev[i].0, last_member(prev, "method"@)->Some_0)
                                && prev[i].0@ == "method"@;
                        assert(prev[i].1 is String);
                    }
                } else {
                    assert(f.2 is None);
                    if last_member(prev, "params"@) is Some {
                        let i = choose|i: int|
                            0 <= i < prev.len() && #[trigger] prev[i] == (prev[i].0, last_member(prev, "params"@)->Some_0)
                                && prev[i].0@ == "params"@;
                        assert(prev[i].1 is Array);
                    }
                }
                lemma_last_member_none(prev, last.0@);
                assert(last_member(prev, last.0@) is None);
            }
            assert forall|i: int, j: int|
                0 <= i < j < members.len() && is_field_name(members[i].0@) implies (#[trigger] members[i]).0@ != (
            #[trigger] members[j]).0@ by {
                assert(prev[i] == members[i]);
                if j < k {
                    assert(prev[j] == members[j]);
                } else {
                    assert(members[j] == last);
                    if members[i].0@ == last.0@ {
                        assert(prev[i].0@ != last.0@);
                    }
                }
            }
        }
    }
}

/// A request of a batch given as an object is read exactly when no field
/// is named twice, every `method` member holds a string and every `params`
/// member an array, and both a method and parameters are given. It then
/// takes each field from the member of that name, wherever it stands: the
/// id is that member's value (`null`, or no such member, giving none).
pub proof fn lemma_object_request_law(members: Seq<(String, JsonValue)>, span: Span, body: Seq<u8>)
    ensures
        request_from_fields(members, span, body) is Ok <==> {
            &&& fields_readable(members)
            &&& last_member(members, "method"@) is Some
            &&& last_member(members, "params"@) is Some
        },
        request_from_fields(members, span, body) matches Ok(r) ==> {
            &&& r.id == request_id(last_member(members, "id"@))
            &&& last_member(members, "method"@) == Some(JsonValue::String(r.method.0))
            &&& last_member(members, "params"@) == Some(JsonValue::Array(r.params))
        },
{
    lemma_fields_scan_exact(members, span, body);
    reveal_strlit("method");
    reveal_strlit("params");
    if fields_readable(members) {
        lemma_last_member_is_member(members, "method"@);
        lemma_last_member_is_member(members, "params"@);
    }
}

proof fn lemma_last_member_is_member(members: Seq<(String, JsonValue)>, key: Seq<char>)
    ensures
        last_member(members, key) matches Some(v) ==> exists|i: int| 0 <= i < members.len() && #[trigger] members[i] == (members[i].0, v) && members[i].0@ == key,
    decreases members.len(),
{
    if members.len() > 0 {
        lemma_last_member_is_member(members.drop_last(), key);
        let k = members.len() - 1;
        assert(members.last() == members[k]);
        if last_member(members.drop_last(), key) is Some && members.last().0@ != key {
            let i = choose|i: int| 0 <= i < members.drop_last().len() && #[trigger] members.drop_last()[i] == (members.drop_last()[i].0, last_member(members.drop_last(), key)->Some_0) && members.drop_last()[i].0@ == key;
            assert(members[i] == members.drop_last()[i]);
        }
    }
}

/// A request of a batch given as an array is read exactly when it has three
/// items, the second a string and the third an array; the id is then the
/// first item (`null` giving none), the method the second and the
/// parameters the third.
pub proof fn lemma_array_request_law(items: Seq<JsonValue>, span: Span, body: Seq<u8>)
    ensures
        request_from_items(items, span, body) is Ok <==> (items.len() == 3 && items[1] is String && items[2] is Array),
        request_from_items(items, span, body) matches Ok(r) ==> {
            &&& r.id == request_id(Some(items[0]))
            &&& items[1] == JsonValue::String(r.method.0)
            &&& items[2] == JsonValue::Array(r.params)
        },
{
}

/// A batch is read exactly when each of its requests is, and then gives
/// one request per item, each read from the item at the same position.
pub proof fn lemma_batch_reads_each_item(values: Seq<JsonValue>, span: Span, body: Seq<u8>)
    ensures
        requests_from_values(values, span, body) is Ok <==> forall|i: int|
            0 <= i < values.len() ==> (#[trigger] request_from_value(values[i], part(span, i), body)) is Ok,
        requests_from_values(values, span, body) matches Ok(rs) ==> {
            &&& rs.len() == values.len()
            &&& forall|i: int|
                0 <= i < values.len() ==> #[trigger] request_from_value(values[i], part(span, i), body) == Ok::<
                    RpcRequest,
                    RequestError,
                >(rs[i])
        },
    decreases values.len(),
{
    if values.len() > 0 {
        let prev = values.drop_last();
        let k = values.len() - 1;
        lemma_batch_reads_each_item(prev, span, body);
        assert(values.last() == values[k]);
        assert forall|i: int| 0 <= i < prev.len() implies prev[i] == values[i] by {}
        if requests_from_values(values, span, body) is Ok {
            let rs = requests_from_values(values, span, body)->Ok_0;
            let ps = requests_from_values(prev, span, body)->Ok_0;
            assert forall|i: int| 0 <= i < values.len() implies #[trigger] request_from_value(
                values[i],
                part(span, i),
                body,
            ) == Ok::<RpcRequest, RequestError>(rs[i]) by {
                if i < k {
                    assert(prev[i] == values[i]);
                    assert(request_from_value(prev[i], part(span, i), body) == Ok::<RpcRequest, RequestError>(ps[i]));
                }
            }
        }
        if forall|i: int| 0 <= i < values.len() ==> (#[trigger] request_from_value(values[i], part(span, i), body)) is Ok {
            assert forall|i: int| 0 <= i < prev.len() implies (#[trigger] request_from_value(prev[i], part(span, i), body)) is Ok by {
                assert(prev[i] == values[i]);
                assert(request_from_value(values[i], part(span, i), body) is Ok);
            }
            assert(request_from_value(values[k], part(span, k), body) is Ok);
        }
    }
}

/// Once the reading of a single request is refused, the members after it do
/// not change the outcome.
proof fn lemma_single_scan_error(members: Seq<(String, JsonValue)>, span: Span, body: Seq<u8>, k: int)
    requires
        0 <= k <= members.len(),
        single_scan(members.take(k), span, body) is Err,
    ensures
        single_scan(members, span, body) == single_scan(members.take(k), span, body),
    decreases members.len() - k,
{
    if k < members.len() {
        assert(members.take(k + 1).drop_last() =~= members.take(k));
        lemma_single_scan_error(members, span, body, k + 1);
    } else {
        assert(members.take(k) =~= members);
    }
}

/// Once the reading of a request of a batch is refused, the members after
/// it do not change the outcome.
proof fn lemma_fields_scan_error(members: Seq<(String, JsonValue)>, span: Span, body: Seq<u8>, k: int)
    requires
        0 <= k <= members.len(),
        fields_scan(members.take(k), span, body) is Err,
    ensures
        fields_scan(members, span, body) == fields_scan(members.take(k), span, body),
    decreases members.len() - k,
{
    if k < members.len() {
        assert(members.take(k + 1).drop_last() =~= members.take(k));
        lemma_fields_scan_error(members, span, body, k + 1);
    } else {
        assert(members.take(k) =~= members);
    }
}

/// Once a request of a batch is refused, the requests after it do not
/// change the outcome.
proof fn lemma_requests_error(values: Seq<JsonValue>, span: Span, body: Seq<u8>, k: int)
    requires
        0 <= k <= values.len(),
        requests_from_values(values.take(k), span, body) is Err,
    ensures
        requests_from_values(values, span, body) == requests_from_values(values.take(k), span, body),
    decreases values.len() - k,
{
    if k < values.len() {
        assert(values.take(k + 1).drop_last() =~= values.take(k));
        lemma_requests_error(values, span, body, k + 1);
    } else {
        assert(values.take(k) =~= values);
    }
}

fn wrong_type_error(value: &JsonValue, expected: Expected, span: &Span, body: &[u8]) -> (res: RequestError)
    ensures
        res == wrong_type(*value, expected, *span, body@),
{
    let offset = match value {
        JsonValue::Array(_) => span.start,
        JsonValue::Object(_) => span.start,
        _ => span.end,
    };
    RequestError::Invalid(Problem::InvalidType(value.unexpected(), expected), position_of(body, offset))
}

impl RpcRequest {
    /// Reads a single request given as an object that stands at `span` in
    /// `body`.
    #[verifier::loop_isolation(false)]
    pub fn from_members(members: Vec<(String, JsonValue)>, span: &Span, body: &[u8]) -> (res: Result<RpcRequest, RequestError>)
        ensures
            res == request_from_members(members@, *span, body@),
            res matches Ok(r) ==> {
                &&& r.id == request_id(last_member(members@, "id"@))
                &&& last_member(members@, "method"@) == Some(JsonValue::String(r.method.0))
                &&& last_member(members@, "params"@) == Some(JsonValue::Array(r.params))
            },
    {
        proof {
            lemma_single_request_takes_last_members(members@, *span, body@);
        }
        let ghost all = members@;
        let mut rest = members;
        let n = rest.len();
        let mut i: usize = 0;
        let mut id: Option<JsonValue> = None;
        let mut method: Option<String> = None;
        let mut params: Option<Vec<JsonValue>> = None;
        assert(all.take(0) =~= Seq::<(String, JsonValue)>::empty());
        while i < n
            invariant
                n == all.len(),
                i <= n,
                rest@ == all.skip(i as int),
                single_scan(all.take(i as int), *span, body@) == Ok::<Found, RequestError>((id, method, params)),
            decreases n - i,
        {
            let (key, value) = rest.remove(0);
            proof {
                assert((key, value) == all[i as int]);
                assert(all.take(i + 1).drop_last() =~= all.take(i as int));
                assert(all.take(i + 1).last() == (key, value));
                reveal_strlit("id");
                reveal_strlit("method");
                reveal_strlit("params");
            }
            let vspan = part_of(span, i);
            if !borrowed_key_of(span, i) {
                let e = RequestError::Invalid(
                    Problem::InvalidType(Unexpected::Str(key), Expected::BorrowedText),
                    position_of(body, colon_offset(body, vspan.start)),
                );
                proof {
                    assert(single_scan(all.take(i + 1), *span, body@) == Err::<Found, RequestError>(e));
                    lemma_single_scan_error(all, *span, body@, i + 1);
                }
                return Err(e);
            }
            if str_eq(key.as_str(), "id") {
                id = match value {
                    JsonValue::Null => None,
                    other => Some(other),
                };
            } else if str_eq(key.as_str(), "method") {
                match value {
                    JsonValue::Null => {
                        method = None;
                    },
                    JsonValue::String(m) => {
                        method = Some(m);
                    },
                    other => {
                        let e = wrong_type_error(&other, Expected::Text, vspan, body);
                        proof {
                            assert(single_scan(all.take(i + 1), *span, body@) == Err::<Found, RequestError>(e));
                            lemma_single_scan_error(all, *span, body@, i + 1);
                        }
                        return Err(e);
                    },
                }
            } else if str_eq(key.as_str(), "params") {
                match value {
                    JsonValue::Null => {
                        params = None;
                    },
                    JsonValue::Array(p) => {
                        params = Some(p);
                    },
                    other => {
                        let e = wrong_type_error(&other, Expected::Sequence, vspan, body);
                        proof {
                            assert(single_scan(all.take(i + 1), *span, body@) == Err::<Found, RequestError>(e));
                            lemma_single_scan_error(all, *span, body@, i + 1);
                        }
                        return Err(e);
                    },
                }
            }
            assert(rest@ =~= all.skip(i + 1));
            i = i + 1;
        }
        assert(all.take(n as int) =~= all);
        match (method, params) {
            (Some(m), Some(p)) => Ok(RpcRequest { id, method: GenericRpcMethod(m), params: p }),
            (None, _) => Err(RequestError::Invalid(Problem::MissingField(Field::Method), position_of(body, span.end))),
            (Some(_), None) => Err(
                RequestError::Invalid(Problem::MissingField(Field::Params), position_of(body, span.end)),
            ),
        }
    }

    /// Reads a request of a batch given as an object that stands at `span`
    /// in `body`.
    #[verifier::loop_isolation(false)]
    pub fn from_fields(members: Vec<(String, JsonValue)>, span: &Span, body: &[u8]) -> (res: Result<RpcRequest, RequestError>)
        ensures
            res == request_from_fields(members@, *span, body@),
    {
        let ghost all = members@;
        let mut rest = members;
        let n = rest.len();
        let mut i: usize = 0;
        let mut id: Option<Option<JsonValue>> = None;
        let mut method: Option<String> = None;
        let mut params: Option<Vec<JsonValue>> = None;
        assert(all.take(0) =~= Seq::<(String, JsonValue)>::empty());
        while i < n
            invariant
                n == all.len(),
                i <= n,
                rest@ == all.skip(i as int),
                fields_scan(all.take(i as int), *span, body@) == Ok::<FoundFields, RequestError>((id, method, params)),
            decreases n - i,
        {
            let (key, value) = rest.remove(0);
            proof {
                assert((key, value) == all[i as int]);
                assert(all.take(i + 1).drop_last() =~= all.take(i as int));
                assert(all.take(i + 1).last() == (key, value));
                reveal_strlit("id");
                reveal_strlit("method");
                reveal_strlit("params");
            }
            let vspan = part_of(span, i);
            let field = if str_eq(key.as_str(), "id") {
                Some(Field::Id)
            } else if str_eq(key.as_str(), "method") {
                Some(Field::Method)
            } else if str_eq(key.as_str(), "params") {
                Some(Field::Params)
            } else {
                None
            };
            let repeated = match field {
                Some(Field::Id) => id.is_some(),
                Some(Field::Method) => method.is_some(),
                Some(Field::Params) => params.is_some(),
                None => false,
            };
            if repeated {
                let f = field.unwrap();
                let e = RequestError::Invalid(Problem::DuplicateField(f), position_of(body, colon_offset(body, vspan.start)));
                proof {
                    assert(fields_scan(all.take(i + 1), *span, body@) == Err::<FoundFields, RequestError>(e));
                    lemma_fields_scan_error(all, *span, body@, i + 1);
                }
                return Err(e);
            }
            match field {
                Some(Field::Id) => {
                    id = Some(
                        match value {
                            JsonValue::Null => None,
                            other => Some(other),
                        },
                    );
                },
                Some(Field::Method) => match value {
                    JsonValue::String(m) => {
                        method = Some(m);
                    },
                    other => {
                        let e = wrong_type_error(&other, Expected::Text, vspan, body);
                        proof {
                            assert(fields_scan(all.take(i + 1), *span, body@) == Err::<FoundFields, RequestError>(e));
                            lemma_fields_scan_error(all, *span, body@, i + 1);
                        }
                        return Err(e);
                    },
                },
                Some(Field::Params) => match value {
                    JsonValue::Array(p) => {
                        params = Some(p);
                    },
                    other => {
                        let e = wrong_type_error(&other, Expected::Sequence, vspan, body);
                        proof {
                            assert(fields_scan(all.take(i + 1), *span, body@) == Err::<FoundFields, RequestError>(e));
                            lemma_fields_scan_error(all, *span, body@, i + 1);
                        }
                        return Err(e);
                    },
                },
                None => {},
            }
            assert(rest@ =~= all.skip(i + 1));
            i = i + 1;
        }
        assert(all.take(n as int) =~= all);
        let id = match id {
            Some(inner) => inner,
            None => None,
        };
        match (method, params) {
            (Some(m), Some(p)) => Ok(RpcRequest { id, method: GenericRpcMethod(m), params: p }),
            (None, _) => Err(RequestError::Invalid(Problem::MissingField(Field::Method), position_of(body, span.end))),
            (Some(_), None) => Err(
                RequestError::Invalid(Problem::MissingField(Field::Params), position_of(body, span.end)),
            ),
        }
    }

    /// Reads a request of a batch given as an array `[id, method, params]`
    /// that stands at `span` in `body`.
    pub fn from_items(items: Vec<JsonValue>, span: &Span, body: &[u8]) -> (res: Result<RpcRequest, RequestError>)
        ensures
            res == request_from_items(items@, *span, body@),
    {
        let mut items = items;
        let len = items.len();
        if len < 2 {
            return Err(RequestError::Invalid(Problem::InvalidLength(1), position_of(body, span.end)));
        }
        if !matches!(items[1], JsonValue::String(_)) {
            return Err(wrong_type_error(&items[1], Expected::Text, part_of(span, 1), body));
        }
        if len < 3 {
            return Err(RequestError::Invalid(Problem::InvalidLength(2), position_of(body, span.end)));
        }
        if !matches!(items[2], JsonValue::Array(_)) {
            return Err(wrong_type_error(&items[2], Expected::Sequence, part_of(span, 2), body));
        }
        if len > 3 {
            let fourth = part_of(span, 3).start;
            let offset = if fourth < body.len() {
                fourth + 1
            } else {
                fourth
            };
            return Err(RequestError::Invalid(Problem::TrailingCharacters, position_of(body, offset)));
        }
        let ghost all = items@;
        let params = items.pop().unwrap();
        let method = items.pop().unwrap();
        let id = items.pop().unwrap();
        assert(params == all[2] && method == all[1] && id == all[0]);
        let id = match id {
            JsonValue::Null => None,
            other => Some(other),
        };
        match (method, params) {
            (JsonValue::String(m), JsonValue::Array(p)) => Ok(RpcRequest { id, method: GenericRpcMethod(m), params: p }),
            _ => Err(RequestError::Invalid(Problem::TrailingCharacters, position_of(body, span.end))),
        }
    }

    /// Reads one request of a batch that stands at `span` in `body`.
    pub fn from_value(value: JsonValue, span: &Span, body: &[u8]) -> (res: Result<RpcRequest, RequestError>)
        ensures
            res == request_from_value(value, *span, body@),
    {
        match value {
            JsonValue::Object(members) => RpcRequest::from_fields(members, span, body),
            JsonValue::Array(items) => RpcRequest::from_items(items, span, body),
            other => Err(wrong_type_error(&other, Expected::Request, span, body)),
        }
    }
}

impl SingleOrBatchRpcRequest {
    /// Reads the body of a request from its JSON value, which stands at
    /// `span` in `body`.
    #[verifier::loop_isolation(false)]
    pub fn from_json(value: JsonValue, span: &Span, body: &[u8]) -> (res: Result<SingleOrBatchRpcRequest, RequestError>)
        ensures
            body_from_json(value, *span, body@, res),
    {
        match value {
            JsonValue::Object(members) => match RpcRequest::from_members(members, span, body) {
                Ok(r) => Ok(SingleOrBatchRpcRequest::Single(r)),
                Err(e) => Err(e),
            },
            JsonValue::Array(items) => {
                let ghost all = items@;
                let mut rest = items;
                let n = rest.len();
                let mut i: usize = 0;
                let mut requests: Vec<RpcRequest> = Vec::new();
                assert(all.take(0) =~= Seq::<JsonValue>::empty());
                while i < n
                    invariant
                        n == all.len(),
                        i <= n,
                        rest@ == all.skip(i as int),
                        requests_from_values(all.take(i as int), *span, body@) == Ok::<Seq<RpcRequest>, RequestError>(
                            requests@,
                        ),
                    decreases n - i,
                {
                    let item = rest.remove(0);
                    proof {
                        assert(item == all[i as int]);
                        assert(all.take(i + 1).drop_last() =~= all.take(i as int));
                        assert(all.take(i + 1).last() == item);
                    }
                    match RpcRequest::from_value(item, part_of(span, i), body) {
                        Ok(r) => {
                            requests.push(r);
                        },
                        Err(e) => {
                            proof {
                                assert(requests_from_values(all.take(i + 1), *span, body@) == Err::<
                                    Seq<RpcRequest>,
                                    RequestError,
                                >(e));
                                lemma_requests_error(all, *span, body@, i + 1);
                            }
                            return Err(e);
                        },
                    }
                    assert(rest@ =~= all.skip(i + 1));
                    i = i + 1;
                }
                assert(all.take(n as int) =~= all);
                Ok(SingleOrBatchRpcRequest::Batch(requests))
            },
            other => Err(wrong_type_error(&other, Expected::Body, span, body)),
        }
    }
}

/// The JSON of a request as it is sent: `id` where it has one, then
/// `method` and `params`.
pub open spec fn is_request_json(v: JsonValue, r: RpcRequest) -> bool {
    match v {
        JsonValue::Object(m) => {
            let k: int = if r.id is Some {
                1
            } else {
                0
            };
            &&& m@.len() == k + 2
            &&& (r.id matches Some(id) ==> m@[0].0@ == "id"@ && m@[0].1 == id)
            &&& m@[k].0@ == "method"@ && m@[k].1 == JsonValue::String(r.method.0)
            &&& m@[k + 1].0@ == "params"@ && m@[k + 1].1 == JsonValue::Array(r.params)
        },
        _ => false,
    }
}

/// The JSON of a batch: its requests' JSON, in order.
pub open spec fn is_batch_json(v: JsonValue, rs: Seq<RpcRequest>) -> bool {
    v matches JsonValue::Array(items) && items@.len() == rs.len() && forall|i: int|
        0 <= i < rs.len() ==> #[trigger] is_request_json(items@[i], rs[i])
}

/// The JSON of a body: one request, or a batch.
pub open spec fn is_body_json(v: JsonValue, x: SingleOrBatchRpcRequest) -> bool {
    match x {
        SingleOrBatchRpcRequest::Single(r) => is_request_json(v, r),
        SingleOrBatchRpcRequest::Batch(rs) => is_batch_json(v, rs@),
    }
}

/// A request whose id, if any, is not `null`.
pub open spec fn id_not_null(r: RpcRequest) -> bool {
    !(r.id matches Some(JsonValue::Null))
}

impl RpcRequest {
    /// Writes the request as JSON.
    pub fn into_json(self) -> (res: JsonValue)
        ensures
            is_request_json(res, self),
    {
        let RpcRequest { id, method, params } = self;
        let mut members: Vec<(String, JsonValue)> = Vec::new();
        match id {
            Some(i) => members.push((String::from_str("id"), i)),
            None => {},
        }
        members.push((String::from_str("method"), JsonValue::String(method.0)));
        members.push((String::from_str("params"), JsonValue::Array(params)));
        proof {
            reveal_strlit("id");
            reveal_strlit("method");
            reveal_strlit("params");
        }
        JsonValue::Object(members)
    }
}

impl SingleOrBatchRpcRequest {
    /// Writes the body as JSON.
    pub fn into_json(self) -> (res: JsonValue)
        ensures
            is_body_json(res, self),
    {
        match self {
            SingleOrBatchRpcRequest::Single(r) => r.into_json(),
            SingleOrBatchRpcRequest::Batch(rs) => {
                let ghost all = rs@;
                let mut rest = rs;
                let n = rest.len();
                let mut items: Vec<JsonValue> = Vec::new();
                let mut i: usize = 0;
                while i < n
                    invariant
                        n == all.len(),
                        i <= n,
                        rest@ == all.skip(i as int),
                        items@.len() == i,
                        forall|j: int| 0 <= j < i ==> #[trigger] is_request_json(items@[j], all[j]),
                    decreases n - i,
                {
                    let r = rest.remove(0);
                    assert(r == all[i as int]);
                    items.push(r.into_json());
                    assert(rest@ =~= all.skip(i + 1));
                    i = i + 1;
                }
                JsonValue::Array(items)
            },
        }
    }
}

/// A request written as JSON reads back as the same request: as a request
/// of a batch, and, when the reader took its member names as they stand, as
/// a single request; its id must not be `null`, which reads back as no id.
pub proof fn lemma_request_json_reads_back(v: JsonValue, r: RpcRequest, span: Span, body: Seq<u8>)
    requires
        is_request_json(v, r),
        id_not_null(r),
    ensures
        request_from_value(v, span, body) == Ok::<RpcRequest, RequestError>(r),
        (forall|i: int| 0 <= i < span.borrowed.len() ==> span.borrowed[i]) ==> (v matches JsonValue::Object(m)
            && request_from_members(m@, span, body) == Ok::<RpcRequest, RequestError>(r)),
{
    reveal_strlit("id");
    reveal_strlit("method");
    reveal_strlit("params");
    assert("method"@.len() != "id"@.len());
    assert("params"@.len() != "id"@.len());
    assert("params"@[0] != "method"@[0]);
    let m = v->Object_0@;
    let k: int = if r.id is Some {
        1
    } else {
        0
    };
    assert(m.take(0) =~= Seq::<(String, JsonValue)>::empty());
    assert(m.take(1).drop_last() =~= m.take(0));
    assert(m.take(2).drop_last() =~= m.take(1));
    assert(m.take(k + 2) =~= m);
    assert(fields_scan(m.take(0), span, body) == Ok::<FoundFields, RequestError>((None, None, None)));
    assert(single_scan(m.take(0), span, body) == Ok::<Found, RequestError>((None, None, None)));
    if r.id is Some {
        assert(m.take(3).drop_last() =~= m.take(2));
        assert(m.take(1).last() == m[0]);
        assert(m.take(2).last() == m[1]);
        assert(m.take(3).last() == m[2]);
        assert(fields_scan(m.take(1), span, body) == Ok::<FoundFields, RequestError>((Some(r.id), None, None)));
        assert(fields_scan(m.take(2), span, body) == Ok::<FoundFields, RequestError>(
            (Some(r.id), Some(r.method.0), None),
        ));
        assert(fields_scan(m.take(3), span, body) == Ok::<FoundFields, RequestError>(
            (Some(r.id), Some(r.method.0), Some(r.params)),
        ));
        if forall|i: int| 0 <= i < span.borrowed.len() ==> span.borrowed[i] {
            assert(borrowed_key(span, 0) && borrowed_key(span, 1) && borrowed_key(span, 2));
            assert(single_scan(m.take(1), span, body) == Ok::<Found, RequestError>((r.id, None, None)));
            assert(single_scan(m.take(2), span, body) == Ok::<Found, RequestError>((r.id, Some(r.method.0), None)));
            assert(single_scan(m.take(3), span, body) == Ok::<Found, RequestError>(
                (r.id, Some(r.method.0), Some(r.params)),
            ));
        }
    } else {
        assert(m.take(1).last() == m[0]);
        assert(m.take(2).last() == m[1]);
        assert(fields_scan(m.take(1), span, body) == Ok::<FoundFields, RequestError>((None, Some(r.method.0), None)));
        assert(fields_scan(m.take(2), span, body) == Ok::<FoundFields, RequestError>(
            (None, Some(r.method.0), Some(r.params)),
        ));
        if forall|i: int| 0 <= i < span.borrowed.len() ==> span.borrowed[i] {
            assert(borrowed_key(span, 0) && borrowed_key(span, 1));
            assert(single_scan(m.take(1), span, body) == Ok::<Found, RequestError>((None, Some(r.method.0), None)));
            assert(single_scan(m.take(2), span, body) == Ok::<Found, RequestError>(
                (None, Some(r.method.0), Some(r.params)),
            ));
        }
    }
}

/// A body written as JSON reads back as the same body: a single request as
/// that request (when the reader took its member names as they stand), a
/// batch as its requests in order; no request's id may be `null`.
pub proof fn lemma_body_json_reads_back(
    v: JsonValue,
    x: SingleOrBatchRpcRequest,
    span: Span,
    body: Seq<u8>,
    res: Result<SingleOrBatchRpcRequest, RequestError>,
)
    requires
        is_body_json(v, x),
        match x {
            SingleOrBatchRpcRequest::Single(r) => id_not_null(r),
            SingleOrBatchRpcRequest::Batch(rs) => forall|i: int| 0 <= i < rs@.len() ==> #[trigger] id_not_null(rs@[i]),
        },
        forall|i: int| 0 <= i < span.borrowed.len() ==> span.borrowed[i],
        body_from_json(v, span, body, res),
    ensures
        match x {
            SingleOrBatchRpcRequest::Single(r) => res == Ok::<SingleOrBatchRpcRequest, RequestError>(
                SingleOrBatchRpcRequest::Single(r),
            ),
            SingleOrBatchRpcRequest::Batch(rs) => res matches Ok(SingleOrBatchRpcRequest::Batch(w)) && w@ == rs@,
        },
{
    match x {
        SingleOrBatchRpcRequest::Single(r) => {
            lemma_request_json_reads_back(v, r, span, body);
        },
        SingleOrBatchRpcRequest::Batch(rs) => {
            let items = v->Array_0@;
            lemma_batch_prefix(items, rs@, span, body, items.len() as int);
            assert(items.take(items.len() as int) =~= items);
            assert(rs@.take(rs@.len() as int) =~= rs@);
        },
    }
}

proof fn lemma_batch_prefix(items: Seq<JsonValue>, rs: Seq<RpcRequest>, span: Span, body: Seq<u8>, k: int)
    requires
        items.len() == rs.len(),
        forall|i: int| 0 <= i < rs.len() ==> #[trigger] is_request_json(items[i], rs[i]),
        forall|i: int| 0 <= i < rs.len() ==> #[trigger] id_not_null(rs[i]),
        0 <= k <= items.len(),
    ensures
        requests_from_values(items.take(k), span, body) == Ok::<Seq<RpcRequest>, RequestError>(rs.take(k)),
    decreases k,
{
    if k == 0 {
        assert(items.take(0) =~= Seq::<JsonValue>::empty());
        assert(rs.take(0) =~= Seq::<RpcRequest>::empty());
    } else {
        lemma_batch_prefix(items, rs, span, body, k - 1);
        assert(items.take(k).drop_last() =~= items.take(k - 1));
        assert(items.take(k).last() == items[k - 1]);
        assert(is_request_json(items[k - 1], rs[k - 1]));
        assert(id_not_null(rs[k - 1]));
        lemma_request_json_reads_back(items[k - 1], rs[k - 1], part(span, k - 1), body);
        assert(rs.take(k - 1).push(rs[k - 1]) =~= rs.take(k));
    }
}

/// An error answered to a JSON-RPC call; `status` is the HTTP status that
/// goes with it, if any.
#[derive(Debug)]
pub struct RpcError {
    pub code: i64,
    pub message: String,
    pub status: Option<u16>,
}

impl RpcError {
    /// An error with the code for all other errors.
    pub fn misc(message: String) -> (res: RpcError)
        ensures
            res == (RpcError { code: MISC_ERROR_CODE, message, status: None }),
    {
        RpcError { code: MISC_ERROR_CODE, message, status: None }
    }

    /// An error with the code for a body that is not valid JSON-RPC.
    pub fn parse_error(message: String) -> (res: RpcError)
        ensures
            res == (RpcError { code: PARSE_ERROR_CODE, message, status: None }),
    {
        RpcError { code: PARSE_ERROR_CODE, message, status: None }
    }

    /// The answer to a call of a method the user may not call.
    pub fn method_not_allowed() -> (res: RpcError)
        ensures
            res.code == METHOD_NOT_ALLOWED_ERROR_CODE,
            res.message@ == METHOD_NOT_ALLOWED_ERROR_MESSAGE@,
            res.status == Some(403u16),
    {
        RpcError {
            code: METHOD_NOT_ALLOWED_ERROR_CODE,
            message: String::from_str(METHOD_NOT_ALLOWED_ERROR_MESSAGE),
            status: Some(403),
        }
    }

    /// The answer that a block is not available because the node pruned it.
    pub fn pruned() -> (res: RpcError)
        ensures
            res.code == MISC_ERROR_CODE,
            res.message@ == PRUNE_ERROR_MESSAGE@,
            res.status is None,
    {
        RpcError { code: MISC_ERROR_CODE, message: String::from_str(PRUNE_ERROR_MESSAGE), status: None }
    }

    /// The answer when the proxy cannot authenticate itself to the node; it
    /// reveals nothing more.
    pub fn internal_server_error() -> (res: RpcError)
        ensures
            res.code == MISC_ERROR_CODE,
            res.message@ == "internal server error"@,
            res.status == Some(500u16),
    {
        RpcError { code: MISC_ERROR_CODE, message: String::from_str("internal server error"), status: Some(500) }
    }

    /// Whether this is the node's answer that it pruned a block.
    pub fn is_pruned(&self) -> (res: bool)
        ensures
            res == (self.code == MISC_ERROR_CODE && self.message@ == PRUNE_ERROR_MESSAGE@),
    {
        self.code == MISC_ERROR_CODE && str_eq(self.message.as_str(), PRUNE_ERROR_MESSAGE)
    }
}

/// A JSON-RPC response of a generic method.
#[derive(Debug)]
pub struct RpcResponse {
    pub id: Option<JsonValue>,
    pub error: Option<RpcError>,
    pub result: Option<JsonValue>,
}

impl From<RpcError> for RpcResponse {
    fn from(e: RpcError) -> (res: RpcResponse) {
        RpcResponse { id: None, error: Some(e), result: None }
    }
}

impl vstd::std_specs::convert::FromSpecImpl<RpcError> for RpcResponse {
    open spec fn obeys_from_spec() -> bool {
        true
    }

    open spec fn from_spec(e: RpcError) -> RpcResponse {
        RpcResponse { id: None, error: Some(e), result: None }
    }
}

/// The HTTP status of a response: the status its error carries, 500 for an
/// error without one, and 200 without an error.
pub open spec fn response_status(error: Option<RpcError>) -> u16 {
    match error {
        Some(e) => match e.status {
            Some(s) => s,
            None => 500u16,
        },
        None => 200u16,
    }
}

impl RpcResponse {
    /// The result of the call, or its error; a response with neither has
    /// the result `null`.
    pub fn into_result(self) -> (res: Result<JsonValue, RpcError>)
        ensures
            match self.error {
                Some(e) => res == Err::<JsonValue, RpcError>(e),
                None => match self.result {
                    Some(v) => res == Ok::<JsonValue, RpcError>(v),
                    None => res == Ok::<JsonValue, RpcError>(JsonValue::Null),
                },
            },
    {
        match self.error {
            Some(e) => Err(e),
            None => match self.result {
                Some(v) => Ok(v),
                None => Ok(JsonValue::Null),
            },
        }
    }

    /// The HTTP status under which the response is sent.
    pub fn http_status(&self) -> (res: u16)
        ensures
            res == response_status(self.error),
    {
        match &self.error {
            Some(e) => match e.status {
                Some(s) => s,
                None => 500,
            },
            None => 200,
        }
    }

    /// A response from the node, whose error, if any, takes the HTTP status
    /// of the node's answer.
    pub fn with_node_status(self, status: u16) -> (res: RpcResponse)
        ensures
            res.id == self.id,
            res.result == self.result,
            match self.error {
                Some(e) => res.error == Some(RpcError { status: Some(status), ..e }),
                None => res.error is None,
            },
    {
        let RpcResponse { id, error, result } = self;
        let error = match error {
            Some(e) => Some(RpcError { status: Some(status), ..e }),
            None => None,
        };
        RpcResponse { id, error, result }
    }

    /// The answer to a single call that the proxy handled itself: its
    /// response, or its error under the id of the call.
    pub fn answer(id: Option<JsonValue>, outcome: Result<RpcResponse, RpcError>) -> (res: RpcResponse)
        ensures
            match outcome {
                Ok(r) => res == r,
                Err(e) => res == (RpcResponse { id, error: Some(e), result: None }),
            },
    {
        match outcome {
            Ok(r) => r,
            Err(e) => RpcResponse { id, error: Some(e), result: None },
        }
    }
}

/// Merging two lists of numbered items: while both have items, the one
/// whose head has the smaller number gives the next item (the second list
/// on a tie); then the rest of the other list follows.
pub open spec fn merge_by_index<T>(a: Seq<(usize, T)>, b: Seq<(usize, T)>) -> Seq<(usize, T)>
    decreases a.len() + b.len(),
{
    if a.len() == 0 {
        b
    } else if b.len() == 0 {
        a
    } else if a[0].0 < b[0].0 {
        seq![a[0]] + merge_by_index(a.drop_first(), b)
    } else {
        seq![b[0]] + merge_by_index(a, b.drop_first())
    }
}

/// The items of a list ordered by their number.
pub open spec fn sorted_by_index<T>(s: Seq<(usize, T)>) -> bool {
    forall|i: int, j: int| 0 <= i <= j < s.len() ==> s[i].0 <= s[j].0
}

/// Pairs the items of two lists, as far as the shorter one goes.
pub open spec fn zip_seqs<A, B>(a: Seq<A>, b: Seq<B>) -> Seq<(A, B)> {
    Seq::new(if a.len() <= b.len() { a.len() } else { b.len() }, |i: int| (a[i], b[i]))
}

fn index_precedes<T>(a: &(usize, T), b: &(usize, T)) -> (res: bool)
    ensures
        res == (a.0 < b.0),
{
    a.0 < b.0
}

/// Calls `Itertools::merge_by` with a predicate that compares the numbers
/// of the heads, and collects the merged items.
#[verifier::external_body]
fn merge_by_index_exec<T>(a: Vec<(usize, T)>, b: Vec<(usize, T)>) -> (res: Vec<(usize, T)>)
    ensures
        res@ == merge_by_index(a@, b@),
{
    a.into_iter().merge_by(b, |x, y| index_precedes(x, y)).collect()
}

/// The responses of a batch: the node's responses, numbered by the
/// positions of the calls that were forwarded, merged with the responses
/// the proxy produced itself.
pub fn assemble_batch(
    forwarded_idxs: Vec<usize>,
    forwarded: Vec<RpcResponse>,
    intercepted: Vec<(usize, RpcResponse)>,
) -> (res: Vec<RpcResponse>)
    ensures
        res@ == merge_by_index(zip_seqs(forwarded_idxs@, forwarded@), intercepted@).map_values(
            |p: (usize, RpcResponse)| p.1,
        ),
{
    let n = if forwarded_idxs.len() <= forwarded.len() { forwarded_idxs.len() } else { forwarded.len() };
    let ghost fwd = forwarded@;
    let mut forwarded = forwarded;
    let mut pairs: Vec<(usize, RpcResponse)> = Vec::new();
    let mut i: usize = 0;
    while i < n
        invariant
            n <= forwarded_idxs@.len(),
            n <= fwd.len(),
            i <= n,
            forwarded@ == fwd.skip(i as int),
            pairs@ == zip_seqs(forwarded_idxs@, fwd).take(i as int),
        decreases n - i,
    {
        let r = forwarded.remove(0);
        pairs.push((forwarded_idxs[i], r));
        assert(pairs@ =~= zip_seqs(forwarded_idxs@, fwd).take(i + 1));
        assert(forwarded@ =~= fwd.skip(i + 1));
        i = i + 1;
    }
    assert(pairs@ =~= zip_seqs(forwarded_idxs@, fwd));
    let merged = merge_by_index_exec(pairs, intercepted);
    let ghost all = merged@;
    let mut merged = merged;
    let mut res: Vec<RpcResponse> = Vec::new();
    let total = merged.len();
    let mut k: usize = 0;
    while k < total
        invariant
            total == all.len(),
            k <= total,
            merged@ == all.skip(k as int),
            res@ == all.take(k as int).map_values(|p: (usize, RpcResponse)| p.1),
        decreases total - k,
    {
        let (_, r) = merged.remove(0);
        res.push(r);
        assert(res@ =~= all.take(k + 1).map_values(|p: (usize, RpcResponse)| p.1));
        assert(merged@ =~= all.skip(k + 1));
        k = k + 1;
    }
    assert(all.take(total as int) =~= all);
    res
}

/// What the proxy did with one call of a batch: answered it (or refused
/// it), or left it to the node.
pub type CallOutcome = Option<Result<RpcResponse, RpcError>>;

/// The positions of the calls that go to the node, in order.
pub open spec fn forwarded_indices(outcomes: Seq<CallOutcome>) -> Seq<usize>
    decreases outcomes.len(),
{
    if outcomes.len() == 0 {
        seq![]
    } else if outcomes.last() is None {
        forwarded_indices(outcomes.drop_last()).push((outcomes.len() - 1) as usize)
    } else {
        forwarded_indices(outcomes.drop_last())
    }
}

/// The responses the proxy produced itself, numbered by the positions of
/// their calls, in order.
pub open spec fn intercepted_responses(outcomes: Seq<CallOutcome>) -> Seq<(usize, RpcResponse)>
    decreases outcomes.len(),
{
    if outcomes.len() == 0 {
        seq![]
    } else {
        match outcomes.last() {
            Some(Ok(r)) => intercepted_responses(outcomes.drop_last()).push(((outcomes.len() - 1) as usize, r)),
            _ => intercepted_responses(outcomes.drop_last()),
        }
    }
}

/// The error of the first call that the proxy refused, if any.
pub open spec fn first_error(outcomes: Seq<CallOutcome>) -> Option<RpcError>
    decreases outcomes.len(),
{
    if outcomes.len() == 0 {
        None
    } else {
        match first_error(outcomes.drop_last()) {
            Some(e) => Some(e),
            None => match outcomes.last() {
                Some(Err(e)) => Some(e),
                _ => None,
            },
        }
    }
}

/// Splits the outcomes of the calls of a batch: a refused call fails the
/// whole batch with its error; otherwise the positions of the calls that go
/// to the node and the responses that the proxy produced.
pub fn split_batch(outcomes: Vec<CallOutcome>) -> (res: Result<(Vec<usize>, Vec<(usize, RpcResponse)>), RpcError>)
    ensures
        match first_error(outcomes@) {
            Some(e) => res == Err::<(Vec<usize>, Vec<(usize, RpcResponse)>), RpcError>(e),
            None => res matches Ok((f, i)) && f@ == forwarded_indices(outcomes@) && i@ == intercepted_responses(
                outcomes@,
            ),
        },
{
    let ghost all = outcomes@;
    let mut rest = outcomes;
    let n = rest.len();
    let mut forwarded: Vec<usize> = Vec::new();
    let mut intercepted: Vec<(usize, RpcResponse)> = Vec::new();
    let mut failure: Option<RpcError> = None;
    let mut i: usize = 0;
    while i < n
        invariant
            n == all.len(),
            i <= n,
            rest@ == all.skip(i as int),
            failure == first_error(all.take(i as int)),
            forwarded@ == forwarded_indices(all.take(i as int)),
            intercepted@ == intercepted_responses(all.take(i as int)),
        decreases n - i,
    {
        let outcome = rest.remove(0);
        assert(outcome == all[i as int]);
        assert(all.take(i + 1).drop_last() =~= all.take(i as int));
        match outcome {
            None => forwarded.push(i),
            Some(Ok(r)) => intercepted.push((i, r)),
            Some(Err(e)) => {
                if failure.is_none() {
                    failure = Some(e);
                }
            },
        }
        assert(rest@ =~= all.skip(i + 1));
        i = i + 1;
    }
    assert(all.take(n as int) =~= all);
    match failure {
        Some(e) => Err(e),
        None => Ok((forwarded, intercepted)),
    }
}

/// Whether an outcome is a refusal.
pub open spec fn is_refusal(o: CallOutcome) -> bool {
    o matches Some(Err(_))
}

/// How the calls of a batch are split: a position is forwarded exactly when
/// the proxy left that call to the node; a response is the proxy's own
/// exactly when the proxy answered that call with it; and the batch fails
/// with the error of the first refused call, or not at all when no call was
/// refused.
pub proof fn lemma_split_batch_law(outcomes: Seq<CallOutcome>)
    requires
        outcomes.len() <= usize::MAX,
    ensures
        forall|i: int| 0 <= i < outcomes.len() ==> (outcomes[i] is None <==> forwarded_indices(outcomes).contains(
            i as usize,
        )),
        forall|j: int| 0 <= j < forwarded_indices(outcomes).len() ==> (#[trigger] forwarded_indices(outcomes)[j]) < outcomes.len()
            && outcomes[forwarded_indices(outcomes)[j] as int] is None,
        forall|j: int|
            0 <= j < intercepted_responses(outcomes).len() ==> {
                let (i, r) = #[trigger] intercepted_responses(outcomes)[j];
                i < outcomes.len() && outcomes[i as int] == Some(Ok::<RpcResponse, RpcError>(r))
            },
        forall|i: int|
            0 <= i < outcomes.len() && (#[trigger] outcomes[i] matches Some(Ok(_))) ==> intercepted_responses(
                outcomes,
            ).contains((i as usize, outcomes[i]->Some_0->Ok_0)),
        first_error(outcomes) is None <==> forall|i: int| 0 <= i < outcomes.len() ==> !is_refusal(#[trigger] outcomes[i]),
        first_error(outcomes) matches Some(e) ==> exists|i: int|
            0 <= i < outcomes.len() && outcomes[i] == Some(Err::<RpcResponse, RpcError>(e)) && forall|j: int|
                0 <= j < i ==> !is_refusal(#[trigger] outcomes[j]),
    decreases outcomes.len(),
{
    if outcomes.len() > 0 {
        let prev = outcomes.drop_last();
        let k = outcomes.len() - 1;
        lemma_split_batch_law(prev);
        assert(outcomes.last() == outcomes[k]);
        assert forall|i: int| 0 <= i < prev.len() implies prev[i] == outcomes[i] by {}
        let f = forwarded_indices(outcomes);
        let p = forwarded_indices(prev);
        assert forall|i: int| 0 <= i < outcomes.len() implies (outcomes[i] is None <==> f.contains(i as usize)) by {
            if i < k {
                assert(prev[i] == outcomes[i]);
                if outcomes[k] is None {
                    assert(f == p.push(k as usize));
                    if p.contains(i as usize) {
                        let j = choose|j: int| 0 <= j < p.len() && p[j] == i as usize;
                        assert(f[j] == i as usize);
                    }
                    if f.contains(i as usize) {
                        let j = choose|j: int| 0 <= j < f.len() && f[j] == i as usize;
                        if j < p.len() {
                            assert(p[j] == i as usize);
                        }
                    }
                }
            } else {
                if outcomes[k] is None {
                    assert(f[f.len() - 1] == k as usize);
                } else {
                    if f.contains(i as usize) {
                        let j = choose|j: int| 0 <= j < f.len() && f[j] == i as usize;
                        assert(p[j] < prev.len());
                    }
                }
            }
        }
        assert forall|j: int| 0 <= j < f.len() implies (#[trigger] f[j]) < outcomes.len() && outcomes[f[j] as int] is None by {
            if j < p.len() {
                assert(f[j] == p[j]);
                assert(prev[p[j] as int] == outcomes[p[j] as int]);
            }
        }
        let c = intercepted_responses(outcomes);
        let q = intercepted_responses(prev);
        assert forall|j: int|
            0 <= j < c.len() implies {
                let (i, r) = #[trigger] c[j];
                i < outcomes.len() && outcomes[i as int] == Some(Ok::<RpcResponse, RpcError>(r))
            } by {
            if j < q.len() {
                assert(c[j] == q[j]);
                assert(prev[q[j].0 as int] == outcomes[q[j].0 as int]);
            }
        }
        assert forall|i: int|
            0 <= i < outcomes.len() && (#[trigger] outcomes[i] matches Some(Ok(_))) implies c.contains(
                (i as usize, outcomes[i]->Some_0->Ok_0),
            ) by {
            let r = outcomes[i]->Some_0->Ok_0;
            if i < k {
                assert(prev[i] == outcomes[i]);
                assert(q.contains((i as usize, r)));
                let j = choose|j: int| 0 <= j < q.len() && q[j] == (i as usize, r);
                assert(c[j] == q[j]);
            } else {
                assert(c[c.len() - 1] == (i as usize, r));
            }
        }
        if first_error(outcomes) is None {
            assert forall|i: int| 0 <= i < outcomes.len() implies !is_refusal(#[trigger] outcomes[i]) by {
                if i < k {
                    assert(prev[i] == outcomes[i]);
                }
            }
        }
        if forall|i: int| 0 <= i < outcomes.len() ==> !is_refusal(#[trigger] outcomes[i]) {
            assert forall|i: int| 0 <= i < prev.len() implies !is_refusal(#[trigger] prev[i]) by {
                assert(prev[i] == outcomes[i]);
                assert(!is_refusal(outcomes[i]));
            }
            assert(!is_refusal(outcomes[k]));
        }
        if first_error(outcomes) is Some {
            let e = first_error(outcomes)->Some_0;
            if first_error(prev) is Some {
                let i = choose|i: int|
                    0 <= i < prev.len() && prev[i] == Some(Err::<RpcResponse, RpcError>(e)) && forall|j: int|
                        0 <= j < i ==> !is_refusal(#[trigger] prev[j]);
                assert(outcomes[i] == prev[i]);
                assert forall|j: int| 0 <= j < i implies !is_refusal(#[trigger] outcomes[j]) by {
                    assert(prev[j] == outcomes[j]);
                }
            } else {
                assert forall|j: int| 0 <= j < k implies !is_refusal(#[trigger] outcomes[j]) by {
                    assert(prev[j] == outcomes[j]);
                    assert(!is_refusal(prev[j]));
                }
                assert(outcomes[k] == Some(Err::<RpcResponse, RpcError>(e)));
            }
        }
    }
}

proof fn lemma_split_sorted(outcomes: Seq<CallOutcome>)
    requires
        outcomes.len() <= usize::MAX,
    ensures
        forall|i: int| 0 <= i < forwarded_indices(outcomes).len() ==> #[trigger] forwarded_indices(outcomes)[i] < outcomes.len(),
        forall|i: int, j: int| 0 <= i < j < forwarded_indices(outcomes).len() ==> forwarded_indices(outcomes)[i] < forwarded_indices(outcomes)[j],
        forall|i: int| 0 <= i < intercepted_responses(outcomes).len() ==> (#[trigger] intercepted_responses(outcomes)[i]).0 < outcomes.len(),
        sorted_by_index(intercepted_responses(outcomes)),
    decreases outcomes.len(),
{
    if outcomes.len() > 0 {
        let prev = outcomes.drop_last();
        lemma_split_sorted(prev);
        let f = forwarded_indices(outcomes);
        let p = forwarded_indices(prev);
        if outcomes.last() is None {
            assert(f == p.push((outcomes.len() - 1) as usize));
            assert forall|i: int| 0 <= i < f.len() implies #[trigger] f[i] < outcomes.len() by {
                if i < p.len() {
                    assert(f[i] == p[i]);
                }
            }
            assert forall|i: int, j: int| 0 <= i < j < f.len() implies f[i] < f[j] by {
                assert(f[i] == p[i]);
                if j < p.len() {
                    assert(f[j] == p[j]);
                }
            }
        } else {
            assert(f == p);
        }
        let c = intercepted_responses(outcomes);
        let q = intercepted_responses(prev);
        if let Some(Ok(r)) = outcomes.last() {
            assert(c == q.push(((outcomes.len() - 1) as usize, r)));
            assert forall|i: int| 0 <= i < c.len() implies (#[trigger] c[i]).0 < outcomes.len() by {
                if i < q.len() {
                    assert(c[i] == q[i]);
                }
            }
            assert forall|i: int, j: int| 0 <= i <= j < c.len() implies c[i].0 <= c[j].0 by {
                if j < q.len() {
                    assert(c[i] == q[i]);
                    assert(c[j] == q[j]);
                } else if i < q.len() {
                    assert(c[i] == q[i]);
                }
            }
        } else {
            assert(c == q);
        }
    }
}

/// The responses of a batch come in the order of its calls: the numbers of
/// the merged responses are in order, and every response of the node and of
/// the proxy is among them.
pub proof fn lemma_batch_in_call_order(outcomes: Seq<CallOutcome>, forwarded: Seq<RpcResponse>)
    requires
        outcomes.len() <= usize::MAX,
    ensures
        ({
            let merged = merge_by_index(zip_seqs(forwarded_indices(outcomes), forwarded), intercepted_responses(outcomes));
            &&& sorted_by_index(merged)
            &&& merged.to_multiset() == zip_seqs(forwarded_indices(outcomes), forwarded).to_multiset().add(
                intercepted_responses(outcomes).to_multiset(),
            )
        }),
{
    lemma_split_sorted(outcomes);
    let z = zip_seqs(forwarded_indices(outcomes), forwarded);
    assert forall|i: int, j: int| 0 <= i <= j < z.len() implies z[i].0 <= z[j].0 by {
        if i < j {
            assert(forwarded_indices(outcomes)[i] < forwarded_indices(outcomes)[j]);
        }
    }
    lemma_merge_by_index(z, intercepted_responses(outcomes));
}

/// Merging keeps every item and, when both lists are ordered by number,
/// gives a list ordered by number: the responses of a batch come in the
/// order of its calls whenever each part came back in order.
pub proof fn lemma_merge_by_index<T>(a: Seq<(usize, T)>, b: Seq<(usize, T)>)
    ensures
        merge_by_index(a, b).len() == a.len() + b.len(),
        merge_by_index(a, b).to_multiset() == a.to_multiset().add(b.to_multiset()),
        sorted_by_index(a) && sorted_by_index(b) ==> sorted_by_index(merge_by_index(a, b)),
    decreases a.len() + b.len(),
{
    broadcast use vstd::seq_lib::group_to_multiset_ensures, vstd::multiset::group_multiset_axioms;
    let m = merge_by_index(a, b);
    if a.len() == 0 {
        assert(a.to_multiset() =~= vstd::multiset::Multiset::empty());
        assert(m.to_multiset() =~= a.to_multiset().add(b.to_multiset()));
    } else if b.len() == 0 {
        assert(b.to_multiset() =~= vstd::multiset::Multiset::empty());
        assert(m.to_multiset() =~= a.to_multiset().add(b.to_multiset()));
    } else if a[0].0 < b[0].0 {
        let rest = merge_by_index(a.drop_first(), b);
        lemma_merge_by_index(a.drop_first(), b);
        vstd::seq_lib::lemma_multiset_commutative(seq![a[0]], rest);
        vstd::seq_lib::lemma_multiset_commutative(seq![a[0]], a.drop_first());
        assert(seq![a[0]] + a.drop_first() =~= a);
        assert(m.to_multiset() =~= a.to_multiset().add(b.to_multiset()));
        if sorted_by_index(a) && sorted_by_index(b) {
            assert forall|i: int, j: int| 0 <= i <= j < m.len() implies m[i].0 <= m[j].0 by {
                if i == 0 && j > 0 {
                    let x = rest[j - 1];
                    assert(rest.to_multiset().contains(x));
                    assert(rest.contains(x));
                    if a.drop_first().to_multiset().contains(x) {
                        assert(a.drop_first().contains(x));
                        let t = choose|t: int| 0 <= t < a.drop_first().len() && a.drop_first()[t] == x;
                        assert(a[t + 1] == x);
                    } else {
                        assert(b.to_multiset().contains(x));
                        assert(b.contains(x));
                        let t = choose|t: int| 0 <= t < b.len() && b[t] == x;
                        assert(b[0].0 <= b[t].0);
                    }
                }
            }
        }
    } else {
        let rest = merge_by_index(a, b.drop_first());
        lemma_merge_by_index(a, b.drop_first());
        vstd::seq_lib::lemma_multiset_commutative(seq![b[0]], rest);
        vstd::seq_lib::lemma_multiset_commutative(seq![b[0]], b.drop_first());
        assert(seq![b[0]] + b.drop_first() =~= b);
        assert(m.to_multiset() =~= a.to_multiset().add(b.to_multiset()));
        if sorted_by_index(a) && sorted_by_index(b) {
            assert forall|i: int, j: int| 0 <= i <= j < m.len() implies m[i].0 <= m[j].0 by {
                if i == 0 && j > 0 {
                    let x = rest[j - 1];
                    assert(rest.to_multiset().contains(x));
                    assert(rest.contains(x));
                    if a.to_multiset().contains(x) {
                        assert(a.contains(x));
                        let t = choose|t: int| 0 <= t < a.len() && a[t] == x;
                        assert(a[0].0 <= a[t].0);
                    } else {
                        assert(b.drop_first().to_multiset().contains(x));
                        assert(b.drop_first().contains(x));
                        let t = choose|t: int| 0 <= t < b.drop_first().len() && b.drop_first()[t] == x;
                        assert(b[t + 1] == x);
                    }
                }
            }
        }
    }
}

/// How the proxy authenticates itself to the node: with a fixed user and
/// password, or with the cookie file that the node writes.
#[derive(Debug)]
pub enum AuthSource<P> {
    Const { username: String, password: String, header: String },
    CookieFile { path: P },
}

/// Configurations of the node's credentials that the proxy refuses.
#[derive(Copy, Clone, Debug, PartialEq, Eq, Structural)]
pub enum AuthConfigError {
    /// Neither credentials nor a cookie file.
    Missing,
    /// Credentials that are incomplete, or given together with a cookie file.
    Ambiguous,
}

impl AuthConfigError {
    pub open spec fn spec_message(self) -> Seq<char> {
        match self {
            AuthConfigError::Missing => "missing authentication information"@,
            AuthConfigError::Ambiguous => "either a password and possibly a username or a cookie file must be specified"@,
        }
    }

    pub fn message(&self) -> (res: &'static str)
        ensures
            res@ == self.spec_message(),
    {
        match self {
            AuthConfigError::Missing => "missing authentication information",
            AuthConfigError::Ambiguous => "either a password and possibly a username or a cookie file must be specified",
        }
    }
}

/// The bytes of `Basic ` read as text.
proof fn lemma_basic_prefix_text()
    ensures
        "Basic "@ == ascii_text(basic_prefix()),
{
    reveal_strlit("Basic ");
    assert("Basic "@ =~= ascii_text(basic_prefix()));
}

/// A header of basic authentication for some bytes, as the text that goes
/// to the node.
fn basic_header(credentials: &[u8]) -> (res: String)
    ensures
        res@ == ascii_text(basic_prefix() + base64_std(credentials@)),
        header_credentials(ascii_bytes(res@)) == (if vstd::utf8::valid_utf8(credentials@) {
            split_credentials(vstd::utf8::decode_utf8(credentials@))
        } else {
            None
        }),
{
    let encoded = base64_encode(credentials);
    let prefix = String::from_str("Basic ");
    let res = prefix.concat(encoded.as_str());
    proof {
        lemma_basic_prefix_text();
        let b = basic_prefix() + base64_std(credentials@);
        assert(res@ =~= ascii_text(b));
        lemma_ascii_roundtrip(b);
        lemma_ascii_roundtrip(base64_std(credentials@));
        lemma_base64_std_visible(credentials@);
        assert(ascii_bytes(res@) == b);
        assert(b.take(6) =~= basic_prefix());
        assert(b.skip(6) =~= base64_std(credentials@));
        assert(ascii_bytes(encoded@) == base64_std(credentials@));
    }
    res
}

/// The credentials a header carries: the user, a colon, the password.
pub open spec fn credentials_text(username: Seq<char>, password: Seq<char>) -> Seq<char> {
    username + seq![':'] + password
}

/// The contents of a cookie file without its final line feed, if it ends
/// with one.
pub open spec fn trim_final_newline(text: Seq<char>) -> Seq<char> {
    if text.len() > 0 && text.last() == '\n' {
        text.drop_last()
    } else {
        text
    }
}

impl<P> AuthSource<P> {
    /// The node's credentials from the configuration: a user and a password,
    /// or a cookie file; not both, and not nothing.
    pub fn from_config(user: Option<String>, password: Option<String>, file: Option<P>) -> (res: Result<AuthSource<P>, AuthConfigError>)
        ensures
            match (user, password, file) {
                (Some(u), Some(p), None) => res matches Ok(AuthSource::Const { username, password, header }) && {
                    &&& username == u
                    &&& password == p
                    &&& header@ == ascii_text(basic_prefix() + base64_std(encode_utf8(credentials_text(u@, p@))))
                    &&& header_credentials(ascii_bytes(header@)) == split_credentials(credentials_text(u@, p@))
                },
                (None, None, Some(f)) => res == Ok::<AuthSource<P>, AuthConfigError>(AuthSource::CookieFile { path: f }),
                (None, None, None) => res == Err::<AuthSource<P>, AuthConfigError>(AuthConfigError::Missing),
                _ => res == Err::<AuthSource<P>, AuthConfigError>(AuthConfigError::Ambiguous),
            },
    {
        match (user, password, file) {
            (Some(username), Some(password), None) => {
                let credentials = String::from_str(username.as_str()).concat(":").concat(password.as_str());
                proof {
                    reveal_strlit(":");
                    assert(credentials@ =~= credentials_text(username@, password@));
                    encode_utf8_valid_utf8(credentials@);
                    encode_utf8_decode_utf8(credentials@);
                }
                let header = basic_header(credentials.as_str().as_bytes());
                Ok(AuthSource::Const { username, password, header })
            },
            (None, None, Some(cookie_file)) => Ok(AuthSource::CookieFile { path: cookie_file }),
            (None, None, None) => Err(AuthConfigError::Missing),
            _ => Err(AuthConfigError::Ambiguous),
        }
    }
}

/// Reading the node's cookie file drops one final line feed and nothing
/// else: a text with a line feed added reads as the text, and a text that
/// does not end in a line feed reads as itself.
pub proof fn lemma_cookie_drops_one_final_newline(text: Seq<char>)
    ensures
        trim_final_newline(text.push('\n')) == text,
        (text.len() == 0 || text.last() != '\n') ==> trim_final_newline(text) == text,
{
    assert(text.push('\n').drop_last() =~= text);
}

/// The header for the contents of the node's cookie file: its final line
/// feed dropped, the rest in Base64 after `Basic `.
pub fn cookie_header(cookie: &str) -> (res: String)
    ensures
        res@ == ascii_text(basic_prefix() + base64_std(encode_utf8(trim_final_newline(cookie@)))),
{
    let len = cookie.unicode_len();
    let trimmed = if len > 0 && cookie.get_char(len - 1) == '\n' {
        cookie.substring_char(0, len - 1)
    } else {
        cookie
    };
    assert(trimmed@ =~= trim_final_newline(cookie@));
    basic_header(trimmed.as_bytes())
}

/// The header read from the cookie file when the file was last modified at
/// the given time: whether the time is at or after 1970, and its distance
/// from 1970 in seconds and nanoseconds.
#[derive(Debug)]
pub struct CachedHeader {
    pub modified: (bool, u64, u32),
    pub header: String,
}

/// The cached header, if the cookie file has not been modified since it was
/// read; otherwise the file must be read again.
pub fn cached_header(cache: &Option<CachedHeader>, modified: (bool, u64, u32)) -> (res: Option<&String>)
    ensures
        match cache {
            Some(c) => if c.modified == modified {
                res == Some(&c.header)
            } else {
                res is None
            },
            None => res is None,
        },
{
    match cache {
        Some(c) => if c.modified.0 == modified.0 && c.modified.1 == modified.1 && c.modified.2 == modified.2 {
            Some(&c.header)
        } else {
            None
        },
        None => None,
    }
}
} // verus!
