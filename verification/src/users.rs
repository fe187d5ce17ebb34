//! The users of the proxy: who is authenticated by a request, and what a
//! user's call is answered with.
use vstd::prelude::*;
use vstd::utf8::*;

use crate::client::{RpcError, RpcMethod, RpcRequest, RpcResponse, METHOD_NOT_ALLOWED_ERROR_CODE, METHOD_NOT_ALLOWED_ERROR_MESSAGE, MISC_ERROR_CODE, PRUNE_ERROR_MESSAGE};
use crate::encoding::{hex_encode, hex_lower, all_visible_ascii, base64_decode, base64_decoded, base64_std, is_visible_ascii, str_from_utf8};
use crate::block::{block_hash_from_str, block_hash_from_text, block_size, block_size_of, block_stripped_size, block_stripped_size_of, block_txids, block_txids_of, block_weight, block_weight_of};
use crate::error::{Expected, Problem};
use crate::json::{JsonNumber, JsonValue};
use crate::rpc_methods::{GetBlock, GetBlockchainInfo};
use crate::util::str_eq;

pub mod input;

verus! {

/// A user of the proxy.
#[derive(Debug)]
pub struct User {
    pub password: String,
    /// The methods the user may call.
    pub allowed_calls: Vec<String>,
    /// Whether blocks that the node pruned are fetched from peers for the
    /// user.
    pub fetch_blocks: bool,
}

/// A user as the contracts see it: the methods form a set.
pub struct UserView {
    pub password: Seq<char>,
    pub allowed_calls: Set<Seq<char>>,
    pub fetch_blocks: bool,
}

/// The texts of a list of strings.
pub open spec fn texts(v: Seq<String>) -> Seq<Seq<char>> {
    v.map_values(|s: String| s@)
}

impl View for User {
    type V = UserView;

    open spec fn view(&self) -> UserView {
        UserView {
            password: self.password@,
            allowed_calls: texts(self.allowed_calls@).to_set(),
            fetch_blocks: self.fetch_blocks,
        }
    }
}

/// The users by name; where a name occurs twice, the later entry counts.
pub open spec fn users_map(entries: Seq<(String, User)>) -> Map<Seq<char>, UserView>
    decreases entries.len(),
{
    if entries.len() == 0 {
        Map::empty()
    } else {
        users_map(entries.drop_last()).insert(entries.last().0@, entries.last().1@)
    }
}

/// The user entered last under a name.
pub open spec fn last_user(entries: Seq<(String, User)>, name: Seq<char>) -> Option<User>
    decreases entries.len(),
{
    if entries.len() == 0 {
        None
    } else if entries.last().0@ == name {
        Some(entries.last().1)
    } else {
        last_user(entries.drop_last(), name)
    }
}

proof fn lemma_users_map_last_user(entries: Seq<(String, User)>, name: Seq<char>)
    ensures
        users_map(entries).contains_key(name) <==> last_user(entries, name) is Some,
        last_user(entries, name) matches Some(u) ==> users_map(entries)[name] == u@,
    decreases entries.len(),
{
    if entries.len() > 0 {
        lemma_users_map_last_user(entries.drop_last(), name);
    }
}

/// The users of the proxy, by name.
#[derive(Debug)]
pub struct Users {
    entries: Vec<(String, User)>,
}

impl View for Users {
    type V = Map<Seq<char>, UserView>;

    closed spec fn view(&self) -> Map<Seq<char>, UserView> {
        users_map(self.entries@)
    }
}

/// The bytes of `Basic ` that start a header of basic authentication.
pub open spec fn basic_prefix() -> Seq<u8> {
    seq![66u8, 97u8, 115u8, 105u8, 99u8, 32u8]
}

/// The text up to the first colon.
pub open spec fn until_colon(text: Seq<char>) -> Seq<char>
    decreases text.len(),
{
    if text.len() == 0 {
        text
    } else if text[0] == ':' {
        seq![]
    } else {
        seq![text[0]] + until_colon(text.drop_first())
    }
}

/// Name and password, split at colons: the name is what comes before the
/// first colon, the password what comes between it and the next colon, if
/// any. A text without a colon holds no password.
pub open spec fn split_credentials(text: Seq<char>) -> Option<(Seq<char>, Seq<char>)> {
    let name = until_colon(text);
    if name.len() < text.len() {
        Some((name, until_colon(text.skip(name.len() as int + 1))))
    } else {
        None
    }
}

/// The name and password that an `Authorization` header gives: a header of
/// visible ASCII that starts with `Basic ` and goes on with Base64 of UTF-8
/// text.
pub open spec fn header_credentials(header: Seq<u8>) -> Option<(Seq<char>, Seq<char>)> {
    if all_visible_ascii(header) && header.len() >= 6 && header.take(6) == basic_prefix() {
        match base64_decoded(header.skip(6)) {
            Some(bytes) => if valid_utf8(bytes) {
                split_credentials(decode_utf8(bytes))
            } else {
                None
            },
            None => None,
        }
    } else {
        None
    }
}

/// The header of basic authentication for a name and a password.
pub open spec fn basic_auth_header(name: Seq<char>, password: Seq<char>) -> Seq<u8> {
    basic_prefix() + base64_std(encode_utf8(name + seq![':'] + password))
}

pub(crate) proof fn lemma_until_colon(text: Seq<char>, k: int)
    requires
        0 <= k <= text.len(),
        forall|j: int| 0 <= j < k ==> text[j] != ':',
        k == text.len() || text[k] == ':',
    ensures
        until_colon(text) == text.take(k),
    decreases text.len(),
{
    if text.len() > 0 && k > 0 {
        lemma_until_colon(text.drop_first(), k - 1);
        assert(seq![text[0]] + text.drop_first().take(k - 1) =~= text.take(k));
    } else if text.len() > 0 {
        assert(text.take(0) =~= seq![]);
    } else {
        assert(text.take(k) =~= text);
    }
}

/// The position of the first colon of a text at or after `from`, or its
/// length if there is none.
pub(crate) fn find_colon(text: &str, from: usize, len: usize) -> (res: usize)
    requires
        len == text@.len(),
        from <= len,
    ensures
        from <= res <= len,
        forall|j: int| from <= j < res ==> text@[j] != ':',
        res == len || text@[res as int] == ':',
{
    let mut i = from;
    while i < len
        invariant
            from <= i <= len,
            len == text@.len(),
            forall|j: int| from <= j < i ==> text@[j] != ':',
        decreases len - i,
    {
        if text.get_char(i) == ':' {
            return i;
        }
        i = i + 1;
    }
    i
}

/// Splits a text into name and password as `split_credentials` states.
fn credentials_of(text: &str) -> (res: Option<(&str, &str)>)
    ensures
        match split_credentials(text@) {
            Some((name, password)) => res matches Some((n, p)) && n@ == name && p@ == password,
            None => res is None,
        },
{
    let len = text.unicode_len();
    let k = find_colon(text, 0, len);
    proof {
        lemma_until_colon(text@, k as int);
    }
    if k == len {
        return None;
    }
    let name = text.substring_char(0, k);
    let k2 = find_colon(text, k + 1, len);
    proof {
        let rest = text@.skip(k + 1);
        assert forall|j: int| 0 <= j < k2 - k - 1 implies rest[j] != ':' by {
            assert(rest[j] == text@[j + k + 1]);
        }
        lemma_until_colon(rest, k2 - k - 1);
        assert(rest.take(k2 - k - 1) =~= text@.subrange(k + 1, k2 as int));
    }
    let password = text.substring_char(k + 1, k2);
    Some((name, password))
}

/// The name of the user that a header authenticates among the given users.
pub open spec fn authenticated(users: Map<Seq<char>, UserView>, header: Seq<u8>) -> Option<Seq<char>> {
    match header_credentials(header) {
        Some((name, password)) => if users.contains_key(name) && users[name].password == password {
            Some(name)
        } else {
            None
        },
        None => None,
    }
}

/// A text without a colon.
pub open spec fn colon_free(text: Seq<char>) -> bool {
    forall|i: int| 0 <= i < text.len() ==> text[i] != ':'
}

/// Name and password joined by a colon are split into the same name and
/// password, as long as neither holds a colon.
pub proof fn lemma_split_credentials(name: Seq<char>, password: Seq<char>)
    requires
        colon_free(name),
        colon_free(password),
    ensures
        split_credentials(name + seq![':'] + password) == Some((name, password)),
{
    let text = name + seq![':'] + password;
    assert forall|j: int| 0 <= j < name.len() implies text[j] != ':' by {
        assert(text[j] == name[j]);
    }
    lemma_until_colon(text, name.len() as int);
    assert(text.take(name.len() as int) =~= name);
    assert(text.skip(name.len() as int + 1) =~= password);
    lemma_until_colon(password, password.len() as int);
    assert(password.take(password.len() as int) =~= password);
}

/// A header that carries the credentials of a name and a password, as the
/// header that `AuthSource::from_config` makes of them, authenticates
/// exactly the user of that name when the password is that user's, and no
/// one otherwise.
pub proof fn lemma_credentials_authenticate(
    users: Map<Seq<char>, UserView>,
    header: Seq<u8>,
    name: Seq<char>,
    password: Seq<char>,
)
    requires
        header_credentials(header) == split_credentials(name + seq![':'] + password),
        colon_free(name),
        colon_free(password),
    ensures
        authenticated(users, header) == (if users.contains_key(name) && users[name].password == password {
            Some(name)
        } else {
            None
        }),
{
    lemma_split_credentials(name, password);
}

/// A request authenticates with the header `Basic ` followed by Base64
/// text that decodes to `name:password` in UTF-8: it is let in as `name`
/// exactly when that user exists and has that password, for any name and
/// password without colons.
pub proof fn lemma_basic_header_authenticates(
    users: Map<Seq<char>, UserView>,
    encoded: Seq<u8>,
    name: Seq<char>,
    password: Seq<char>,
)
    requires
        all_visible_ascii(encoded),
        base64_decoded(encoded) == Some(encode_utf8(name + seq![':'] + password)),
        colon_free(name),
        colon_free(password),
    ensures
        authenticated(users, seq![66u8, 97u8, 115u8, 105u8, 99u8, 32u8] + encoded) == (if users.contains_key(name)
            && users[name].password == password {
            Some(name)
        } else {
            None
        }),
{
    let header = seq![66u8, 97u8, 115u8, 105u8, 99u8, 32u8] + encoded;
    assert(header.take(6) =~= basic_prefix());
    assert(header.skip(6) =~= encoded);
    assert forall|i: int| 0 <= i < header.len() implies is_visible_ascii(#[trigger] header[i]) by {
        if i >= 6 {
            assert(header[i] == encoded[i - 6]);
        }
    }
    let text = name + seq![':'] + password;
    encode_utf8_valid_utf8(text);
    encode_utf8_decode_utf8(text);
    lemma_split_credentials(name, password);
}

impl Users {
    /// No users.
    pub fn new() -> (res: Users)
        ensures
            res@ == Map::<Seq<char>, UserView>::empty(),
    {
        Users { entries: Vec::new() }
    }

    /// Enters a user under a name, in place of any user of that name.
    pub fn insert(&mut self, name: String, user: User)
        ensures
            final(self)@ == old(self)@.insert(name@, user@),
    {
        self.entries.push((name, user));
        proof {
            assert(self.entries@.drop_last() =~= old(self).entries@);
        }
    }

    /// The user of a name.
    pub fn user(&self, name: &str) -> (res: Option<&User>)
        ensures
            match res {
                Some(u) => self@.contains_key(name@) && self@[name@] == u@,
                None => !self@.contains_key(name@),
            },
    {
        let ghost entries = self.entries@;
        let mut i = self.entries.len();
        assert(entries.take(i as int) =~= entries);
        while i > 0
            invariant
                entries == self.entries@,
                i <= entries.len(),
                last_user(entries, name@) == last_user(entries.take(i as int), name@),
            decreases i,
        {
            let ghost prefix = entries.take(i as int);
            assert(prefix.drop_last() =~= entries.take(i - 1));
            if str_eq(self.entries[i - 1].0.as_str(), name) {
                proof {
                    lemma_users_map_last_user(entries, name@);
                }
                return Some(&self.entries[i - 1].1);
            }
            i = i - 1;
        }
        proof {
            assert(entries.take(0) =~= Seq::<(String, User)>::empty());
            lemma_users_map_last_user(entries, name@);
        }
        None
    }

    /// The user that a request authenticates as, by the value of its
    /// `Authorization` header: the name and password must be those of a user.
    pub fn get(&self, auth: &[u8]) -> (res: Option<(String, &User)>)
        ensures
            match res {
                Some((n, u)) => authenticated(self@, auth@) == Some(n@) && u@ == self@[n@],
                None => authenticated(self@, auth@) is None,
            },
            match header_credentials(auth@) {
                Some((name, password)) => if self@.contains_key(name) && self@[name].password == password {
                    res matches Some((n, u)) && n@ == name && u@ == self@[name]
                } else {
                    res is None
                },
                None => res is None,
            },
    {
        let n = auth.len();
        let mut i: usize = 0;
        while i < n
            invariant
                n == auth@.len(),
                i <= n,
                forall|j: int| 0 <= j < i ==> is_visible_ascii(#[trigger] auth@[j]),
            decreases n - i,
        {
            let b = auth[i];
            if !((32 <= b && b < 127) || b == 9) {
                return None;
            }
            i = i + 1;
        }
        if n < 6 || auth[0] != 66 || auth[1] != 97 || auth[2] != 115 || auth[3] != 105 || auth[4] != 99
            || auth[5] != 32 {
            proof {
                if n >= 6 {
                    assert(auth@.take(6) != basic_prefix()) by {
                        assert(auth@.take(6)[0] == auth@[0]);
                        assert(auth@.take(6)[1] == auth@[1]);
                        assert(auth@.take(6)[2] == auth@[2]);
                        assert(auth@.take(6)[3] == auth@[3]);
                        assert(auth@.take(6)[4] == auth@[4]);
                        assert(auth@.take(6)[5] == auth@[5]);
                    }
                }
            }
            return None;
        }
        assert(auth@.take(6) =~= basic_prefix());
        let mut encoded: Vec<u8> = Vec::new();
        let mut k: usize = 6;
        while k < n
            invariant
                n == auth@.len(),
                6 <= k <= n,
                encoded@ == auth@.subrange(6, k as int),
            decreases n - k,
        {
            encoded.push(auth[k]);
            assert(encoded@ =~= auth@.subrange(6, k + 1));
            k = k + 1;
        }
        assert(encoded@ =~= auth@.skip(6));
        let decoded = match base64_decode(encoded.as_slice()) {
            Some(d) => d,
            None => return None,
        };
        let text = match str_from_utf8(decoded.as_slice()) {
            Some(t) => t,
            None => return None,
        };
        let (name, password) = match credentials_of(text) {
            Some(p) => p,
            None => return None,
        };
        match self.user(name) {
            Some(user) => {
                if str_eq(user.password.as_str(), password) {
                    Some((name.to_owned(), user))
                } else {
                    None
                }
            },
            None => None,
        }
    }
}


/// What the proxy does with a call that the user may make.
#[derive(Copy, Clone, Debug, PartialEq, Eq, Structural)]
pub enum InterceptPlan {
    /// The node answers the call.
    Forward,
    /// The proxy answers `getblock` with the raw block in hexadecimal,
    /// fetching it from peers if the node pruned it.
    FetchRawBlock,
    /// The proxy answers `getblock` with the decoded block, fetching it from
    /// peers if the node pruned it.
    FetchVerboseBlock,
    /// The node answers `getblockchaininfo`, and the proxy reports the node
    /// as not pruned.
    ForwardUnpruned,
}

/// The verbosity that a `getblock` call asks for: its second parameter, or 1
/// without one; `None` where that is not a non-negative integer.
pub open spec fn getblock_verbosity(params: Seq<JsonValue>) -> Option<u64> {
    if params.len() > 1 {
        params[1].spec_as_u64()
    } else {
        Some(1u64)
    }
}

/// What the proxy does with a call the user may make.
pub open spec fn intercept_plan_for(fetch_blocks: bool, method: Seq<char>, params: Seq<JsonValue>) -> InterceptPlan {
    if fetch_blocks && method == GetBlock.spec_name() {
        match getblock_verbosity(params) {
            Some(0) => InterceptPlan::FetchRawBlock,
            Some(1) => InterceptPlan::FetchVerboseBlock,
            _ => InterceptPlan::Forward,
        }
    } else if fetch_blocks && method == GetBlockchainInfo.spec_name() {
        InterceptPlan::ForwardUnpruned
    } else {
        InterceptPlan::Forward
    }
}

/// What the proxy does with an allowed call, stated over the call itself:
/// a user without `fetch_blocks` has every call forwarded; with it, the
/// proxy answers `getblock` itself exactly when the second parameter is 0
/// (raw) or is 1 or absent (decoded), and passes `getblockchaininfo` on as
/// unpruned; everything else is forwarded.
pub proof fn lemma_intercept_plan_law(fetch_blocks: bool, method: Seq<char>, params: Seq<JsonValue>)
    ensures
        !fetch_blocks ==> intercept_plan_for(fetch_blocks, method, params) == InterceptPlan::Forward,
        intercept_plan_for(fetch_blocks, method, params) == InterceptPlan::FetchRawBlock <==> (fetch_blocks && method
            == "getblock"@ && params.len() > 1 && params[1] == JsonValue::Number(JsonNumber::PosInt(0))),
        intercept_plan_for(fetch_blocks, method, params) == InterceptPlan::FetchVerboseBlock <==> (fetch_blocks && method
            == "getblock"@ && (params.len() <= 1 || params[1] == JsonValue::Number(JsonNumber::PosInt(1)))),
        intercept_plan_for(fetch_blocks, method, params) == InterceptPlan::ForwardUnpruned <==> (fetch_blocks && method
            == "getblockchaininfo"@),
{
    reveal_strlit("getblock");
    reveal_strlit("getblockchaininfo");
    assert("getblock"@.len() != "getblockchaininfo"@.len());
}

impl User {
    /// Whether the user may call a method.
    pub fn may_call(&self, method: &str) -> (res: bool)
        ensures
            res == self@.allowed_calls.contains(method@),
    {
        let n = self.allowed_calls.len();
        let mut i: usize = 0;
        while i < n
            invariant
                n == self.allowed_calls@.len(),
                i <= n,
                forall|j: int| 0 <= j < i ==> self.allowed_calls@[j]@ != method@,
            decreases n - i,
        {
            if str_eq(self.allowed_calls[i].as_str(), method) {
                assert(texts(self.allowed_calls@)[i as int] == method@);
                return true;
            }
            i = i + 1;
        }
        proof {
            if texts(self.allowed_calls@).to_set().contains(method@) {
                let j = choose|j: int| 0 <= j < texts(self.allowed_calls@).len() && texts(self.allowed_calls@)[j] == method@;
                assert(self.allowed_calls@[j]@ == method@);
            }
        }
        false
    }

    /// What the proxy does with a call of the user: a call of a method the
    /// user may not make is refused; the others are answered as
    /// `intercept_plan_for` states.
    pub fn intercept_plan(&self, req: &RpcRequest) -> (res: Result<InterceptPlan, RpcError>)
        ensures
            self@.allowed_calls.contains(req.method.0@) ==> res == Ok::<InterceptPlan, RpcError>(
                intercept_plan_for(self.fetch_blocks, req.method.0@, req.params@),
            ),
            !self@.allowed_calls.contains(req.method.0@) ==> (res matches Err(e) && e.code
                == METHOD_NOT_ALLOWED_ERROR_CODE && e.message@ == METHOD_NOT_ALLOWED_ERROR_MESSAGE@ && e.status
                == Some(403u16)),
            !self.fetch_blocks && self@.allowed_calls.contains(req.method.0@) ==> res == Ok::<InterceptPlan, RpcError>(
                InterceptPlan::Forward,
            ),
    {
        proof {
            lemma_intercept_plan_law(self.fetch_blocks, req.method.0@, req.params@);
        }
        let method = req.method.as_str();
        if !self.may_call(method) {
            return Err(RpcError::method_not_allowed());
        }
        if self.fetch_blocks && str_eq(method, GetBlock.as_str()) {
            let verbosity = if req.params.len() > 1 {
                req.params[1].as_u64()
            } else {
                Some(1)
            };
            match verbosity {
                Some(0) => Ok(InterceptPlan::FetchRawBlock),
                Some(1) => Ok(InterceptPlan::FetchVerboseBlock),
                _ => Ok(InterceptPlan::Forward),
            }
        } else if self.fetch_blocks && str_eq(method, GetBlockchainInfo.as_str()) {
            Ok(InterceptPlan::ForwardUnpruned)
        } else {
            Ok(InterceptPlan::Forward)
        }
    }
}

/// The answer to `getblock` with verbosity 0: the block's bytes in
/// hexadecimal.
pub fn raw_block_response(id: Option<JsonValue>, block: &[u8]) -> (res: RpcResponse)
    ensures
        res.id == id,
        res.error is None,
        res.result matches Some(JsonValue::String(s)) && s@ == hex_lower(block@),
{
    RpcResponse { id, result: Some(JsonValue::String(hex_encode(block))), error: None }
}

/// The answer to `getblock` when neither the node nor a peer has the block.
pub fn pruned_block_response(id: Option<JsonValue>) -> (res: RpcResponse)
    ensures
        res.id == id,
        res.result is None,
        res.error matches Some(e) && e.code == MISC_ERROR_CODE && e.message@ == PRUNE_ERROR_MESSAGE@ && e.status is None,
{
    RpcResponse { id, result: None, error: Some(RpcError::pruned()) }
}

/// A member of the node's answer to `getblockchaininfo`, with `pruned` set
/// to false.
pub open spec fn unpruned_member(m: (String, JsonValue)) -> (String, JsonValue) {
    if m.0@ == "pruned"@ {
        (m.0, JsonValue::Bool(false))
    } else {
        m
    }
}

/// Passing `getblockchaininfo` on changes only the member whose name is
/// exactly `pruned`, which becomes `false`; every other member keeps its
/// name and value, and the members keep their number and order.
pub proof fn lemma_unprune_changes_only_pruned(members: Seq<(String, JsonValue)>, out: Seq<(String, JsonValue)>)
    requires
        out == members.map_values(|m: (String, JsonValue)| unpruned_member(m)),
    ensures
        out.len() == members.len(),
        forall|i: int|
            0 <= i < members.len() ==> {
                &&& (#[trigger] out[i]).0 == members[i].0
                &&& members[i].0@ == "pruned"@ ==> out[i].1 == JsonValue::Bool(false)
                &&& members[i].0@ != "pruned"@ ==> out[i].1 == members[i].1
            },
{
}

/// The node's answer to `getblockchaininfo` as the proxy passes it on: a
/// result object has its `pruned` member set to false; all else is kept.
pub fn unprune(res: RpcResponse) -> (out: RpcResponse)
    ensures
        out.id == res.id,
        out.error == res.error,
        match res.result {
            Some(JsonValue::Object(members)) => out.result matches Some(JsonValue::Object(m2)) && m2@
                == members@.map_values(|m: (String, JsonValue)| unpruned_member(m)),
            other => out.result == other,
        },
        match res.result {
            Some(JsonValue::Object(members)) => out.result matches Some(JsonValue::Object(m2)) && {
                &&& m2@.len() == members@.len()
                &&& forall|i: int|
                    0 <= i < members@.len() ==> {
                        &&& (#[trigger] m2@[i]).0 == members@[i].0
                        &&& members@[i].0@ == "pruned"@ ==> m2@[i].1 == JsonValue::Bool(false)
                        &&& members@[i].0@ != "pruned"@ ==> m2@[i].1 == members@[i].1
                    }
            },
            _ => true,
        },
{
    proof {
        if res.result is Some && res.result->Some_0 is Object {
            let members = res.result->Some_0->Object_0@;
            lemma_unprune_changes_only_pruned(members, members.map_values(|m: (String, JsonValue)| unpruned_member(m)));
        }
    }
    let RpcResponse { id, error, result } = res;
    let result = match result {
        Some(JsonValue::Object(members)) => {
            let ghost all = members@;
            let mut rest = members;
            let mut out: Vec<(String, JsonValue)> = Vec::new();
            let n = rest.len();
            let mut i: usize = 0;
            while i < n
                invariant
                    n == all.len(),
                    i <= n,
                    rest@ == all.skip(i as int),
                    out@ == all.take(i as int).map_values(|m: (String, JsonValue)| unpruned_member(m)),
                decreases n - i,
            {
                let (key, value) = rest.remove(0);
                assert((key, value) == all[i as int]);
                proof {
                    reveal_strlit("pruned");
                }
                if str_eq(key.as_str(), "pruned") {
                    out.push((key, JsonValue::Bool(false)));
                } else {
                    out.push((key, value));
                }
                assert(out@ =~= all.take(i + 1).map_values(|m: (String, JsonValue)| unpruned_member(m)));
                assert(rest@ =~= all.skip(i + 1));
                i = i + 1;
            }
            assert(all.take(n as int) =~= all);
            Some(JsonValue::Object(out))
        },
        other => other,
    };
    RpcResponse { id, error, result }
}

/// The answer to `getblock` with verbosity 0 once the block was fetched:
/// the block in hexadecimal, the pruned-block error where neither the node
/// nor a peer had it, or the error that fetching met.
pub fn raw_block_answer(id: Option<JsonValue>, fetched: Result<Option<Vec<u8>>, RpcError>) -> (res: RpcResponse)
    ensures
        match fetched {
            Ok(Some(b)) => {
                &&& res.id == id
                &&& res.error is None
                &&& res.result matches Some(JsonValue::String(s)) && s@ == hex_lower(b@)
            },
            Ok(None) => {
                &&& res.id == id
                &&& res.result is None
                &&& res.error matches Some(e) && e.code == MISC_ERROR_CODE && e.message@ == PRUNE_ERROR_MESSAGE@
                    && e.status is None
            },
            Err(e) => res == (RpcResponse { id: None, error: Some(e), result: None }),
        },
{
    match fetched {
        Ok(Some(b)) => raw_block_response(id, b.as_slice()),
        Ok(None) => pruned_block_response(id),
        Err(e) => RpcResponse::from(e),
    }
}

/// The ids of transactions as JSON strings.
pub open spec fn txid_values(v: Seq<JsonValue>, ids: Seq<Seq<char>>) -> bool {
    &&& v.len() == ids.len()
    &&& forall|j: int| 0 <= j < v.len() ==> (#[trigger] v[j] matches JsonValue::String(t) && t@ == ids[j])
}

/// The members of the answer to `getblock` with verbosity 1: those of the
/// block's header as the node gave them, then the block's size, its size
/// without witness data and its weight, and the ids of its transactions.
pub open spec fn verbose_block_members(
    out: Seq<(String, JsonValue)>,
    header: Seq<(String, JsonValue)>,
    size: usize,
    stripped: usize,
    weight: usize,
    txids: Seq<Seq<char>>,
) -> bool {
    let h = header.len() as int;
    &&& out.len() == h + 4
    &&& out.take(h) == header
    &&& out[h].0@ == "size"@ && out[h].1 == JsonValue::Number(JsonNumber::PosInt(size as u64))
    &&& out[h + 1].0@ == "strippedsize"@ && out[h + 1].1 == JsonValue::Number(JsonNumber::PosInt(stripped as u64))
    &&& out[h + 2].0@ == "weight"@ && out[h + 2].1 == JsonValue::Number(JsonNumber::PosInt(weight as u64))
    &&& out[h + 3].0@ == "tx"@
    &&& out[h + 3].1 matches JsonValue::Array(v) && txid_values(v@, txids)
}

/// What the answer to `getblock` with verbosity 1 is, given the header the
/// node answered and the block's bytes: the header must be an object and
/// the bytes must encode a block.
pub open spec fn verbose_block_result(
    id: Option<JsonValue>,
    header: JsonValue,
    block: Seq<u8>,
    res: Result<RpcResponse, RpcError>,
) -> bool {
    match header {
        JsonValue::Object(members) => match (
            block_size_of(block),
            block_stripped_size_of(block),
            block_weight_of(block),
            block_txids_of(block),
        ) {
            (Some(size), Some(stripped), Some(weight), Some(txids)) => res matches Ok(r) && {
                &&& r.id == id
                &&& r.error is None
                &&& r.result matches Some(JsonValue::Object(out)) && verbose_block_members(
                    out@,
                    members@,
                    size,
                    stripped,
                    weight,
                    txids,
                )
            },
            _ => res matches Err(e) && e.code == MISC_ERROR_CODE && e.message@ == "invalid block data"@ && e.status is None,
        },
        _ => res matches Err(e) && e.code == MISC_ERROR_CODE && e.message@ == "unexpected response for getblockheader"@
            && e.status is None,
    }
}

/// The `tx` member of the verbose answer lists the ids of the block's
/// transactions in the block's order: item `j` is the id of transaction
/// `j`, the coinbase first; the size, stripped size and weight members
/// carry the block's.
pub proof fn lemma_verbose_block_lists_transactions_in_order(
    id: Option<JsonValue>,
    header: JsonValue,
    block: Seq<u8>,
    res: Result<RpcResponse, RpcError>,
)
    requires
        verbose_block_result(id, header, block, res),
        header is Object,
        block_txids_of(block) is Some,
        block_size_of(block) is Some,
        block_stripped_size_of(block) is Some,
        block_weight_of(block) is Some,
    ensures
        res matches Ok(r) && r.result matches Some(JsonValue::Object(out)) && {
            let h = header->Object_0@.len() as int;
            let ids = block_txids_of(block).unwrap();
            &&& out@.len() == h + 4
            &&& out@.take(h) == header->Object_0@
            &&& out@[h].0@ == "size"@
            &&& out@[h].1 == JsonValue::Number(JsonNumber::PosInt(block_size_of(block).unwrap() as u64))
            &&& out@[h + 1].0@ == "strippedsize"@
            &&& out@[h + 1].1 == JsonValue::Number(JsonNumber::PosInt(block_stripped_size_of(block).unwrap() as u64))
            &&& out@[h + 2].0@ == "weight"@
            &&& out@[h + 2].1 == JsonValue::Number(JsonNumber::PosInt(block_weight_of(block).unwrap() as u64))
            &&& out@[h + 3].0@ == "tx"@
            &&& out@[h + 3].1 matches JsonValue::Array(v) && v@.len() == ids.len() && forall|j: int|
                0 <= j < ids.len() ==> (#[trigger] v@[j] matches JsonValue::String(t) && t@ == ids[j])
        },
{
}

fn number(n: usize) -> (res: JsonValue)
    ensures
        res == JsonValue::Number(JsonNumber::PosInt(n as u64)),
{
    JsonValue::Number(JsonNumber::PosInt(n as u64))
}

/// The answer to `getblock` with verbosity 1 for a block that was fetched.
pub fn verbose_block_response(id: Option<JsonValue>, header: JsonValue, block: &[u8]) -> (res: Result<
    RpcResponse,
    RpcError,
>)
    ensures
        verbose_block_result(id, header, block@, res),
        res matches Ok(r) ==> (r.result matches Some(JsonValue::Object(out)) && {
            let ids = block_txids_of(block@).unwrap();
            &&& block_txids_of(block@) is Some
            &&& out@.len() >= 1
            &&& out@.last().0@ == "tx"@
            &&& (out@.last().1 matches JsonValue::Array(v) && {
                &&& v@.len() == ids.len()
                &&& forall|j: int| 0 <= j < ids.len() ==> (#[trigger] v@[j] matches JsonValue::String(t) && t@ == ids[j])
            })
        }),
{
    let mut members = match header {
        JsonValue::Object(members) => members,
        _ => return Err(RpcError::misc(String::from_str("unexpected response for getblockheader"))),
    };
    let (size, stripped, weight, txids) = match (
        block_size(block),
        block_stripped_size(block),
        block_weight(block),
        block_txids(block),
    ) {
        (Some(size), Some(stripped), Some(weight), Some(txids)) => (size, stripped, weight, txids),
        _ => return Err(RpcError::misc(String::from_str("invalid block data"))),
    };
    let ghost header_members = members@;
    let ghost ids = txids@.map_values(|t: String| t@);
    let mut tx: Vec<JsonValue> = Vec::new();
    let mut rest = txids;
    let n = rest.len();
    let mut i: usize = 0;
    while i < n
        invariant
            n == ids.len(),
            i <= n,
            rest@.map_values(|t: String| t@) == ids.skip(i as int),
            rest@.len() == n - i,
            tx@.len() == i,
            forall|j: int| 0 <= j < i ==> (#[trigger] tx@[j] matches JsonValue::String(t) && t@ == ids[j]),
        decreases n - i,
    {
        let ghost before = rest@;
        let t = rest.remove(0);
        proof {
            assert(before[0] == t);
            assert(before.map_values(|t: String| t@)[0] == t@);
            assert(rest@.map_values(|t: String| t@) =~= before.map_values(|t: String| t@).skip(1));
            assert(ids.skip(i as int)[0] == ids[i as int]);
            assert(ids.skip(i as int).skip(1) =~= ids.skip(i + 1));
        }
        tx.push(JsonValue::String(t));
        i = i + 1;
    }
    members.push((String::from_str("size"), number(size)));
    members.push((String::from_str("strippedsize"), number(stripped)));
    members.push((String::from_str("weight"), number(weight)));
    members.push((String::from_str("tx"), JsonValue::Array(tx)));
    assert(members@.take(header_members.len() as int) =~= header_members);
    Ok(RpcResponse { id, result: Some(JsonValue::Object(members)), error: None })
}

/// The answer to `getblock` with verbosity 1 once the header and the block
/// were fetched: the block's answer, the pruned-block error where neither
/// the node nor a peer had the block, or the error that fetching met.
pub fn verbose_block_answer(id: Option<JsonValue>, fetched: Result<(JsonValue, Option<Vec<u8>>), RpcError>) -> (res: Result<
    RpcResponse,
    RpcError,
>)
    ensures
        match fetched {
            Ok((header, Some(block))) => verbose_block_result(id, header, block@, res),
            Ok((_, None)) => res matches Ok(r) && {
                &&& r.id == id
                &&& r.result is None
                &&& r.error matches Some(e) && e.code == MISC_ERROR_CODE && e.message@ == PRUNE_ERROR_MESSAGE@
                    && e.status is None
            },
            Err(e) => res == Ok::<RpcResponse, RpcError>(RpcResponse { id: None, error: Some(e), result: None }),
        },
{
    match fetched {
        Ok((header, Some(block))) => verbose_block_response(id, header, block.as_slice()),
        Ok((_, None)) => Ok(pruned_block_response(id)),
        Err(e) => Ok(RpcResponse::from(e)),
    }
}

/// The block hash that a `getblock` call asks for: its first parameter,
/// which must be the hash as hexadecimal text; anything else is refused
/// with the reader's message.
pub fn getblock_hash_param(params: &Vec<JsonValue>) -> (res: Result<[u8; 32], RpcError>)
    requires
        params@.len() > 0,
    ensures
        match params@[0] {
            JsonValue::String(s) => match block_hash_from_text(s@) {
                Ok(h) => res matches Ok(r) && r@ == h,
                Err(t) => res matches Err(e) && e.code == MISC_ERROR_CODE && e.message@ == t && e.status is None,
            },
            other => res matches Err(e) && e.code == MISC_ERROR_CODE && e.message@ == Problem::InvalidType(
                other.spec_unexpected(),
                Expected::HashText,
            ).spec_text() && e.status is None,
        },
{
    match &params[0] {
        JsonValue::String(s) => match block_hash_from_str(s.as_str()) {
            Ok(h) => Ok(h),
            Err(t) => Err(RpcError::misc(t)),
        },
        other => Err(RpcError::misc(Problem::InvalidType(other.unexpected(), Expected::HashText).text())),
    }
}
} // verus!
