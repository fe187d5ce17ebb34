//! How the proxy answers an HTTP request before any call is made: which
//! paths it serves, which HTTP method it takes, and who may call.
use vstd::prelude::*;

use crate::client::{RpcError, RpcResponse, PARSE_ERROR_CODE};
use crate::error::RequestError;
use crate::users::{authenticated, User, Users};
use crate::util::str_eq;

verus! {

pub const NOT_FOUND_STATUS: u16 = 404;

pub const METHOD_NOT_ALLOWED_STATUS: u16 = 405;

pub const UNAUTHORIZED_STATUS: u16 = 401;

/// The body of the answer to a request that is not a `POST`.
pub const METHOD_NOT_ALLOWED_BODY: &'static str = "JSONRPC server handles only POST requests";

/// The `WWW-Authenticate` header of the answer to a request that does not
/// authenticate.
pub const WWW_AUTHENTICATE_VALUE: &'static str = "Basic realm=\"jsonrpc\"";

/// Where an HTTP request goes.
#[derive(Debug)]
pub enum Route<'a> {
    /// A path that the proxy does not serve: 404 with an empty body.
    NotFound,
    /// Not a `POST`: 405 with `METHOD_NOT_ALLOWED_BODY`.
    MethodNotAllowed,
    /// No user is authenticated: 401 with `WWW_AUTHENTICATE_VALUE`.
    Unauthorized,
    /// The calls of the body are made as this user.
    Authorized { name: String, user: &'a User },
}

/// The paths of the node's RPC interface: the root, and the wallet paths.
pub open spec fn is_rpc_path(path: Seq<char>) -> bool {
    path == "/"@ || path == ""@ || (path.len() >= 8 && path.take(8) == "/wallet/"@)
}

/// The proxy serves the root (written `/` or empty) and every path under
/// `/wallet/`, and no path that does not start with `/`.
pub proof fn lemma_served_paths(rest: Seq<char>, path: Seq<char>)
    ensures
        is_rpc_path("/"@),
        is_rpc_path(""@),
        is_rpc_path("/wallet/"@ + rest),
        path.len() > 0 && path[0] != '/' ==> !is_rpc_path(path),
        path.len() > 1 && path[0] == '/' && path[1] != 'w' ==> !is_rpc_path(path),
{
    reveal_strlit("/");
    reveal_strlit("");
    reveal_strlit("/wallet/");
    assert(("/wallet/"@ + rest).take(8) =~= "/wallet/"@);
    if path.len() > 0 && path[0] != '/' {
        assert(path != "/"@);
        if path.len() >= 8 {
            assert(path.take(8)[0] != "/wallet/"@[0]);
        }
    }
    if path.len() > 1 && path[0] == '/' && path[1] != 'w' {
        assert(path.len() != "/"@.len());
        if path.len() >= 8 {
            assert(path.take(8)[1] != "/wallet/"@[1]);
        }
    }
}

impl<'a> Route<'a> {
    /// The HTTP status of the answer, where the proxy answers itself.
    pub fn status(&self) -> (res: Option<u16>)
        ensures
            match *self {
                Route::NotFound => res == Some(NOT_FOUND_STATUS),
                Route::MethodNotAllowed => res == Some(METHOD_NOT_ALLOWED_STATUS),
                Route::Unauthorized => res == Some(UNAUTHORIZED_STATUS),
                Route::Authorized { .. } => res is None,
            },
    {
        match self {
            Route::NotFound => Some(NOT_FOUND_STATUS),
            Route::MethodNotAllowed => Some(METHOD_NOT_ALLOWED_STATUS),
            Route::Unauthorized => Some(UNAUTHORIZED_STATUS),
            Route::Authorized { .. } => None,
        }
    }
}

/// Whether a path belongs to the node's RPC interface.
pub fn rpc_path(path: &str) -> (res: bool)
    ensures
        res == is_rpc_path(path@),
{
    let len = path.unicode_len();
    if str_eq(path, "/") || str_eq(path, "") {
        return true;
    }
    if len < 8 {
        return false;
    }
    str_eq(path.substring_char(0, 8), "/wallet/")
}

/// Where a request goes: a path outside the RPC interface is not found
/// whatever else it carries; then only `POST` is taken; then the
/// `Authorization` header must authenticate a user.
pub fn route<'a>(path: &str, is_post: bool, auth: Option<&[u8]>, users: &'a Users) -> (res: Route<'a>)
    ensures
        !is_rpc_path(path@) ==> res is NotFound,
        is_rpc_path(path@) && !is_post ==> res is MethodNotAllowed,
        is_rpc_path(path@) && is_post ==> match auth {
            Some(a) => match authenticated(users@, a@) {
                Some(name) => res matches Route::Authorized { name: n, user } && n@ == name && users@[name] == user@,
                None => res is Unauthorized,
            },
            None => res is Unauthorized,
        },
{
    if !rpc_path(path) {
        return Route::NotFound;
    }
    if !is_post {
        return Route::MethodNotAllowed;
    }
    match auth {
        Some(a) => match users.get(a) {
            Some((name, user)) => Route::Authorized { name, user },
            None => Route::Unauthorized,
        },
        None => Route::Unauthorized,
    }
}

/// The answer to a body that is not a JSON-RPC request.
pub fn bad_request_response(e: &RequestError) -> (res: RpcResponse)
    ensures
        res.id is None,
        res.result is None,
        res.error matches Some(err) && err.code == PARSE_ERROR_CODE && err.status is None && err.message@ == e.spec_message(),
{
    RpcResponse::from(RpcError::parse_error(e.message()))
}

} // verus!
