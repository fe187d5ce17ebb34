use btc_rpc_proxy::client::{
    assemble_batch, cached_header, split_batch, cookie_header, AuthConfigError, AuthSource, CachedHeader, RpcError, RpcRequest,
    RpcResponse, MISC_ERROR_CODE, PARSE_ERROR_CODE,
};
use btc_rpc_proxy::error::{BadRequest, InvalidType, RequestError};
use btc_rpc_proxy::json::{JsonNumber, JsonValue};
use btc_rpc_proxy::users::Users;
use btc_rpc_proxy::users::User;

fn s(text: &str) -> JsonValue {
    JsonValue::String(text.to_owned())
}

fn n(v: u64) -> JsonValue {
    JsonValue::Number(JsonNumber::PosInt(v))
}

fn obj(members: Vec<(&str, JsonValue)>) -> JsonValue {
    JsonValue::Object(members.into_iter().map(|(k, v)| (k.to_owned(), v)).collect())
}

#[test]
fn bad_request_messages() {
    assert_eq!(BadRequest::MissingMethod.message(), "missing field: method");
    assert_eq!(BadRequest::InvalidType(InvalidType::Object).message(), "invalid type: Object");
    let json_error = serde_json::from_str::<serde_json::Value>("{").unwrap_err();
    let text = json_error.to_string();
    assert_eq!(BadRequest::Json(json_error).message(), format!("failed to parse Json: {}", text));
    assert_eq!(RequestError::Json("EOF while parsing".to_owned()).message(), "EOF while parsing");
}

#[test]
fn response_status_and_result() {
    let ok = RpcResponse { id: None, error: None, result: Some(n(5)) };
    assert_eq!(ok.http_status(), 200);
    assert!(matches!(ok.into_result(), Ok(JsonValue::Number(JsonNumber::PosInt(5)))));
    let empty = RpcResponse { id: None, error: None, result: None };
    assert!(matches!(empty.into_result(), Ok(JsonValue::Null)));
    let forbidden = RpcResponse::from(RpcError::method_not_allowed());
    assert_eq!(forbidden.http_status(), 403);
    assert!(forbidden.id.is_none());
    let misc = RpcResponse::from(RpcError::misc("boom".to_owned()));
    assert_eq!(misc.http_status(), 500);
    let e = misc.into_result().unwrap_err();
    assert_eq!(e.code, MISC_ERROR_CODE);
    assert_eq!(e.message, "boom");
    let parse = RpcError::parse_error("bad".to_owned());
    assert_eq!(parse.code, PARSE_ERROR_CODE);
    let internal = RpcError::internal_server_error();
    assert_eq!(internal.message, "internal server error");
    assert_eq!(internal.status, Some(500));
}

#[test]
fn node_status_goes_to_errors() {
    let r = RpcResponse { id: Some(n(1)), error: Some(RpcError::misc("x".to_owned())), result: None };
    let r = r.with_node_status(404);
    assert_eq!(r.error.as_ref().unwrap().status, Some(404));
    assert_eq!(r.http_status(), 404);
    let ok = RpcResponse { id: None, error: None, result: None }.with_node_status(500);
    assert!(ok.error.is_none());
}

#[test]
fn answer_uses_request_id_for_errors() {
    let r = RpcResponse::answer(Some(n(3)), Err(RpcError::method_not_allowed()));
    assert!(matches!(r.id, Some(JsonValue::Number(JsonNumber::PosInt(3)))));
    assert_eq!(r.http_status(), 403);
    let inner = RpcResponse { id: None, error: None, result: Some(n(1)) };
    let r = RpcResponse::answer(Some(n(3)), Ok(inner));
    assert!(r.id.is_none());
}

#[test]
fn pruned_error_is_recognised() {
    assert!(RpcError::pruned().is_pruned());
    assert!(!RpcError::misc("other".to_owned()).is_pruned());
}

fn tagged(i: u64) -> RpcResponse {
    RpcResponse { id: Some(n(i)), error: None, result: None }
}

fn tag(r: &RpcResponse) -> u64 {
    match r.id {
        Some(JsonValue::Number(JsonNumber::PosInt(i))) => i,
        _ => panic!("untagged"),
    }
}

#[test]
fn batch_responses_in_call_order() {
    let res = assemble_batch(vec![0, 2, 3], vec![tagged(0), tagged(2), tagged(3)], vec![(1, tagged(1)), (4, tagged(4))]);
    let tags: Vec<u64> = res.iter().map(tag).collect();
    assert_eq!(tags, vec![0, 1, 2, 3, 4]);
}

#[test]
fn batch_drops_unmatched_forwarded() {
    let res = assemble_batch(vec![0, 1], vec![tagged(0)], vec![]);
    let tags: Vec<u64> = res.iter().map(tag).collect();
    assert_eq!(tags, vec![0]);
}

#[test]
fn batch_merge_takes_second_on_tie() {
    let res = assemble_batch(vec![1], vec![tagged(10)], vec![(1, tagged(20))]);
    let tags: Vec<u64> = res.iter().map(tag).collect();
    assert_eq!(tags, vec![20, 10]);
}

#[test]
fn auth_from_credentials() {
    let auth: AuthSource<String> = AuthSource::from_config(Some("user".to_owned()), Some("pass".to_owned()), None).unwrap();
    match auth {
        AuthSource::Const { username, password, header } => {
            assert_eq!(username, "user");
            assert_eq!(password, "pass");
            assert_eq!(header, "Basic dXNlcjpwYXNz");
        },
        other => panic!("unexpected {:?}", other),
    }
}

#[test]
fn auth_from_cookie_file() {
    let auth = AuthSource::from_config(None, None, Some("/var/lib/bitcoin/.cookie".to_owned())).unwrap();
    assert!(matches!(auth, AuthSource::CookieFile { ref path } if path == "/var/lib/bitcoin/.cookie"));
}

#[test]
fn auth_config_errors() {
    let missing = AuthSource::<String>::from_config(None, None, None).unwrap_err();
    assert_eq!(missing, AuthConfigError::Missing);
    assert_eq!(missing.message(), "missing authentication information");
    let only_user = AuthSource::<String>::from_config(Some("u".to_owned()), None, None).unwrap_err();
    assert_eq!(only_user, AuthConfigError::Ambiguous);
    assert_eq!(
        only_user.message(),
        "either a password and possibly a username or a cookie file must be specified"
    );
    let both = AuthSource::from_config(Some("u".to_owned()), Some("p".to_owned()), Some("f".to_owned())).unwrap_err();
    assert_eq!(both, AuthConfigError::Ambiguous);
    let only_password = AuthSource::<String>::from_config(None, Some("p".to_owned()), None).unwrap_err();
    assert_eq!(only_password, AuthConfigError::Ambiguous);
}

#[test]
fn configured_credentials_authenticate() {
    let auth: AuthSource<String> = AuthSource::from_config(Some("satoshi".to_owned()), Some("secret".to_owned()), None).unwrap();
    let header = match auth {
        AuthSource::Const { header, .. } => header,
        _ => unreachable!(),
    };
    let mut users = Users::new();
    users.insert(
        "satoshi".to_owned(),
        User { password: "secret".to_owned(), allowed_calls: Vec::new(), fetch_blocks: false },
    );
    let (name, _) = users.get(header.as_bytes()).unwrap();
    assert_eq!(name, "satoshi");
}

#[test]
fn cookie_header_drops_final_newline() {
    assert_eq!(cookie_header("__cookie__:abc\n"), "Basic X19jb29raWVfXzphYmM=");
    assert_eq!(cookie_header("__cookie__:abc"), "Basic X19jb29raWVfXzphYmM=");
    assert_ne!(cookie_header("__cookie__:abc\n\n"), "Basic X19jb29raWVfXzphYmM=");
}

#[test]
fn cache_is_used_while_file_unchanged() {
    let cache = Some(CachedHeader { modified: (true, 10, 5), header: "Basic abc".to_owned() });
    assert_eq!(cached_header(&cache, (true, 10, 5)).unwrap(), "Basic abc");
    assert!(cached_header(&cache, (true, 10, 6)).is_none());
    assert!(cached_header(&cache, (false, 10, 5)).is_none());
    assert!(cached_header(&None, (true, 10, 5)).is_none());
}

#[test]
fn batch_split_by_outcome() {
    let outcomes = vec![None, Some(Ok(tagged(1))), None, Some(Ok(tagged(3)))];
    let (forwarded, intercepted) = split_batch(outcomes).unwrap();
    assert_eq!(forwarded, vec![0, 2]);
    let idxs: Vec<usize> = intercepted.iter().map(|(i, _)| *i).collect();
    assert_eq!(idxs, vec![1, 3]);
    let res = assemble_batch(forwarded, vec![tagged(0), tagged(2)], intercepted);
    let tags: Vec<u64> = res.iter().map(tag).collect();
    assert_eq!(tags, vec![0, 1, 2, 3]);
}

#[test]
fn refused_call_fails_batch() {
    let outcomes = vec![
        None,
        Some(Err(RpcError::misc("first".to_owned()))),
        Some(Ok(tagged(2))),
        Some(Err(RpcError::method_not_allowed())),
    ];
    let e = split_batch(outcomes).unwrap_err();
    assert_eq!(e.message, "first");
}
