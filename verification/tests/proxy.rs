use btc_rpc_proxy::client::PARSE_ERROR_CODE;
use btc_rpc_proxy::error::{Field, Position, Problem, RequestError};
use btc_rpc_proxy::proxy::{bad_request_response, route, rpc_path, Route, METHOD_NOT_ALLOWED_BODY, WWW_AUTHENTICATE_VALUE};
use btc_rpc_proxy::users::{User, Users};

fn users() -> Users {
    let mut users = Users::new();
    users.insert(
        "satoshi".to_owned(),
        User { password: "secret".to_owned(), allowed_calls: vec!["getblockcount".to_owned()], fetch_blocks: false },
    );
    users
}

const GOOD: &[u8] = b"Basic c2F0b3NoaTpzZWNyZXQ=";

#[test]
fn rpc_paths() {
    assert!(rpc_path("/"));
    assert!(rpc_path(""));
    assert!(rpc_path("/wallet/"));
    assert!(rpc_path("/wallet/main"));
    assert!(!rpc_path("/wallet"));
    assert!(!rpc_path("/rest/block"));
    assert!(!rpc_path("//"));
}

#[test]
fn unknown_path_is_not_found() {
    let users = users();
    let r = route("/rest/tx", true, Some(GOOD), &users);
    assert!(matches!(r, Route::NotFound));
    assert_eq!(r.status(), Some(404));
}

#[test]
fn only_post_is_taken() {
    let users = users();
    let r = route("/", false, Some(GOOD), &users);
    assert!(matches!(r, Route::MethodNotAllowed));
    assert_eq!(r.status(), Some(405));
    assert_eq!(METHOD_NOT_ALLOWED_BODY, "JSONRPC server handles only POST requests");
}

#[test]
fn requests_must_authenticate() {
    let users = users();
    let r = route("/", true, None, &users);
    assert!(matches!(r, Route::Unauthorized));
    assert_eq!(r.status(), Some(401));
    let r = route("/wallet/w1", true, Some(b"Basic c2F0b3NoaTp3cm9uZw=="), &users);
    assert!(matches!(r, Route::Unauthorized));
    assert_eq!(WWW_AUTHENTICATE_VALUE, "Basic realm=\"jsonrpc\"");
}

#[test]
fn authenticated_requests_go_through() {
    let users = users();
    match route("/wallet/w1", true, Some(GOOD), &users) {
        Route::Authorized { name, user } => {
            assert_eq!(name, "satoshi");
            assert_eq!(user.allowed_calls, vec!["getblockcount".to_owned()]);
        },
        other => panic!("unexpected {:?}", other),
    }
    assert_eq!(route("", true, Some(GOOD), &users).status(), None);
}

#[test]
fn bad_body_answer() {
    let res = bad_request_response(&RequestError::Invalid(Problem::MissingField(Field::Method), Position { line: 1, column: 13 }));
    let err = res.error.unwrap();
    assert_eq!(err.code, PARSE_ERROR_CODE);
    assert_eq!(err.message, "missing field `method` at line 1 column 13");
    let res = bad_request_response(&RequestError::Json("EOF while parsing an object at line 1 column 1".to_owned()));
    assert_eq!(res.error.unwrap().message, "EOF while parsing an object at line 1 column 1");
    assert!(res.id.is_none());
}
