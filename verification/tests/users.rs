use btc_rpc_proxy::client::{GenericRpcMethod, RpcError, RpcRequest, RpcResponse, METHOD_NOT_ALLOWED_ERROR_CODE, MISC_ERROR_CODE};
use btc_rpc_proxy::json::{JsonNumber, JsonValue};
use btc_rpc_proxy::users::input::{map_default, User as InputUser};
use btc_rpc_proxy::users::{
    getblock_hash_param, pruned_block_response, raw_block_answer, raw_block_response, unprune, verbose_block_answer, InterceptPlan, User, Users,
};

fn check(input: Option<bool>, default: bool, expected: bool) {
    let users = vec![(
        "satoshi".to_owned(),
        InputUser { password: "secret".to_owned(), allowed_calls: Vec::new(), fetch_blocks: input },
    )];

    let result = map_default(users, default);
    assert_eq!(result.user("satoshi").unwrap().fetch_blocks, expected);
}

#[test]
fn default_fetch_blocks_none_false() {
    check(None, false, false);
}

#[test]
fn default_fetch_blocks_none_true() {
    check(None, true, true);
}

#[test]
fn default_fetch_blocks_some_false_false() {
    check(Some(false), false, false);
}

#[test]
fn default_fetch_blocks_some_false_true() {
    check(Some(false), true, false);
}

#[test]
fn default_fetch_blocks_some_true_false() {
    check(Some(true), false, true);
}

#[test]
fn default_fetch_blocks_some_true_true() {
    check(Some(true), true, true);
}

fn user(password: &str, calls: &[&str], fetch_blocks: bool) -> User {
    User {
        password: password.to_owned(),
        allowed_calls: calls.iter().map(|c| c.to_string()).collect(),
        fetch_blocks,
    }
}

fn users() -> Users {
    let mut users = Users::new();
    users.insert("satoshi".to_owned(), user("secret", &["getblock", "getblockchaininfo"], true));
    users.insert("hal".to_owned(), user("finney", &["getblockcount"], false));
    users
}

#[test]
fn map_default_later_entry_counts() {
    let input = vec![
        ("a".to_owned(), InputUser { password: "1".to_owned(), allowed_calls: Vec::new(), fetch_blocks: Some(true) }),
        ("a".to_owned(), InputUser { password: "2".to_owned(), allowed_calls: Vec::new(), fetch_blocks: None }),
    ];
    let result = map_default(input, false);
    let a = result.user("a").unwrap();
    assert_eq!(a.password, "2");
    assert!(!a.fetch_blocks);
    assert!(result.user("b").is_none());
}

#[test]
fn authenticates_with_basic_credentials() {
    let users = users();
    // "satoshi:secret"
    let (name, u) = users.get(b"Basic c2F0b3NoaTpzZWNyZXQ=").unwrap();
    assert_eq!(name, "satoshi");
    assert_eq!(u.password, "secret");
    // "hal:finney"
    let (name, _) = users.get(b"Basic aGFsOmZpbm5leQ==").unwrap();
    assert_eq!(name, "hal");
}

#[test]
fn refuses_wrong_password() {
    let users = users();
    // "satoshi:wrong"
    assert!(users.get(b"Basic c2F0b3NoaTp3cm9uZw==").is_none());
    // "nobody:secret"
    assert!(users.get(b"Basic bm9ib2R5OnNlY3JldA==").is_none());
}

#[test]
fn refuses_malformed_headers() {
    let users = users();
    assert!(users.get(b"Bearer c2F0b3NoaTpzZWNyZXQ=").is_none());
    assert!(users.get(b"basic c2F0b3NoaTpzZWNyZXQ=").is_none());
    assert!(users.get(b"Basic").is_none());
    assert!(users.get(b"Basic !!!!").is_none());
    // not visible ASCII
    assert!(users.get(b"Basic c2F0b3NoaTpzZWNyZXQ=\x01").is_none());
    // "satoshisecret": no colon
    assert!(users.get(b"Basic c2F0b3NoaXNlY3JldA==").is_none());
    // invalid UTF-8: 0xff 0x3a 0x61
    assert!(users.get(b"Basic /zph").is_none());
}

#[test]
fn password_ends_at_second_colon() {
    let users = users();
    // "satoshi:secret:more"
    let (name, _) = users.get(b"Basic c2F0b3NoaTpzZWNyZXQ6bW9yZQ==").unwrap();
    assert_eq!(name, "satoshi");
}

fn request(method: &str, params: Vec<JsonValue>) -> RpcRequest {
    RpcRequest { id: Some(JsonValue::Number(JsonNumber::PosInt(7))), method: GenericRpcMethod(method.to_owned()), params }
}

fn hash_param() -> JsonValue {
    JsonValue::String("00000000000000000000000000000000000000000000000000000000000000ff".to_owned())
}

#[test]
fn refuses_calls_that_are_not_allowed() {
    let users = users();
    let hal = users.user("hal").unwrap();
    let err = hal.intercept_plan(&request("stop", Vec::new())).unwrap_err();
    assert_eq!(err.code, METHOD_NOT_ALLOWED_ERROR_CODE);
    assert_eq!(err.code, -32604);
    assert_eq!(err.message, "Method not allowed");
    assert_eq!(err.status, Some(403));
    assert_eq!(hal.intercept_plan(&request("getblockcount", Vec::new())).unwrap(), InterceptPlan::Forward);
}

#[test]
fn getblock_plans_follow_verbosity() {
    let users = users();
    let satoshi = users.user("satoshi").unwrap();
    let zero = JsonValue::Number(JsonNumber::PosInt(0));
    let one = JsonValue::Number(JsonNumber::PosInt(1));
    let two = JsonValue::Number(JsonNumber::PosInt(2));
    assert_eq!(satoshi.intercept_plan(&request("getblock", vec![hash_param(), zero])).unwrap(), InterceptPlan::FetchRawBlock);
    assert_eq!(satoshi.intercept_plan(&request("getblock", vec![hash_param(), one])).unwrap(), InterceptPlan::FetchVerboseBlock);
    assert_eq!(satoshi.intercept_plan(&request("getblock", vec![hash_param()])).unwrap(), InterceptPlan::FetchVerboseBlock);
    assert_eq!(satoshi.intercept_plan(&request("getblock", vec![hash_param(), two])).unwrap(), InterceptPlan::Forward);
    let negative = JsonValue::Number(JsonNumber::NegInt(-1));
    assert_eq!(satoshi.intercept_plan(&request("getblock", vec![hash_param(), negative])).unwrap(), InterceptPlan::Forward);
    assert_eq!(satoshi.intercept_plan(&request("getblockchaininfo", Vec::new())).unwrap(), InterceptPlan::ForwardUnpruned);
}

#[test]
fn no_interception_without_fetch_blocks() {
    let u = user("pw", &["getblock", "getblockchaininfo"], false);
    let zero = JsonValue::Number(JsonNumber::PosInt(0));
    assert_eq!(u.intercept_plan(&request("getblock", vec![hash_param(), zero])).unwrap(), InterceptPlan::Forward);
    assert_eq!(u.intercept_plan(&request("getblockchaininfo", Vec::new())).unwrap(), InterceptPlan::Forward);
}

#[test]
fn raw_block_is_hex() {
    let res = raw_block_response(Some(JsonValue::Bool(true)), &[0x00, 0xab, 0x10, 0xff]);
    assert!(res.error.is_none());
    match res.result {
        Some(JsonValue::String(s)) => assert_eq!(s, "00ab10ff"),
        other => panic!("unexpected result {:?}", other),
    }
    assert!(matches!(res.id, Some(JsonValue::Bool(true))));
}

#[test]
fn pruned_block_answer() {
    let res = pruned_block_response(None);
    let err = res.error.unwrap();
    assert_eq!(err.code, MISC_ERROR_CODE);
    assert_eq!(err.message, "Block not available (pruned data)");
    assert_eq!(err.status, None);
    assert!(res.result.is_none());
}

#[test]
fn unprune_sets_pruned_false() {
    let info = JsonValue::Object(vec![
        ("chain".to_owned(), JsonValue::String("main".to_owned())),
        ("pruned".to_owned(), JsonValue::Bool(true)),
        ("blocks".to_owned(), JsonValue::Number(JsonNumber::PosInt(5))),
    ]);
    let res = unprune(RpcResponse { id: None, error: None, result: Some(info) });
    match res.result {
        Some(JsonValue::Object(members)) => {
            assert_eq!(members.len(), 3);
            assert_eq!(members[0].0, "chain");
            assert!(matches!(members[1], (ref k, JsonValue::Bool(false)) if k == "pruned"));
            assert!(matches!(members[2].1, JsonValue::Number(JsonNumber::PosInt(5))));
        },
        other => panic!("unexpected result {:?}", other),
    }
    let untouched = unprune(RpcResponse { id: None, error: None, result: Some(JsonValue::Null) });
    assert!(matches!(untouched.result, Some(JsonValue::Null)));
}

fn field<'a>(members: &'a [(String, JsonValue)], key: &str) -> &'a JsonValue {
    &members.iter().find(|(k, _)| k == key).unwrap().1
}

fn number(v: &JsonValue) -> u64 {
    match v {
        JsonValue::Number(JsonNumber::PosInt(n)) => *n,
        other => panic!("not a number: {:?}", other),
    }
}

fn verbose(block: &bitcoin::Block) -> Vec<(String, JsonValue)> {
    let header = JsonValue::Object(vec![("height".to_owned(), JsonValue::Number(JsonNumber::PosInt(0)))]);
    let bytes = bitcoin::consensus::serialize(block);
    let res = verbose_block_answer(Some(JsonValue::Number(JsonNumber::PosInt(3))), Ok((header, Some(bytes)))).unwrap();
    assert!(res.error.is_none());
    assert!(matches!(res.id, Some(JsonValue::Number(JsonNumber::PosInt(3)))));
    match res.result {
        Some(JsonValue::Object(members)) => members,
        other => panic!("unexpected {:?}", other),
    }
}

#[test]
fn verbose_block_reports_sizes() {
    let genesis = bitcoin::blockdata::constants::genesis_block(bitcoin::Network::Bitcoin);
    let members = verbose(&genesis);
    assert_eq!(number(field(&members, "height")), 0);
    assert_eq!(number(field(&members, "size")), 285);
    assert_eq!(number(field(&members, "strippedsize")), 285);
    assert_eq!(number(field(&members, "weight")), 1140);
    match field(&members, "tx") {
        JsonValue::Array(ids) => {
            assert_eq!(ids.len(), 1);
            assert!(matches!(&ids[0], JsonValue::String(t) if t == "4a5e1e4baab89f3a32518a88c31bc87f618f76673e2cc77ab2127b7afdeda33b"));
        },
        other => panic!("unexpected {:?}", other),
    }
}

#[test]
fn stripped_size_leaves_out_all_witness_bytes() {
    let genesis = bitcoin::blockdata::constants::genesis_block(bitcoin::Network::Bitcoin);
    let mut witnessed = genesis.clone();
    witnessed.txdata[0].input[0].witness = bitcoin::Witness::from_vec(vec![vec![0u8; 32]]);
    let members = verbose(&witnessed);
    let size = number(field(&members, "size"));
    let stripped = number(field(&members, "strippedsize"));
    assert_eq!(size, bitcoin::consensus::serialize(&witnessed).len() as u64);
    assert_eq!(stripped, bitcoin::consensus::serialize(&genesis).len() as u64);
    assert_eq!(size - stripped, 2 + 1 + 1 + 32);
    assert_eq!(number(field(&members, "weight")), 3 * stripped + size);
}

#[test]
fn verbose_block_needs_header_object_and_block() {
    let res = verbose_block_answer(None, Ok((JsonValue::String("00".to_owned()), Some(vec![0u8; 80]))));
    assert_eq!(res.unwrap_err().message, "unexpected response for getblockheader");
    let res = verbose_block_answer(None, Ok((JsonValue::Object(vec![]), Some(vec![1, 2, 3]))));
    assert_eq!(res.unwrap_err().message, "invalid block data");
    let pruned = verbose_block_answer(Some(JsonValue::Null), Ok((JsonValue::Object(vec![]), None))).unwrap();
    assert_eq!(pruned.error.unwrap().code, MISC_ERROR_CODE);
    let failed = verbose_block_answer(Some(JsonValue::Null), Err(RpcError::misc("down".to_owned()))).unwrap();
    assert!(failed.id.is_none());
    assert_eq!(failed.error.unwrap().message, "down");
}

#[test]
fn raw_block_answers() {
    let res = raw_block_answer(Some(JsonValue::Bool(true)), Ok(Some(vec![0xab, 0x01])));
    assert!(matches!(res.result, Some(JsonValue::String(ref s)) if s == "ab01"));
    assert!(matches!(res.id, Some(JsonValue::Bool(true))));
    let res = raw_block_answer(None, Ok(None));
    assert_eq!(res.error.unwrap().message, "Block not available (pruned data)");
    let res = raw_block_answer(Some(JsonValue::Bool(true)), Err(RpcError::misc("down".to_owned())));
    assert!(res.id.is_none());
    assert_eq!(res.error.unwrap().message, "down");
}

#[test]
fn getblock_hash_parameter() {
    let text = "000000000019d6689c085ae165831e934ff763ae46a2a6c172b3f1b60a8ce26f";
    let hash = getblock_hash_param(&vec![JsonValue::String(text.to_owned())]).unwrap();
    let genesis = bitcoin::blockdata::constants::genesis_block(bitcoin::Network::Bitcoin);
    assert_eq!(hash, <bitcoin::BlockHash as bitcoin::hashes::Hash>::into_inner(genesis.block_hash()));
    let e = getblock_hash_param(&vec![JsonValue::Number(JsonNumber::PosInt(5))]).unwrap_err();
    assert_eq!(e.code, MISC_ERROR_CODE);
    assert_eq!(e.message, "invalid type: integer `5`, expected an ASCII hex string");
    let e = getblock_hash_param(&vec![JsonValue::Null, JsonValue::Bool(true)]).unwrap_err();
    assert_eq!(e.message, "invalid type: null, expected an ASCII hex string");
    let e = getblock_hash_param(&vec![JsonValue::String("zz".to_owned())]).unwrap_err();
    let expected = <bitcoin::BlockHash as std::str::FromStr>::from_str("zz").unwrap_err().to_string();
    assert_eq!(e.message, expected);
}
