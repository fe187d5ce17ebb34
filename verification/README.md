# btc_rpc_proxy

A permission-checking JSON-RPC proxy for bitcoind, whose decisions are
verified with Verus.

The proxy lets several users call a node, each with its own password and its
own list of allowed RPC methods. Against a pruned node it fetches the blocks
that the node no longer holds from the node's peers, checks them, and answers
as an unpruned node would.

## Layout

- `src/` is the verified library. Each public function states in its
  contract what it returns; the laws that relate several functions are
  public proof functions.
  - `users.rs`: who a request authenticates as, which calls a user may make,
    and the answers the proxy gives itself (`getblock`, `getblockchaininfo`).
  - `client.rs`: reading requests and batches (with the place in the body
    where a refusal is found), writing them again, responses and errors,
    putting a batch's answers back in call order, and the node's
    credentials.
  - `fetch_blocks.rs`: which peers are asked, how they are reached, what
    their messages are answered with, and when they are asked at all.
  - `block.rs`, `encoding.rs`, `error.rs`: what the `bitcoin`, `base64`,
    `hex` and `serde_json` crates compute, behind small trusted functions
    whose contracts name their results, and the texts of errors.
  - `proxy.rs`, `create_state.rs`, `create_env.rs`, `state.rs`, `util.rs`,
    `json.rs`, `rpc_methods.rs`: routing, configuration, and the data the
    rest works on.
- `app/` is the program around it: configuration files, the HTTP server,
  the connections to the node and to peers, and logging.
- `tests/` runs the library on concrete values.
