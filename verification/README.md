# recuros

The logic of RecurOS, one shared and versioned memory for AI tools, as a Verus
library: the relay that brings remote clients to a user's own node, the node
itself, the store's home directory, and what the `ctx` commands decide and say.

- `src/` is the library. Its functions have contracts, which Verus proves. The
  calls into outside crates stand behind small trusted items, each with a
  comment that says what is believed of it, be it nothing.
- `tests/` runs the library from outside, with the real crates linked.
- `app/` is the `ctx` program: arguments, files, sockets and databases around
  the library. The context store itself belongs to the sibling crates of the
  workspace, which only `app/context.rs` names.

| module | what it holds |
| --- | --- |
| `metadata` | what a relay's store may come to hold, and the laws of it |
| `store` | the relay's store in memory, and the decisions of every other one |
| `handshake` | how a node proves which device it is |
| `relay` | connected nodes, waiting requests, and the replies to clients |
| `forwarding` | the steps of a client's request to its node |
| `wire`, `json` | messages between relay and node, and JSON-RPC values |
| `credentials` | keys, signatures, secrets and ids |
| `storage` | which database a relay uses |
| `node` | a paired node's configuration and addresses |
| `home`, `slug` | the store's home directory, and safe names |
| `cli` | what the commands decide and print |
| `table`, `text`, `failure` | maps with text keys, text operations, errors |
