# dual_funding

Establishment of dual-funded (v2) Lightning channels, verified with Verus.

Two nodes agree on a channel, build its funding transaction together, message by message,
exchange signatures, and broadcast the transaction. The library holds the rules of that
exchange: the feature gate, the selection of funding inputs, the negotiation, the signing order
and what is lost on a disconnection.

- `src/` is the library. `model.rs` says what each call does to a node, as functions from state
  to state; `node.rs` is the node, proved against it; `run.rs` says how two nodes take turns, and
  `negotiation.rs` drives them through a negotiation; `wallet.rs` and `wallet_node.rs` fund and answer channels out of a wallet;
  `laws.rs` and `lifecycle.rs` state what holds of it all. `bitcoin_calls.rs` holds the calls
  into the `bitcoin` crate and what is taken on trust about them.
- `tests/` runs it.
- `app/` connects it to a network, a key store and a store of peers.
