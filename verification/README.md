# sxt_pallets

Verified core logic of the Space and Time chain: its pallets' storage
rules, the indexer forwarding workers, and the node's genesis helpers,
written in Verus and proved against their contracts.

Each pallet's storage is a plain Rust value with a mathematical view, and
each extrinsic or hook is a method from state and inputs to the next state
and its outcome. Work that needs the chain runtime, cryptography, Arrow or
the network is the caller's: it hands in the results (a signature that
verified, a commitment's bytes, an HTTP reply) and carries out the requests
the library plans.

Layout:

- `src/permissions.rs`, `src/keystore.rs`, `src/attestation.rs`: who may do
  what, accounts' Ethereum keys, and block attestations.
- `src/indexing.rs`: data submissions, quorums, the batch queue and refunds.
- `src/indexing_migrations.rs`: the stepped storage migrations of the
  indexing pallet.
- `src/commitments.rs`, `src/end_row_insert_simulation.rs`: table
  definitions, per-scheme commitment storage, and insert simulation.
- `src/parsing.rs`: staking tables turned into staking requests.
- `src/staking_steps.rs`: carrying out those requests, one runtime call at a
  time.
- `src/forwarder.rs`, `src/offchain_indexing.rs`, `src/http_client.rs`,
  `src/proto.rs`: the workers that forward table events to the indexer
  service, and the protobuf messages they exchange.
- `src/mock_indexer.rs`: the rules of the mock indexer service the workers
  are tested against.
- `src/chain_spec.rs`, `src/cli.rs`, `src/weights.rs`: node helpers.
- `app/main.rs`: command line, environment and HTTP transport.
- `tests/`: executable tests of the library.
