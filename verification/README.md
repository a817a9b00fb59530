# revive_eth_rpc

The logic of an Ethereum JSON-RPC server for Substrate chains with contracts, verified with Verus.

- `src/` is the verified library. It extracts Ethereum receipts from the extrinsics of a block
  (`receipt_extractor`, `evm`, `scale`), keeps track of which blocks are indexed (`block_cache`,
  `receipt_provider`), says what the receipt database is told and asked (`database`, `log_filter`),
  states what holds of the database as blocks come and go (`consistency`) and what is found in it
  (`records`), and makes the decisions of the client (`client`, `native_client`, `subxt_client`)
  and of the server (`cli`, `rpc`, `error`, `text`).
- `tests/` runs the library, with a small database that executes its statements.
- `app/` is the I/O around it: the node, the SQLite database, the command line and the JSON-RPC
  modules.

Of the dependencies, `src/` calls `hex`, `pallet-revive`, `parity-scale-codec`, `sp-core` and
`sp-runtime`; the others are for `app/`. `alloy-trie`, `pallet-revive-proc-macro` and `sp-storage`
are named only to hold versions of indirect dependencies that build together.
