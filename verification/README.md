# hybrid-exchange

A trade matching engine that runs off chain and settles on chain, with its
core written in Verus and proved against its contracts.

Users deposit ERC-20 tokens into the exchange contract; the gateway credits
them, accepts EIP-712 signed limit and market orders over HTTP, matches them
best price first and oldest first within a price (a market order's price is
the worst it accepts, and it goes ahead only when its whole quantity rests
within that price), pushes fills to
authenticated websocket clients, and posts batches of trades to the contract
for settlement.

## Layout

- `src/` — the verified library:
  - `uint`, `bytes`, `primitives`: 256-bit integers, big-endian encodings,
    addresses and 32-byte words;
  - `types`: orders, trades, fills, deposits;
  - `book`, `engine`, `engine_laws`: the price-time priority book, matching,
    and the properties every submission keeps;
  - `ledger`, `ledger_laws`: available and reserved balances;
  - `eip712`: struct hashes, digests and signer recovery;
  - `state`, `state_laws`: accepting a signed order end to end;
  - `settlement`: batches and the `settleBatch` arguments;
  - `deposit`: the chunked replay of deposits and the live filter;
  - `ws`, `hex_text`: websocket authentication and the connection registry;
  - `routes`, `serialization`, `cli`: response bodies, stored encodings and
    the operator's order entry.
- `tests/` — tests of the library.
- `app/` — the gateway server and the operator tool: HTTP, websockets,
  SQLite, the chain connection and JSON around the library.
