# contract

A coffee marketplace kept on NEAR by one owner: a stock of items with their
grinds and price options, delivery rates per region, the basket of the
purchase under way, and the book of pending and fulfilled orders.

- `src/` is the library, verified with Verus. `lib.rs` holds the store's
  types and state, `store_op.rs` the owner's operations and the views,
  `purchase.rs` a purchase from the request to the booked order,
  `store_map.rs` the keyed tables, `decimal.rs` and `models/` the decimal
  amounts of the oracle's answer, `text.rs` string helpers, and `account.rs`
  the rules of account ids, and `history.rs` the operations as steps on the
  store and the laws that hold after any sequence of them.
- `app/` is the NEAR contract around it: state in contract storage, the
  caller, signer and deposit read from the host, the oracle call, transfers,
  logs, the JSON event, and the floating-point pricing of a checkout.
- `tests/` exercise the library.
