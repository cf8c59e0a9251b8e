# debank_tracing

Collects what the Ethereum virtual machine reports while it runs transactions, and turns it into
the traces, events, state diffs and simulation results that DeBank reads.

- `src/` is the library. Everything in it is verified: each public function states what it returns
  or changes, and the files `*_laws.rs`, as well as the ends of some others, hold the laws that
  relate several of them.
  - `events`, `frame`, `listener`: what is reported, the tree of calls, and how it grows.
  - `formatter`, `state_diff`, `rlp_codec`, `overlay`: traces, events and changes of accounts, and
    how they are encoded.
  - `block_file`, `block_trace`, `block_output`: what is handed out of a block.
  - `simulate`, `batch`: simulated transactions and batches of calls.
  - `filter`, `cache`: the selection of traces, and who waits for which block.
  - `primitives`, `ordered`, `text`: addresses, hashes and numbers, sorted collections, and texts.
- `tests/` runs the library on concrete values.
- `app/` is the node's side: it asks the node, serves the methods and (de)serialises values.

What the library has from other crates stands behind small functions marked `external_body`, each
with a comment that says what is believed of the call.
