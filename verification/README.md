# coinswap_wallet

The wallet of a coin swap client: which coins it has, which of them pay for an amount, how a payment
and its change are split so that the outputs look alike, how transactions are signed, and what
becomes of the coins of unfinished swaps. The library is written in Verus; what each function
returns is stated in its contract and proved.

- `src/` is the library. It does no I/O. Calls into the Bitcoin and coin selection crates stand
  behind the items of `keys.rs`, `coin_selector.rs` and `amounts.rs`, whose contracts are believed.
- `app/` is ordinary Rust around it: the node, the chain index, files and waiting.
- `tests/` run the library with the real crates linked.

| Modules | About |
| --- | --- |
| `types`, `text`, `table`, `error` | Bitcoin data as plain values, numbers and paths as text, tables |
| `keys`, `chain`, `descriptors`, `requests`, `signing` | keys, keychains, descriptors, signatures |
| `swapcoin`, `store`, `wallet`, `watch` | swap coins, the state of a wallet, watched scripts |
| `utxo`, `coins`, `cache`, `listing`, `transactions` | unspent outputs and what is read from them |
| `coin_selector`, `selection`, `pile`, `spend`, `payment` | choosing coins |
| `amounts`, `splits`, `funding` | splitting a payment |
| `recovery`, `sweep`, `confirm`, `sync`, `rpc` | decisions around the chain |
| `pile_laws`, `spend_laws` | what holds of every selection |
| `checks` | the ranges that the operations compute in |

What holds of the library as a whole stands in proof functions whose names begin with `law_`.
