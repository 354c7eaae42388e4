# lportfolio

A local Ethereum portfolio tracker: native balances on mainnet and three
L2s, beacon-chain validators, Lido CSM bonds, decoded transaction history
and an interactive labelling session, all read through your own RPC,
beacon and explorer endpoints and cached in a local SQLite file.

## Layout

- `src/` is the library, written in Verus and proved by Verus throughout.
  Every public function carries a `requires`/`ensures` contract over a
  mathematical model (`Seq`, `Set`, `Multiset`, `int`); private helpers are
  verified where they are used:
  - `primitives`, `text`, `units`: 160-bit addresses and 256-bit amounts as
    numbers, hex and decimal text, string helpers.
  - `chain`, `tokens`, `splits`, `csm`, `ens`: the supported chains, the
    token whitelist, the contracts the tracker reads, the ENS reverse-name
    encoding and retry policy.
  - `decode`: the protocol decoders (Lido, Aave, Uniswap, CoW Swap, Across,
    Splits, generic ERC-20) and the registry that picks the first one that
    recognises a transaction.
  - `config`, `settings`, `keyed`, `data_dir`: the environment and TOML
    configuration, the settings form, sorted string-keyed tables.
  - `explorer`, `staking`, `prices`, `rpc`, `sync`, `db`: what the I/O layer
    asks for and how it interprets the answers (URLs, paging, rate-limit
    backoff, cache rows, orderings).
  - `holdings`, `portfolio_view`, `render`, `cli`, `interactive`: totals,
    table cells, history rows and command-line selections.
  - Laws that relate several functions stand as public `law_*` proof
    functions next to them.
- `app/` is the command-line program: argument parsing, HTTP, JSON-RPC,
  SQLite and the terminal. It hands the library plain values and prints
  what comes back.
- `tests/` runs the library on concrete values.

## Limits

- Internal transactions (value moved by contract calls inside a
  transaction) are not fetched: records read back from the cache carry none,
  so ETH received that way is not shown in the history.
- History names a counterparty by its alias, else its label (user labels
  before decoder labels), else its ENS name from the cache that `sync`
  fills, else its short hex form; `unknowns` leaves out counterparties with
  an ENS name.
