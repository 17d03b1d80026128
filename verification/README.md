# Arkade City

Arkade City is a multiplayer arena reconstructed from Arkade transactions. Every client reads the
same registry and the same asset burns from the operator's indexer and replays the same game; there
is no game server.

`src/` is a Verus library. Each function states in its contract what it returns or changes, and
Verus proves it:

| Module | Contents |
| --- | --- |
| `game` | the arena: walls, spawns, actions, shots, the replay of a history |
| `gamelog`, `actions` | receipts, registrations, burns, and the order of the actions of a player |
| `arkade` | the operator's answers: parameters, pages of outputs, virtual transactions |
| `address`, `txbuild` | contracts of a player, and the transactions built from them |
| `pending` | the pending action and its journal |
| `match_` | the state of a client and how each event changes it, tick by tick |
| `entry` | what the browser's entry points compute |
| `chain`, `psbt`, `script`, `table`, `text`, `seqs` | ids, transactions, scripts, ordered tables, text |

Functions named `law_..` state what holds of several functions together, such as that a journal
brings back the transaction it was made from, or that a replay does not depend on the order in which
actions arrive.

Calls into `ark-core`, `bitcoin` and `base64` stand behind small functions marked
`#[verifier::external_body]`, whose doc comments say what is taken for granted of the call.

`app/` is ordinary Rust around the library: keys, requests, signatures, storage and the browser's
entry points. `tests/` runs the library with the real crates.
