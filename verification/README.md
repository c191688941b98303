# er_bench

A throughput benchmark for MagicBlock ephemeral validators: it creates and
delegates USDC-like token accounts on a local base chain, starts one or more
ephemeral validators, sends signed token transfers to them, and checks
afterwards that every pair of accounts still holds what it held before.

The planning, accounting and checking live in a library verified with Verus.
The program around it does the network, file and process work.

## Layout

- `src/` is the verified library.
  - `text`, `bytes`, `chunks`: decimal numbers, paths, little-endian integers,
    consecutive chunks.
  - `instruction`, `programs`, `signing`: instructions as plain data, those of
    the standard programs, key pairs and signed transactions.
  - `formats`: base64, JSON and TOML.
  - `transfers`: shards of paired users, and the transfers made between them.
  - `setup`, `plan`, `execution`: which accounts to create, the transactions
    that do so, and the rounds in which they are sent and confirmed.
  - `load`: request batches, replies, the latency probe and the check of
    balances.
  - `stats`, `metrics`: counters, run state, and validators' metrics.
  - `orchestrate`, `run`: processes and their ports, and the stages of a run.
- `tests/` runs the library on concrete values.
- `app/` is the program. Besides the crates in `Cargo.toml` it uses
  `solana-rpc-client` and `solana-rpc-client-api`, and `magicblock-core` and
  `integration-test-tools` of the validator's repository.

## What is proved

Contracts state results exactly, or over a name for what another crate
computes. Drawn key pairs are the exception: nothing is said of the secret.
Public proof functions state what holds across functions, among them:

- shards, signer slices and pre-signed stripes share users, pairs and transfers
  out without overlap or loss, and any number of signing threads signs the same
  run;
- no two transfers of a pre-signed run make the same instruction;
- the latency probe never uses a pair that the load uses;
- transfers stay within pairs and so conserve every pair's sum;
- a planned transaction stays pending exactly until it is confirmed, and a
  transaction is confirmed exactly if a poll reported that it succeeded;
- every transaction of the mint, account, deposit and delegation plans can be
  signed by the signers it names; those of the escrow plan can where each
  user's instructions ask for that user's signature, for no other but the
  payer's, and are not too many;
- a setup's vault is the one derived from its mint;
- the samples of two metrics texts joined by a line feed are those of both,
  unless the first ends in a sample and a carriage return;
- validators share neither ports nor directories;
- a run comes to each of its stages exactly once.

What the library takes from other crates stands behind functions marked
`external_body`, each with a comment that says what is claimed of the call.
