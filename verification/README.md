# abra

Abra moves working state between one user's devices: files and workspaces, browser and agent
sessions, sandboxes. State is captured in a snapshot, sent to a device that is trusted, and restored
there.

This crate is the logic of it, verified with Verus. `src/` decides and computes; it opens no file
and no connection. `app/` is the program around it.

## What is where

- `cas`, `walk`, `reach`: blobs and directories by the hash of their content, and what a snapshot
  reaches.
- `canonical`, `json`, `record`, `members`, `shape`: JSON with one way to write each value.
- `manifest`, `reading`, `faithful`: the manifest of a snapshot, written and read back.
- `capsule`, `history`, `store`: capsules, their leases, labels and snapshots, and the inbox.
- `reload`, `succession`, `lineage`: what a capsule is once it is read back from its records, and
  where the lease that holds comes from.
- `distinct`: no two records are written alike.
- `identity`, `crypto`, `checksum`, `base64`, `util`: keys, signatures, encryption and encodings.
- `link`: snapshots sealed into links.
- `restore`: how a snapshot can be restored on a host.
- `net`: trust between devices, messages, deliveries and relays.
- `adapter`: the programs that export and import the state of applications.
- `cli`: what the command line decides.
- `order`, `table`, `number`, `text`, `bytes`: what the rest is built from.

## What is proved

Each function's contract says what it returns and what it changes, for every input. Public proof
functions state what holds of several functions together: a manifest that was written is read back,
what a device signs another accepts, a revoked token never works again, a removed peer stays away, a
race for a lease ends alike in any order, a delivery keeps exactly the objects that its manifest
reaches.

Some functions call other crates: hashing, signatures, encryption, hexadecimal, base64, JSON text,
randomness and the clock. What is taken for granted about each of them stands above the function
that makes the call.
