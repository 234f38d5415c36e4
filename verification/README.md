# mesh_crypto

The client side of a private end-to-end encrypted mailbox: key agreement, a
message ratchet, files in chunks, and the requests and replies around them.
The server only stores opaque messages.

The library is written in Verus. Its contracts say exactly what each function
returns, and the laws of the protocol stand next to the functions they are
about, as proof functions whose names start with `law_`.

## Layout

- `src/text.rs`, `src/bytes.rs`, `src/b64.rs`, `src/encoding.rs`: texts, bytes
  on the wire, base64, hexadecimal and fingerprints.
- `src/primitives.rs`, `src/json.rs`: the calls into other crates, with what is
  relied on.
- `src/kdf.rs`: key derivation, encryption, signatures.
- `src/session.rs`, `src/skipped.rs`: the state of a conversation and the keys
  of messages that were passed over.
- `src/x3dh.rs`, `src/conversation.rs`: agreeing on a secret, opening and
  accepting a conversation.
- `src/sending.rs`, `src/receiving.rs`: the ratchet in both directions, and what
  one side makes of the other side's messages.
- `src/envelope.rs`: messages on the wire and the order of an inbox.
- `src/file.rs`, `src/upload.rs`: files, and how they get onto the server.
- `src/identity.rs`, `src/publish.rs`, `src/mailbox.rs`, `src/paths.rs`: the
  client's keys, prekeys, requests, replies, files and addresses.
- `app/`: the command line client around the library.

Paths in the library are relative to the home directory.

## Limits

- A message number over 10000 is rejected.
- A session is used for seven days.
- The keys of the last 1000 passed-over messages are kept. Messages may arrive
  out of order, within a chain and across a step of the ratchet, as long as
  their keys are among these.
- A file has at most 128 MiB, and its message at most 132 MiB.
