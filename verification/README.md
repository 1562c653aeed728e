# nymx_mail

The verified core of NymX Mail, a mail client and server that exchange
messages over the Nym mixnet.

`src/` is the library, verified with Verus:

- `codec`: big-endian integers of the payload headers;
- `text`: UTF-8 decoding, lines, trimming, text order;
- `protocol`: handshake, chunk, readiness, resend and confirmation payloads;
- `digest`: the RIPEMD-160 fingerprint of a message;
- `tokens`: random file tags and file names;
- `sender`: what the client sends and how it judges the confirmation;
- `receiver`: the server's bookkeeping of transfers in progress, kept
  well-formed by a type invariant;
- `delivery`: what the received file holds, and the end-to-end guarantee;
- `fetch`: fetching received files over SSH;
- `config`, `contacts`, `paths`: settings, the contact book, directories;
- `activity`: the client's log and busy flags, fed by its network tasks.

The reassembly laws of `delivery` are stated over a model of the server's
file writes (`resized`, `written_at`, `write_pieces`, `write_chunks`): the
writes themselves are done by `app/` with `std::fs`, which nothing here
verifies. What the library proves is that writing each accepted chunk at
`chunk_offset`, whatever it carries and in whatever order, puts its bytes
in its own region, and that for the chunks of one message, cutting the
file to its original size gives back the sent bytes.

The server's handling of one incoming message is a sequence of verified
steps (`Receiver::on_chunk_message`, `file_opened`, `chunk_written`); the
program only opens and writes the file and sends the replies they ask for.

`app/` holds the two programs around it (the client's window and network
tasks, the server's command line and event loop); `tests/` exercises the
library.
