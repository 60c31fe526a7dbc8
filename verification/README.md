# chatroom

A small multi-user chat service over TCP, with its logic verified in Verus.

- `src/` is the verified library: the registry of accounts (`users`), the
  text store that persists it and the proofs that what is written reads
  back (`store`), the login and lobby dialogues as step functions
  (`login`, `lobby`), private chats (`private`), chat rooms built on `chan`
  channels (`rooms`, with the trusted calls into `chan` in `channel`), and
  the text splitting they share (`text`).
- `app/main.rs` is the server: it accepts connections, reads and writes
  lines, appends records to `User_info.txt`, runs the chat threads, and
  hands every decision to the library.
- `tests/` runs the library on concrete inputs.

The registry, each user's friends and the rooms with their members are kept
in vectors with an invariant that no name occurs twice, in place of the
`HashMap`/`HashSet` keyed by `String` that a chat server would reach for:
vstd's specifications of those collections prove nothing for `String` keys,
while vectors of names let every lookup and update be proved exactly.
