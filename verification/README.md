# messenger

A small chat system: a server that keeps users, their chats and their
messages, and a desktop client that enciphers message text with a key both
partners of a chat derive by a Diffie-Hellman style exchange.

The library under `src/` holds the logic, verified with Verus:

- `text`: splitting at a separator, `i32` parsing and printing, trimming.
- `client`: the client's chat store (`chats`), the cipher and key
  derivation (`hashing`), the handling of each server line
  (`from_server`), the frames the client writes (`to_server`) and the
  queries of its interface (`internal_commands`).
- `server`: parsing of client requests (`commands`, `process`), the graph
  of users and chats (`container`, over petgraph through `graph`), the
  routing decisions of the manager (`manager`) and the password checks of
  the model (`model`).
- `relay`: the name-addressed relay server's message and command parsing.
- `test_client`: the checks a test client makes on server answers.
- `protocol`: laws that join what one end prints to what the other parses.

`app/` holds what Verus does not see: the tokio server loop, database
queries, socket writes, and the serde copies of the library's types.
`tests/` runs the library on concrete values.
