# roomchat

A terminal chat system: a server that keeps rooms of signed-in users, and a
client with a scrolling chat view. Accounts are stored with Argon2 password
hashes; chat lines are kept in SQLite.

- `src/` is the verified library (Verus): the protocol types (`protocol`),
  text helpers with their specifications (`text`), the registry of signed-in
  connections (`registry`), sign-up and sign-in rules (`auth`), the
  per-connection session rules of the server (`session`), and the client's
  screen state and input handling (`client`).
- `app/` is the program around it: `app server` runs the server (sockets,
  SQLite, logging), `app client` runs the terminal client (crossterm,
  ratatui). Messages travel as one JSON object per line.
- `tests/` exercises the library on concrete values.
