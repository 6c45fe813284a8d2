# keel_memory

Character-bounded persistent memory for AI agents, and the text logic of a
desktop OAuth PKCE flow, verified with Verus.

- `src/` is the verified library. It computes on the text of the two memory
  documents (`MEMORY.md`, `USER.md`): parsing entries delimited by `§`,
  adding, replacing and removing entries under a character limit, building
  the memory block of a system prompt. For the OAuth flow it holds percent
  encoding and decoding, the authorization URL, the callback request, the
  PKCE verifier and challenge, the decisions on the server's replies, and the
  reading and editing of the credentials document kept in the keychain. It
  also reads the token out of a channel's stored configuration.
  SHA-256, base64, UUIDs and JSON parsing and writing are done by `sha2`,
  `base64`, `uuid` and `serde_json`, behind trusted wrappers whose contracts
  name their results.
- `app/` holds the file, process and network I/O around it: reading and
  writing the memory files, running `security` for the keychain, the browser,
  the callback server and the HTTP requests.
- `tests/` runs the library on concrete values.

Not here: the desktop shell's command registration and start-up, the
channel and agent-session commands that store rows in the app's database,
and the workspace seeding and system prompt assembly, which only forward to
file I/O of the desktop crate. They are plumbing around a GUI framework and
a database that this crate does not depend on; of them, only the decisions on
text (the channel token, the keychain document) are in `src/`.

The keychain service whose item holds the credentials is a parameter of
`run_oauth_flow` in `app/`; the caller passes the service name.
