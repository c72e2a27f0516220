# caseboard

The rules behind a board for legal cases, verified with Verus.

- `src/` is the library. It reads contracts and marks risks in them, reads
  elements out of documents, chooses models, guards the loop of the assistant,
  merges what the machines of a team know, plans imports, exports and
  recordings, and makes the small decisions of commands. Every function states
  what it returns, and the laws of the library stand beside the functions as
  public proof functions.
- `tests/` runs the library on concrete values, with the outside crates linked.
- `app/` is the program around it: database, files, processes and network. It
  fetches values, hands them to the library and carries out what comes back.

Where the library calls an outside crate, the call stands in a small wrapper
whose contract is trusted: `quick_xml` in `contract_review/events.rs`, `zip` in
`contract_review/docx.rs`, `serde_json` in `json.rs`, `md5` in
`local_kb/hash.rs`, `base64` in `base64_text.rs`, `regex` in `patterns.rs`, and
the lossy decoding of the standard library in `team/http.rs`. What such a call
returns has a name where a few lines could not state it, and the function that
works on the result takes it as an argument.
