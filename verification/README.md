# pinentry-dms

A pinentry that shows a DankMaterialShell modal for passphrase entry (for
gopass + age), written in Verus.

- `src/` is the verified library:
  - `assuan.rs` — the Assuan side: command reader, `OK`/`D`/`ERR`/`#` writer,
    the dialog `State` that `SET*`/`OPTION` commands fill, canonical errors.
  - `percent.rs` — Assuan percent escaping, with the round-trip law.
  - `session.rs` — command-line options, the command loop's decisions and
    the replies for each modal outcome.
  - `ipc.rs` — what the bridge to the DMS plugin decides: the request, the
    socket name, the deadline, when to stop waiting, reply framing.
  - `text.rs` — character-level helpers (comparison, trimming, case mapping,
    splitting, decimal numbers, `i32` parsing).
- `app/` is the binary: stdin/stdout, the Unix socket, the `dms` child
  process and JSON (serde), driven by the library's decisions.
- `tests/` runs the library on concrete inputs.
