# herdr-ssh-manager

Save SSH hosts and reconnect to them from Herdr.

- `src/` is the library, verified with Verus: the data model and its file format, the ssh
  command line, the ssh config parser, the picker's matching, keys and screen, the editing
  forms, the hand-off to Herdr, and the changes to Herdr's config. Each function's contract
  says what it returns; functions named `law_...` state what holds of several of them
  together.
- `app/` is the program around it: the command line, files, processes, prompts and the
  terminal.
- `tests/` runs the library, with the crates it uses linked in.

What the library has from other crates stands behind small functions marked
`#[verifier::external_body]`, whose doc comments name what they call and what is believed of
it: `chrono` in `time.rs`, `nucleo-matcher` in `picker.rs`, `serde_json` in `json_value.rs`,
`toml` in `toml_value.rs`, and two functions of the standard library in `text.rs` and
`herdr.rs`.
