# NEO

The rules by which NEO is packaged, signed and notarized for macOS, as a Verus library, with the
palettes and the menus of the app.

- `src/` holds the rules. Every function there has a contract that Verus proves. It reads no file and
  runs no command: it is handed what was found, and says what comes next.
- `app/main.rs` is the program around it. It reads files, runs commands and prints reports.
- `app/window.rs` is the app itself. It is built on its own, with libneo and GPUI.
- `tests/` runs the library on concrete values.

```sh
cargo xtask check-source
cargo xtask check-sdk
cargo xtask package [--debug]
cargo xtask sign
cargo xtask notarize
cargo xtask local-cargo <arguments...>
```

Packaging uses the release profile unless `--debug` is given. Signing uses the installed Developer ID
Application identity, or the one that `NEO_SIGNING_IDENTITY` names. Signing and notarizing need
`NEO_SIGNING_TEAM_IDENTIFIER`, the team identifier of ten characters, and refuse without it.
`local-cargo` takes libneo from the checkout that `NEO_LOCAL_LIBNEO_PATH` names, or from `../libneo`.

What is believed without proof stands in `src/encoding.rs`, `src/documents.rs`,
`src/property_list.rs`, `src/digest.rs`, `src/platform.rs` and, for `String::push`, `src/text.rs`:
what the standard library and the crates `toml`, `serde_json`, `plist`, `sha2` and `cargo-platform`
do.
