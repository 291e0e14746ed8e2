# config_docs

A library that extracts the documentation of a configuration file from rustdoc JSON, verified with
Verus, and a program around it.

The fields of the main struct of a configuration stand for the sections of the file. The library
finds the structs that describe these sections, reads the doc comments of their fields, and looks up
the constants that the doc comments refer to. A doc comment is a description, a line `---`, and
annotations such as `@default:`, `@notes:` or `@toml_example: |`.

- `src/text.rs`, `src/names.rs`, `src/json.rs`: texts, sets and maps of names, JSON values.
- `src/block.rs`, `src/annotation.rs`, `src/field.rs`: blocks, annotations, doc comments of fields.
- `src/constant.rs`: references to constants, and their values.
- `src/item.rs`, `src/section.rs`, `src/structs.rs`, `src/config.rs`: items of a rustdoc index, the
  sections, the structs, and the whole.
- `src/message.rs`: what is told of the sections that are found.
- `src/rustdoc.rs`: how rustdoc is asked for JSON, and what comes of it.
- `src/clarity/`: serialisation traits of Clarity values, and the errors of the Clarity type checker.
- `app/`: the command line program, and what needs the traits of serde, clap and std.

Functions named `law_` state what holds of the library as a whole. JSON is read with `serde_json`,
references to constants are found with `regex`, and texts are quoted with the `{:?}` of std's
`format!`: the functions that call them are marked `external_body`, and say what they claim of them.
