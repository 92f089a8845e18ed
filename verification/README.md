# hartex

The logic of the HarTex Discord bot as a Verus-verified library.

- `src/` is the library. Its functions carry contracts that Verus proves;
  calls into `rdkafka`, `owo-colors`, `fluent-bundle`, `unic-langid`,
  `twilight-mention`, `twilight-util` (snowflakes), `rand` and a few std
  functions go through small trusted wrappers whose contracts restate what
  those crates show. Discord's embed limits are checked by verified code of
  the library itself.
- `tests/` runs the library against concrete values, and compares the embed
  limits with `twilight-validate`.
- `app/` is the runtime glue that Verus does not see: reading files and the
  environment, running `cargo`, converting Discord and Fluent values, and
  emitting the source of the localization bindings and table structs.
