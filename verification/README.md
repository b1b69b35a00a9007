# rustling_chains

The rules of a fantasy disc-golf service, written in Verus and proved against their
contracts: how placements become fantasy points, how a competition's rounds are read from the
results service and which round is current, which picks count for a user, when each
participant may exchange players, how picks are changed and the trades are logged, and who
may do what.

Layout:

- `src/` — the verified library, one module per concern (`scoring`, `round`, `competition`,
  `competition_scores`, `user_score`, `exchange`, `trading`, `tradelog`, `auth`, `queries`,
  `dates`, `time`, `division`, `error`, and the helpers `sorting` and `text`). Calls into
  chrono, chrono-tz, bcrypt and rand stand behind small trusted wrappers whose contracts are
  stated in their doc comments.
- `tests/` — tests of the library on concrete values.
- `app/` — a thin command-line front end: it reads a JSON request, converts it to the
  library's types and prints the answer.
