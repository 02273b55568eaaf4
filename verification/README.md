# typed-openapi, verified

A library that reduces an OpenAPI 3 document — corrected by Overlays — to what a
command line needs, builds and judges the requests a CLI or a typed Rust caller
sends, and decides what every generated subcommand, flag and wrapper says.

- `src/` is the library, checked by Verus: every decision carries a contract,
  and the promises the library makes as a whole stand as proof functions — a dry
  run holds exactly the request a confirmed run sends, a named gate is answered
  beside the confirmation and never instead of it, a scripted transport answers
  each route in the order it was scripted, a multipart boundary never occurs in
  the content it separates, a body whose parts are all text reads back under its
  own `Content-Type` as exactly its own text, and more.
- `app/` is ordinary Rust around it: the clap tree and the trip back from
  `ArgMatches`, the transports, the typed client, the reduced model as committed
  bytes, and the bless step that reads files and emits Rust with `quote!`.
- `tests/` exercises the library on concrete documents and values.
