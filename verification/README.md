# http-server

A simple, configurable command-line HTTP server: it serves the files of a
directory, or a file explorer over them, with optional Basic Authentication
and CORS headers.

Most decisions the server makes live in a library verified with Verus
(`src/`): routing, path resolution, listings, authentication, headers and
the answers to each outcome. The program in `app/` reads the command line,
binds the socket, touches the file system and speaks HTTP; it calls the
library for those decisions, and itself decides only what the file system
reported (missing, forbidden, a directory or a file) and how an answer is
written out.

## Layout

- `src/path.rs`: path components, `PathBuf::push` and the traversal-safe
  normalization, with the proof that a resolved path stays under its root.
- `src/file_system.rs`: the file system scoped to a root directory.
- `src/url_encode.rs`: percent-encoding of paths as URIs and their decoding,
  with the round-trip proofs.
- `src/explorer.rs`: directory listings: entry links, breadcrumbs, entry
  kinds and the listing order (directories by name, then files).
- `src/handlers.rs`: which handler serves a request and how each outcome of
  resolving a path is answered.
- `src/middleware.rs`: the middleware a configuration installs and the order
  in which the chain runs around the handler.
- `src/basic_auth.rs`, `src/cors.rs`, `src/headers.rs`: Basic
  Authentication, CORS headers, entity tags, cache directives and the headers
  of a file response.
- `src/fmt.rs`, `src/terminal.rs`, `src/text.rs`: byte sizes and dates as
  text, terminal colors, and character helpers.
- `src/config.rs`, `src/query_params.rs`, `src/http_error.rs`,
  `src/release.rs`: configuration values, query parameters, error answers and
  the release binary's location.
- `tests/`: tests of the library on concrete values.
- `app/main.rs`: the program.
