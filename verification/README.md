# jimjam

A configurable HTTP mock server: endpoints and their responses are defined in
YAML files, and each request is answered by the first response whose
conditions it meets.

The library (`src/`) is written in Verus and holds everything the server
decides:

- `matcher`: path patterns with `{param}` segments, query-string parsing, and
  the conditions of a response (path params, query params and substrings,
  headers matched by lowercased name, body substrings, top-level JSON members,
  body regex); `find_matching_response` picks the first response that applies.
- `server`: which endpoint and response answer a request, where a response body
  comes from, when the default `Content-Type` is added, and the JSON texts the
  server writes itself.
- `mock`, `config`: the definition types and their defaults.
- `watcher`: when a batch of file events calls for a reload.
- `strmap`: the string map used for parameters, headers and conditions.
- `text`: models of the string operations the matcher is built from.
- `laws`: properties that span these definitions (fallback responses, case-
  insensitive header names and methods, slashes around paths, query pairs).
- `trusted`: the calls into std, `regex` and `serde_json` whose results are
  named rather than computed here.

`app/` is the program around it: reading the YAML files with `serde_yaml`, the
`axum` server, the `notify` file watcher and `main`.
