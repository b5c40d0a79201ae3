# aero

A minimalist HTTP framework whose core is verified with Verus.

- `src/text.rs`: searching, line splitting and whitespace-separated words over string views.
- `src/headers.rs`: an insertion-ordered header map with distinct names.
- `src/request.rs`: reading a request text into method, path, version, headers and body.
- `src/response.rs`: building a response and rendering it with its `Content-Length`.
- `src/application.rs`, `src/router.rs`: routes by method and path prefix, routers
  mounted under a prefix, the per-request context and the final response.
- `src/aio/`: the chained variant, where middlewares run in order before a handler.
- `app/`: the TCP servers, the user callbacks and JSON serialisation.
