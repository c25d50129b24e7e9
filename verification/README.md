# httpr

The verified core of an httpx-compatible HTTP client.

- `src/` is the library, verified with Verus: header and query-parameter
  multidicts, URL parsing and mount routing, proxy settings, Basic and
  Digest authentication, multipart and form bodies, content decoders,
  responses, redirects, cookies, pagination, the stages a request goes
  through in a blocking or an asynchronous client, and the state of a
  blocking request across its redirects and a Digest challenge.
- `tests/` runs the library on concrete values.
- `app/` holds what the library leaves out: a small Python extension
  module with a few of the library's helpers (not the client classes), the
  network transport over reqwest, a blocking client that drives the
  library's stages and its request state (Basic and Digest
  authentication, redirects, JSON bodies through serde_json), and the proxy variables of the
  environment.

Calls into base64, md-5, sha1, sha2, url, flate2, brotli, zstd,
percent-encoding and rand stand behind small trusted wrappers whose
contracts name or state their results.
