# sharphttp

The core of an asynchronous HTTP client for Python, verified with Verus.

- `src/` is the library. It lays requests out, keeps the cookies of a session, and reads
  responses as text and as JSON. It performs no I/O. Every function states what it returns, and
  the functions named `law_...` state what holds between them.
  - `text`: texts taken apart
  - `pairs`: name/value pairs and the maps they come from
  - `header_list`: ordered header fields
  - `params`: query strings
  - `origin`: URLs, by the parts that matter to cookies
  - `cookies`: the cookie jar
  - `request`: request plans and the requests made of them
  - `decode`: content codings and text encodings
  - `json`: JSON values, opened one level deep
  - `response`, `session`: what a caller holds
- `app/` is the Python module. It sends the requests and waits for the responses.
- `tests/` runs the library.

What `brotli`, `bytes`, `cookie_store`, `encoding_rs`, `flate2`, `hyper`, `serde_json`, `smallvec`,
`url` and `urlencoding` do is stated in the functions marked `external_body`, each beside a comment
that says what is claimed of the call, and is not proved.
