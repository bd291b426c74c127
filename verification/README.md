# httped

An HTTP request and response inspection service (echoes of requests,
status codes, redirects, authentication, server-sent events, random data).

- `src/` is the verified library: what each endpoint computes from a
  request, with its contract, and the laws of the service (redirect chains
  keep their mount point, line splitting undoes joining, bearer headers give
  back their tokens, byte streams send exactly the requested length, ...).
- `app/` is the server: command line, routing, request extraction, response
  writing and the timing of event streams.
- `tests/` runs the library on concrete requests.
