# rwhois

A Referral Whois (RWhois, RFC 2167) protocol library whose logic is
verified with Verus, and a tokio server around it.

- `src/` — the verified library: line framing (`codec`), the `%rwhois`
  banner, response codes, request classification, response writing and
  parsing (`wire`), the query grammar (`query`), session state
  (`session`), the built-in directives (`directive`), and the decisions of
  a server connection (`server`, `context`). Contracts are stated over
  spec functions of the texts and bytes involved; round-trip and
  state-transition laws are public proof functions beside the code they
  speak of.
- `app/` — the asynchronous server: accept loop, per-connection loop,
  directive registry, handler traits, and the `tokio_util` codec adapter.
  It performs the I/O and awaits the handlers; every decision it acts on
  comes from the library.
- `tests/` — the library's tests, including RFC 2167 transcripts.
