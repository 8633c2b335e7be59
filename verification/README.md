# digg

A DNS lookup tool in the spirit of `dig`, with DNS-over-TLS, DNS-over-HTTPS,
DNSSEC records, delegation tracing, zone transfers, server comparison,
propagation checks, watch mode and batch input.

The library is written in Verus: every public function in `src/` carries a
`requires`/`ensures` contract, every function there is verified, and the
properties that span several functions stand as public proof functions next
to the code they speak of.

## Layout

- `src/protocol/` — the DNS wire format: names (with compression pointers),
  headers, questions, resource records and their RDATA, EDNS(0) options,
  whole messages, and the presentation (text) form of records.
- `src/cli.rs` — command-line and `~/.diggrc` option parsing, `+option`
  handling, positional query resolution, reverse-lookup names.
- `src/batch.rs` — batch-file lines.
- `src/output.rs` — the text renderings (full, short, TSV, trace, AXFR,
  comparison, propagation), written into a `String`.
- `src/trace.rs`, `src/watch.rs`, `src/axfr.rs` — the decisions of the
  iterative modes, as state and step functions; `src/transport.rs`,
  `src/dot.rs`, `src/doh.rs` — framing, ID checks and endpoint selection.
- `src/idn.rs`, `src/text.rs` — internationalised names and text helpers;
  calls into `idna`, `base64`, `rand` and a few `std` string functions sit
  behind small trusted wrappers whose contracts are documented in place.
- `app/` — the executable: argument and file reading, sockets, TLS, HTTPS,
  timing, JSON/YAML serialisation and printing. It drives the library and
  holds no protocol logic of its own.
- `tests/` — unit and scenario tests run against the compiled library.
