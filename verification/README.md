# backhand

Two pieces of a SquashFS reader, verified with Verus.

- `src/v3_lzma` decompresses LZMA blocks whose framing is not known beforehand: the standard
  `.lzma` format, a bare LZMA1 stream behind a short header, or one without any header.
  `compressor.rs` states and decides which framing counts, `raw_stream.rs` drives the decoder of
  `liblzma`, `alone.rs` the reader of `lzma_rust2`, and `laws.rs` holds what is true of every block.
- `src/v4/xattr.rs` holds the extended attribute tables: namespaces, full names, and the entries as
  bytes in either byte order. `laws.rs` beside it holds the round trips.
- `src/endian.rs` is shared by both.

What is not proved are the contracts of the few functions marked `external_body`, each of which
makes one call into `liblzma`, `lzma_rust2` or `std`; its comment says what is claimed of that call.

`app/` holds the trait and codec plumbing that a reader needs around the library.
