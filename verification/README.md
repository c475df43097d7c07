# ldk_lite

A small Lightning node library, verified with Verus.

- `src/` is the verified library:
  - `error.rs`: the error type and the message shown for each error;
  - `ser.rs`: the byte encodings of payment fields, produced and read by
    lightning's serialization, including its BigSize length prefixes;
  - `payment_store.rs`: payment records, their stored form (with the law
    that what is written reads back unchanged), and the payment table keyed
    by payment hash;
  - `hex_utils.rs`: hex text of byte strings and public keys;
  - `io.rs`: where the node's files live, the keys seed, parsing of
    `pubkey@host:port` peers, splitting the channel peer file into lines,
    and reading stored payments;
  - `io_utils.rs`: the unpersisting interface and the steps a file store
    takes to unpersist a key.
- `app/` performs the file and network I/O around the library.
- `tests/` runs the library on concrete values.
