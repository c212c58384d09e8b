# halo2_proofs support code, verified

The support modules that `halo2` builds on, written in Verus:

- `io`: the `Read` and `Write` traits, with `read_exact` and `write_all`
  proved against the contracts of `read` and `write`; `Read` for `&[u8]`
  and `&mut R`, `Write` for `Vec<u8>`; the `Error` and `ErrorKind` types.
- `collections`: the FNV-1a hasher (`collections::fnv`) and `VecMap`, an
  insertion-order-preserving map (`collections::vec_map`), with the laws of
  insertion and lookup.
- `multicore`: the sequential form of the parallelism interface (`join`,
  `scope`, `Scope::spawn`, `current_num_threads`, the iterator marker traits
  and the `prelude` extension traits).

`app/` holds what stays outside the verifier: the `hashbrown` map aliases,
the iterator adapters that rest on `Iterator`'s own methods, and a copy of
the I/O error that implements `Display`.
