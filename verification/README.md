# faer_core

Strided matrix and vector views, and owning matrices that are stored in column major format, with
contracts that Verus proves.

- `src/word.rs`, `src/model.rs`: arithmetic on machine words, and the mathematical models of
  pointers, vectors and matrices.
- `src/memory.rs`: pointers that know the memory that they were made from.
- `src/mat_ref.rs`, `src/mat_mut.rs`, `src/row_ref.rs`, `src/row_mut.rs`, `src/col_ref.rs`,
  `src/col_mut.rs`, `src/slices.rs`, `src/iter.rs`: views and their iterators.
- `src/complex.rs`: views over the real and the imaginary parts of complex elements.
- `src/mat.rs`: owning matrices.
- `src/stack.rs`, `src/join.rs`: stack requirements of temporary matrices, and parallel operations.
- `src/debug.rs`: matrices as text.
- `src/laws.rs`: laws that relate the operations.
- `app/`: floating point fields, standard traits and macros around the library.

What is believed without proof is marked `external_body` or `external_type_specification`, in
`src/complex.rs`, `src/stack.rs` and `src/join.rs`. Each such item says which function of another
crate it stands for.
