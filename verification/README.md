# macro_workshop

Verified planning logic for a family of procedural macros:

- `#[bitfield]` / `bit_fields!` (`src/bitfield.rs`, `src/access.rs`): the
  `B1`..`B64` width specifiers, how a field type names its width, the packed
  layout of a bit-field struct, and what its generated getters and setters
  do to the storage bytes.
- `#[derive(Builder)]` (`src/builder.rs`, `src/builder_struct.rs`): which
  chaining setter each field gets.
- `#[derive(CustomDebug)]` (`src/debug.rs`): `#[debug = "..."]` formats,
  inferred `Debug` bounds, and the text the generated `fmt` writes.
- `#[sorted]` / `#[sorted::check]` (`src/sorted.rs`): lexicographic order of
  enum variants and of match arms.

`src/text.rs` holds the shared character-level helpers (decimal numbers,
the order of `str`, joining). Everything under `src/` is checked by Verus.

`app/` holds the token-level front ends (parsing with `syn`, emitting with
`quote`) and the small example programs. The code they emit calls back
into the library: the getters and setters of a `#[bitfield]` struct are
calls of the verified `access::get_bits` / `access::set_bits` (after a
check that the storage is at most 8 bytes), and the `fmt` of
`#[derive(CustomDebug)]` formats each field into a `String` and writes the
result of the verified `debug::render_debug`. A crate that uses these
macros therefore depends on `macro_workshop` as well.
