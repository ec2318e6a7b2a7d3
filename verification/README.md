# bitrepr

Conversion of values into and from their bit representation, with the bit
field arithmetic proved by Verus.

- `src/field.rs`: what reading and writing a bit field means over the
  integers, and the laws of it (a field reads back what was written to it,
  writing a field keeps every other field, fields that share no bit pack
  independently).
- `src/word.rs`: the shifts and masks of each unsigned integer type, proved
  against `field.rs`.
- `src/bits.rs`: the `Bits`, `FromBits` and `IntoBits` traits and their impls
  for `u8` to `u128`, and the `extract` and `insert` functions that derived
  code calls.
- `src/lib.rs`, `src/impls.rs`: the packing traits and their impls for the
  unsigned integers, `bool` and `char`.
- `src/derive.rs`: the rules of the derives: the `#[bitpack(..)]` attribute of
  a field, the collision check of the fields' bits, and the choice of the
  functions that pack and unpack each field.
- `app/lib.rs`: the derives themselves, which read a struct with `syn` and
  write its impls with `quote`.
