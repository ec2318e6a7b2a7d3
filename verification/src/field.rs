//! The arithmetic meaning of a bit field.
//!
//! A bit field of an unsigned value is a run of `width` bits that starts at
//! bit `start` (bit 0 is the least significant bit). Reading such a field is
//! `(v / 2^start) % 2^width`; writing one replaces exactly those bits and
//! keeps every other bit of the value. Everything here is stated over
//! mathematical integers, so that it holds for every width of integer that
//! the library packs into.
use vstd::prelude::*;
use vstd::arithmetic::power2::{pow2, lemma_pow2_pos, lemma_pow2_adds, lemma_pow2_strictly_increases};
use vstd::arithmetic::div_mod::{
    lemma_fundamental_div_mod,
    lemma_fundamental_div_mod_converse,
    lemma_div_denominator,
    lemma_div_pos_is_pos,
    lemma_mod_bound,
    lemma_small_mod,
    lemma_mod_mod,
    lemma_div_of0,
};
use vstd::arithmetic::mul::{
    lemma_mul_inequality,
    lemma_mul_is_associative,
    lemma_mul_is_commutative,
    lemma_mul_is_distributive_add,
    lemma_mul_is_distributive_sub,
    lemma_mul_nonnegative,
};

verus! {

/// The value held by the `width` bits of `v` that start at bit `start`.
pub open spec fn field_of(v: int, start: nat, width: nat) -> int {
    (v / pow2(start) as int) % (pow2(width) as int)
}

/// `v` with the `width` bits that start at bit `start` replaced by the low
/// `width` bits of `bits`; every other bit of `v` is kept.
pub open spec fn with_field(v: int, start: nat, width: nat, bits: int) -> int {
    v - field_of(v, start, width) * pow2(start) + (bits % (pow2(width) as int)) * pow2(start)
}

/// The number of bits of the inclusive bit range `start..=end`.
pub open spec fn range_width(start: int, end: int) -> nat {
    (end + 1 - start) as nat
}

/// A field never holds more than its width allows.
pub proof fn lemma_field_of_bounds(v: int, start: nat, width: nat)
    ensures
        0 <= field_of(v, start, width) < pow2(width),
{
    lemma_pow2_pos(start);
    lemma_pow2_pos(width);
    lemma_mod_bound(v / pow2(start) as int, pow2(width) as int);
}

/// Every non-negative value splits into the bits above a field, the field
/// itself and the bits below it.
pub proof fn lemma_split_at_field(v: int, start: nat, width: nat)
    requires
        0 <= v,
    ensures
        v == (v / pow2(start + width) as int) * pow2(start + width) + field_of(v, start, width)
            * pow2(start) + v % (pow2(start) as int),
        0 <= v % (pow2(start) as int) < pow2(start),
        0 <= v / pow2(start + width) as int,
{
    let ps = pow2(start) as int;
    let pw = pow2(width) as int;
    lemma_pow2_pos(start);
    lemma_pow2_pos(width);
    lemma_pow2_adds(start, width);
    lemma_fundamental_div_mod(v, ps);
    lemma_fundamental_div_mod(v / ps, pw);
    lemma_div_pos_is_pos(v, ps);
    lemma_div_denominator(v, ps, pw);
    lemma_div_pos_is_pos(v / ps, pw);
    lemma_mod_bound(v, ps);
    let hi = v / (ps * pw);
    let mid = (v / ps) % pw;
    // v == ps * (v / ps) + v % ps and v / ps == pw * hi + mid
    assert(ps * (pw * hi + mid) == (hi * (ps * pw)) + mid * ps) by {
        lemma_mul_is_distributive_add(ps, pw * hi, mid);
        lemma_mul_is_associative(ps, pw, hi);
        lemma_mul_is_commutative(ps * pw, hi);
        lemma_mul_is_commutative(ps, mid);
    }
}

/// A value written as bits above, a field and bits below gives those parts back.
pub proof fn lemma_join_at_field(x: int, start: nat, width: nat, hi: int, mid: int, lo: int)
    requires
        0 <= hi,
        0 <= mid < pow2(width),
        0 <= lo < pow2(start),
        x == hi * pow2(start + width) + mid * pow2(start) + lo,
    ensures
        field_of(x, start, width) == mid,
        x % (pow2(start) as int) == lo,
        x / (pow2(start + width) as int) == hi,
        x % (pow2(start + width) as int) == mid * pow2(start) + lo,
        0 <= x,
{
    let ps = pow2(start) as int;
    let pw = pow2(width) as int;
    lemma_pow2_pos(start);
    lemma_pow2_pos(width);
    lemma_pow2_adds(start, width);
    let q = hi * pw + mid;
    assert(hi * (ps * pw) == (hi * pw) * ps) by {
        lemma_mul_is_commutative(ps, pw);
        lemma_mul_is_associative(hi, pw, ps);
    }
    assert(x == q * ps + lo) by {
        lemma_mul_is_distributive_add(ps, hi * pw, mid);
        lemma_mul_is_commutative(ps, hi * pw);
        lemma_mul_is_commutative(ps, mid);
        lemma_mul_is_commutative(ps, q);
    }
    lemma_mul_nonnegative(hi, pw);
    lemma_mul_nonnegative(q, ps);
    lemma_fundamental_div_mod_converse(x, ps, q, lo);
    lemma_fundamental_div_mod_converse(q, pw, hi, mid);
    lemma_div_denominator(x, ps, pw);
    // the low part stays below 2^(start + width)
    assert(mid * ps + lo < ps * pw) by {
        lemma_mul_inequality(mid, pw - 1, ps);
        lemma_mul_is_distributive_sub(ps, pw, 1);
        lemma_mul_is_commutative(ps, pw - 1);
    }
    lemma_mul_nonnegative(mid, ps);
    lemma_fundamental_div_mod_converse(x, ps * pw, hi, mid * ps + lo);
}

/// A field of the low `n` bits of a value is the same field of the value,
/// when the field lies inside those `n` bits.
proof fn lemma_field_of_low_part(v: int, start: nat, width: nat, n: nat)
    requires
        0 <= v,
        start + width <= n,
    ensures
        field_of(v % (pow2(n) as int), start, width) == field_of(v, start, width),
{
    let low = v % (pow2(n) as int);
    let above = (n - start - width) as nat;
    lemma_pow2_pos(n);
    lemma_mod_bound(v, pow2(n) as int);
    lemma_split_at_field(low, start, width);
    lemma_field_of_bounds(low, start, width);
    lemma_fundamental_div_mod(v, pow2(n) as int);
    lemma_div_pos_is_pos(v, pow2(n) as int);
    let hi_low = low / pow2(start + width) as int;
    let hi = (v / pow2(n) as int) * pow2(above) + hi_low;
    lemma_pow2_adds(above, start + width);
    assert(above + (start + width) == n);
    assert(pow2(n) * (v / pow2(n) as int) == ((v / pow2(n) as int) * pow2(above)) * pow2(
        start + width,
    )) by {
        lemma_mul_is_commutative(pow2(n) as int, v / pow2(n) as int);
        lemma_mul_is_associative(v / pow2(n) as int, pow2(above) as int, pow2(start + width) as int);
    }
    assert(hi * pow2(start + width) == ((v / pow2(n) as int) * pow2(above)) * pow2(start + width)
        + hi_low * pow2(start + width)) by {
        lemma_mul_is_distributive_add(
            pow2(start + width) as int,
            (v / pow2(n) as int) * pow2(above),
            hi_low,
        );
        lemma_mul_is_commutative(pow2(start + width) as int, hi);
        lemma_mul_is_commutative(pow2(start + width) as int, (v / pow2(n) as int) * pow2(above));
        lemma_mul_is_commutative(pow2(start + width) as int, hi_low);
    }
    lemma_pow2_pos(above);
    lemma_mul_nonnegative(v / pow2(n) as int, pow2(above) as int);
    lemma_join_at_field(v, start, width, hi, field_of(low, start, width), low % (pow2(start) as int));
}

/// A field of a value shifted down by `k` bits is the field `k` bits higher
/// up in the value.
proof fn lemma_field_of_high_part(v: int, start: nat, width: nat, k: nat)
    requires
        0 <= v,
        k <= start,
    ensures
        field_of(v / (pow2(k) as int), (start - k) as nat, width) == field_of(v, start, width),
{
    lemma_pow2_pos(k);
    lemma_pow2_pos((start - k) as nat);
    lemma_pow2_adds(k, (start - k) as nat);
    lemma_div_denominator(v, pow2(k) as int, pow2((start - k) as nat) as int);
}

/// The parts of `with_field(v, ..)`: the bits above and below the field are
/// those of `v`, the field holds the low bits of `bits`.
pub proof fn lemma_with_field_parts(v: int, start: nat, width: nat, bits: int)
    requires
        0 <= v,
    ensures
        ({
            let r = with_field(v, start, width, bits);
            &&& field_of(r, start, width) == bits % (pow2(width) as int)
            &&& r % (pow2(start) as int) == v % (pow2(start) as int)
            &&& r / (pow2(start + width) as int) == v / (pow2(start + width) as int)
            &&& 0 <= r
        }),
{
    lemma_pow2_pos(width);
    lemma_split_at_field(v, start, width);
    lemma_mod_bound(bits, pow2(width) as int);
    lemma_join_at_field(
        with_field(v, start, width, bits),
        start,
        width,
        v / (pow2(start + width) as int),
        bits % (pow2(width) as int),
        v % (pow2(start) as int),
    );
}

/// Reading a field back after writing it gives the low bits that were written.
pub proof fn lemma_read_after_write(v: int, start: nat, width: nat, bits: int)
    requires
        0 <= v,
    ensures
        field_of(with_field(v, start, width, bits), start, width) == bits % (pow2(width) as int),
{
    lemma_with_field_parts(v, start, width, bits);
}

/// Writing back what a field holds leaves the value unchanged.
pub proof fn lemma_write_what_was_read(v: int, start: nat, width: nat)
    ensures
        with_field(v, start, width, field_of(v, start, width)) == v,
{
    lemma_field_of_bounds(v, start, width);
    lemma_small_mod(field_of(v, start, width) as nat, pow2(width));
}

/// The second of two writes to one field is the one that stays.
pub proof fn lemma_last_write_wins(v: int, start: nat, width: nat, first: int, second: int)
    requires
        0 <= v,
    ensures
        with_field(with_field(v, start, width, first), start, width, second) == with_field(
            v,
            start,
            width,
            second,
        ),
{
    lemma_read_after_write(v, start, width, first);
}

/// The bit runs `[s1, s1 + w1)` and `[s2, s2 + w2)` share no bit.
pub open spec fn fields_apart(s1: nat, w1: nat, s2: nat, w2: nat) -> bool {
    s1 + w1 <= s2 || s2 + w2 <= s1
}

/// Writing a field leaves every field that shares no bit with it unchanged.
pub proof fn lemma_write_keeps_other_fields(
    v: int,
    start: nat,
    width: nat,
    bits: int,
    other_start: nat,
    other_width: nat,
)
    requires
        0 <= v,
        fields_apart(start, width, other_start, other_width),
    ensures
        field_of(with_field(v, start, width, bits), other_start, other_width) == field_of(
            v,
            other_start,
            other_width,
        ),
{
    let r = with_field(v, start, width, bits);
    lemma_with_field_parts(v, start, width, bits);
    if other_start + other_width <= start {
        lemma_field_of_low_part(r, other_start, other_width, start);
        lemma_field_of_low_part(v, other_start, other_width, start);
    } else {
        lemma_field_of_high_part(r, other_start, other_width, start + width);
        lemma_field_of_high_part(v, other_start, other_width, start + width);
    }
}

/// Writes to two fields that share no bit can be made in either order.
pub proof fn lemma_apart_writes_commute(
    v: int,
    start: nat,
    width: nat,
    bits: int,
    other_start: nat,
    other_width: nat,
    other_bits: int,
)
    requires
        0 <= v,
        fields_apart(start, width, other_start, other_width),
    ensures
        with_field(with_field(v, start, width, bits), other_start, other_width, other_bits)
            == with_field(with_field(v, other_start, other_width, other_bits), start, width, bits),
{
    lemma_write_keeps_other_fields(v, start, width, bits, other_start, other_width);
    lemma_write_keeps_other_fields(v, other_start, other_width, other_bits, start, width);
}

/// Writing a field into a value of `n` bits gives a value of `n` bits, when
/// the field lies inside them.
pub proof fn lemma_with_field_bounds(v: int, start: nat, width: nat, bits: int, n: nat)
    requires
        0 <= v < pow2(n),
        start + width <= n,
    ensures
        0 <= with_field(v, start, width, bits) < pow2(n),
{
    let r = with_field(v, start, width, bits);
    let sw = start + width;
    lemma_with_field_parts(v, start, width, bits);
    lemma_pow2_pos(sw);
    lemma_pow2_pos(n);
    lemma_fundamental_div_mod(r, pow2(sw) as int);
    lemma_mod_bound(r, pow2(sw) as int);
    lemma_pow2_adds((n - sw) as nat, sw);
    lemma_pow2_pos((n - sw) as nat);
    // the bits above the field are those of v, which stay below 2^(n - sw)
    lemma_div_denominator(v, pow2(sw) as int, pow2((n - sw) as nat) as int);
    lemma_mul_is_commutative(pow2(sw) as int, pow2((n - sw) as nat) as int);
    if v / pow2(sw) as int >= pow2((n - sw) as nat) {
        lemma_fundamental_div_mod(v, pow2(sw) as int);
        lemma_mod_bound(v, pow2(sw) as int);
        lemma_mul_inequality(pow2((n - sw) as nat) as int, v / pow2(sw) as int, pow2(sw) as int);
        lemma_mul_is_commutative(pow2(sw) as int, v / pow2(sw) as int);
    }
    assert(r < pow2(n)) by {
        lemma_mul_inequality(r / pow2(sw) as int, pow2((n - sw) as nat) - 1, pow2(sw) as int);
        lemma_mul_is_distributive_sub(pow2(sw) as int, pow2((n - sw) as nat) as int, 1);
        lemma_mul_is_commutative(pow2(sw) as int, pow2((n - sw) as nat) - 1);
        lemma_mul_is_commutative(pow2(sw) as int, r / pow2(sw) as int);
    }
}

/// `2^(start + width) - 1` shifted down by `start` bits is `2^width - 1`.
pub proof fn lemma_low_mask_shifted(start: nat, width: nat)
    ensures
        (pow2(start + width) - 1) / (pow2(start) as int) == pow2(width) - 1,
{
    lemma_pow2_pos(start);
    lemma_pow2_pos(width);
    lemma_pow2_adds(start, width);
    lemma_mul_is_distributive_sub(pow2(start) as int, pow2(width) as int, 1);
    lemma_mul_is_commutative(pow2(start) as int, pow2(width) - 1);
    lemma_mul_is_commutative(pow2(start) as int, pow2(width) as int);
    lemma_fundamental_div_mod_converse(
        pow2(start + width) - 1,
        pow2(start) as int,
        pow2(width) - 1,
        pow2(start) - 1,
    );
}

/// A value below `2^width` moved up by `start` bits stays below `2^n`, when
/// `start + width <= n`.
pub proof fn lemma_field_fits_word(x: int, start: nat, width: nat, n: nat)
    requires
        0 <= x < pow2(width),
        start + width <= n,
    ensures
        0 <= x * pow2(start) <= pow2(n) - 1,
{
    lemma_pow2_pos(start);
    lemma_mul_nonnegative(x, pow2(start) as int);
    lemma_mul_inequality(x, pow2(width) - 1, pow2(start) as int);
    lemma_mul_is_distributive_sub(pow2(start) as int, pow2(width) as int, 1);
    lemma_mul_is_commutative(pow2(start) as int, pow2(width) - 1);
    lemma_mul_is_commutative(pow2(start) as int, pow2(width) as int);
    lemma_pow2_adds(start, width);
    if start + width < n {
        lemma_pow2_strictly_increases(start + width, n);
    }
}

/// The low `start + width` bits of a value are its field above its low `start` bits.
pub proof fn lemma_low_part_of_value(v: int, start: nat, width: nat)
    requires
        0 <= v,
    ensures
        v % (pow2(start + width) as int) == field_of(v, start, width) * pow2(start) + v % (pow2(
            start,
        ) as int),
{
    lemma_split_at_field(v, start, width);
    lemma_field_of_bounds(v, start, width);
    lemma_join_at_field(
        v,
        start,
        width,
        v / (pow2(start + width) as int),
        field_of(v, start, width),
        v % (pow2(start) as int),
    );
}

/// Powers of two grow with their exponent.
pub proof fn lemma_pow2_le(a: nat, b: nat)
    requires
        a <= b,
    ensures
        pow2(a) <= pow2(b),
{
    if a < b {
        lemma_pow2_strictly_increases(a, b);
    }
}

/// Keeping the low `b` bits and then the low `a <= b` bits keeps the low `a` bits.
pub proof fn lemma_low_bits_twice(x: int, a: nat, b: nat)
    requires
        0 <= x,
        a <= b,
    ensures
        (x % (pow2(b) as int)) % (pow2(a) as int) == x % (pow2(a) as int),
{
    lemma_pow2_pos(a);
    lemma_pow2_pos((b - a) as nat);
    lemma_pow2_adds(a, (b - a) as nat);
    lemma_mod_mod(x, pow2(a) as int, pow2((b - a) as nat) as int);
}

/// A field to pack: its first bit, its number of bits and its value.
pub type FieldValue = (nat, nat, int);

/// Writes the fields one after another into a value whose bits are all zero,
/// as a derived `pack` does.
pub open spec fn pack_fields(fields: Seq<FieldValue>) -> int
    decreases fields.len(),
{
    if fields.len() == 0 {
        0
    } else {
        let f = fields.last();
        with_field(pack_fields(fields.drop_last()), f.0, f.1, f.2)
    }
}

/// No two of the fields share a bit.
pub open spec fn fields_pairwise_apart(fields: Seq<FieldValue>) -> bool {
    forall|i: int, j: int|
        0 <= i < j < fields.len() ==> fields_apart(
            #[trigger] fields[i].0,
            fields[i].1,
            #[trigger] fields[j].0,
            fields[j].1,
        )
}

/// Packing fields that share no bit keeps each of them: every field reads
/// back as the low bits of the value written to it, and the bits of no field
/// stay zero.
pub proof fn lemma_packed_fields_read_back(fields: Seq<FieldValue>)
    requires
        fields_pairwise_apart(fields),
    ensures
        0 <= pack_fields(fields),
        forall|i: int|
            0 <= i < fields.len() ==> field_of(pack_fields(fields), #[trigger] fields[i].0, fields[i].1)
                == fields[i].2 % (pow2(fields[i].1) as int),
        forall|s: nat, w: nat|
            (forall|i: int| 0 <= i < fields.len() ==> fields_apart(s, w, #[trigger] fields[i].0, fields[i].1))
                ==> #[trigger] field_of(pack_fields(fields), s, w) == 0,
    decreases fields.len(),
{
    if fields.len() == 0 {
        assert forall|s: nat, w: nat| #[trigger] field_of(0, s, w) == 0 by {
            lemma_pow2_pos(s);
            lemma_pow2_pos(w);
            lemma_div_of0(pow2(s) as int);
            lemma_small_mod(0, pow2(w));
        }
    } else {
        let rest = fields.drop_last();
        let f = fields.last();
        let packed = pack_fields(rest);
        assert(fields_pairwise_apart(rest)) by {
            assert forall|i: int, j: int| 0 <= i < j < rest.len() implies fields_apart(
                #[trigger] rest[i].0,
                rest[i].1,
                #[trigger] rest[j].0,
                rest[j].1,
            ) by {
                assert(rest[i] == fields[i] && rest[j] == fields[j]);
            }
        }
        lemma_packed_fields_read_back(rest);
        lemma_with_field_parts(packed, f.0, f.1, f.2);
        assert forall|i: int| 0 <= i < fields.len() implies field_of(
            pack_fields(fields),
            #[trigger] fields[i].0,
            fields[i].1,
        ) == fields[i].2 % (pow2(fields[i].1) as int) by {
            if i < fields.len() - 1 {
                assert(rest[i] == fields[i]);
                assert(fields_apart(fields[i].0, fields[i].1, fields[fields.len() - 1].0, fields[fields.len() - 1].1));
                lemma_write_keeps_other_fields(packed, f.0, f.1, f.2, fields[i].0, fields[i].1);
            } else {
                lemma_read_after_write(packed, f.0, f.1, f.2);
            }
        }
        assert forall|s: nat, w: nat|
            (forall|i: int| 0 <= i < fields.len() ==> fields_apart(s, w, #[trigger] fields[i].0, fields[i].1))
            implies #[trigger] field_of(pack_fields(fields), s, w) == 0 by {
            assert forall|i: int| 0 <= i < rest.len() implies fields_apart(s, w, #[trigger] rest[i].0, rest[i].1) by {
                assert(rest[i] == fields[i]);
            }
            assert(fields_apart(s, w, fields[fields.len() - 1].0, fields[fields.len() - 1].1));
            lemma_write_keeps_other_fields(packed, f.0, f.1, f.2, s, w);
        }
    }
}

/// The facts about a field of an `n`-bit value that the typed field laws
/// rest on: every value written stays an `n`-bit value, fields stay within
/// their widths, a field reads back what was written to it, writing back what
/// was read changes nothing, the last write wins, and writes to fields apart
/// from each other keep each other and commute.
pub proof fn lemma_field_laws(v: int, start: nat, width: nat, x: int, y: int, other_start: nat, other_width: nat, n: nat)
    requires
        0 <= v < pow2(n),
        start + width <= n,
        other_start + other_width <= n,
    ensures
        ({
            let v1 = with_field(v, start, width, x);
            let v2 = with_field(v, other_start, other_width, y);
            &&& 0 <= v1 < pow2(n)
            &&& 0 <= v2 < pow2(n)
            &&& 0 <= with_field(v1, start, width, y) < pow2(n)
            &&& 0 <= with_field(v1, other_start, other_width, y) < pow2(n)
            &&& 0 <= with_field(v2, start, width, x) < pow2(n)
            &&& 0 <= field_of(v, start, width) < pow2(width)
            &&& 0 <= field_of(v, other_start, other_width) < pow2(other_width)
            &&& 0 <= field_of(v1, other_start, other_width) < pow2(other_width)
            &&& field_of(v1, start, width) == x % (pow2(width) as int)
            &&& with_field(v, start, width, field_of(v, start, width)) == v
            &&& with_field(v1, start, width, y) == with_field(v, start, width, y)
            &&& fields_apart(start, width, other_start, other_width) ==> {
                &&& field_of(v1, other_start, other_width) == field_of(v, other_start, other_width)
                &&& with_field(v1, other_start, other_width, y) == with_field(v2, start, width, x)
            }
        }),
{
    let v1 = with_field(v, start, width, x);
    let v2 = with_field(v, other_start, other_width, y);
    lemma_with_field_bounds(v, start, width, x, n);
    lemma_with_field_bounds(v, other_start, other_width, y, n);
    lemma_with_field_bounds(v1, start, width, y, n);
    lemma_with_field_bounds(v1, other_start, other_width, y, n);
    lemma_with_field_bounds(v2, start, width, x, n);
    lemma_field_of_bounds(v, start, width);
    lemma_field_of_bounds(v, other_start, other_width);
    lemma_field_of_bounds(v1, other_start, other_width);
    lemma_read_after_write(v, start, width, x);
    lemma_write_what_was_read(v, start, width);
    lemma_last_write_wins(v, start, width, x, y);
    if fields_apart(start, width, other_start, other_width) {
        lemma_write_keeps_other_fields(v, start, width, x, other_start, other_width);
        lemma_apart_writes_commute(v, start, width, x, other_start, other_width, y);
    }
}

} // verus!
