//! What the accessors generated for a `#[bitfield]` struct do at run time:
//! the storage bytes are read as one little-endian `u64`, a field is the
//! `bits`-wide slice of it that starts at bit `offset`, and a setter replaces
//! that slice alone.
use vstd::prelude::*;

verus! {

/// The mask of the `k` lowest bits (all 64 bits for `k >= 64`).
pub open spec fn low_bits(k: u64) -> u64 {
    if k >= 64 {
        0xffff_ffff_ffff_ffffu64
    } else {
        ((1u64 << k) - 1) as u64
    }
}

/// The value of the field of `bits` bits at bit `offset` of `raw`.
pub open spec fn get_field_spec(raw: u64, offset: u64, bits: u64) -> u64 {
    (raw >> offset) & low_bits(bits)
}

/// `raw` with the field of `bits` bits at bit `offset` replaced by the low
/// `bits` bits of `value`.
pub open spec fn set_field_spec(raw: u64, offset: u64, bits: u64, value: u64) -> u64 {
    (raw & !(low_bits(bits) << offset)) | ((value & low_bits(bits)) << offset)
}

/// The bytes `s` read as a little-endian integer (what `u64::from_le_bytes`
/// gives for them padded with zero bytes to eight).
pub open spec fn le_u64(s: Seq<u8>) -> u64
    decreases s.len(),
{
    if s.len() == 0 {
        0
    } else {
        (s[0] as u64) | (le_u64(s.drop_first()) << 8u64)
    }
}

/// Byte `k` of `x` in little-endian order.
pub open spec fn byte_at(x: u64, k: int) -> u8 {
    ((x >> ((8 * k) as u64)) & 0xffu64) as u8
}

proof fn lemma_mask_step(x: u64, m: u64)
    by (bit_vector)
    requires
        m <= 56,
    ensures
        ((x & 0xffu64) as u8) as u64 | (((x >> 8u64) & low_bits(m)) << 8u64) == x & low_bits(
            (m + 8) as u64,
        ),
{
}

proof fn lemma_byte_shift(x: u64, k: u64)
    by (bit_vector)
    requires
        k < 8,
    ensures
        ((x >> (8 * (k + 1)) as u64) & 0xffu64) as u8 == (((x >> 8u64) >> (8 * k) as u64)
            & 0xffu64) as u8,
{
}

proof fn lemma_le_of_bytes(x: u64, n: nat)
    requires
        n <= 8,
    ensures
        le_u64(Seq::new(n, |k: int| byte_at(x, k))) == x & low_bits((8 * n) as u64),
    decreases n,
{
    let s = Seq::new(n, |k: int| byte_at(x, k));
    if n == 0 {
        assert(x & low_bits(0) == 0) by (bit_vector);
    } else {
        let rest = Seq::new((n - 1) as nat, |k: int| byte_at(x >> 8u64, k));
        assert forall|k: int| 0 <= k < n - 1 implies #[trigger] s.drop_first()[k] == rest[k] by {
            lemma_byte_shift(x, k as u64);
        }
        assert(s.drop_first() =~= rest);
        lemma_le_of_bytes(x >> 8u64, (n - 1) as nat);
        assert(s[0] == ((x & 0xffu64) as u8)) by {
            assert(x >> 0u64 == x) by (bit_vector);
        }
        lemma_mask_step(x, (8 * (n - 1)) as u64);
    }
}

proof fn lemma_le_bounded(s: Seq<u8>)
    requires
        s.len() <= 8,
    ensures
        le_u64(s) & low_bits((8 * s.len()) as u64) == le_u64(s),
    decreases s.len(),
{
    if s.len() == 0 {
        assert(0u64 & low_bits(0) == 0) by (bit_vector);
    } else {
        lemma_le_bounded(s.drop_first());
        let r = le_u64(s.drop_first());
        let b = s[0];
        let m = (8 * (s.len() - 1)) as u64;
        assert(r & low_bits(m) == r ==> ((b as u64) | (r << 8u64)) & low_bits((m + 8) as u64) == (
        b as u64) | (r << 8u64)) by (bit_vector)
            requires
                m <= 56,
        ;
    }
}

proof fn lemma_set_stays_in(raw: u64, offset: u64, bits: u64, value: u64, k: u64)
    by (bit_vector)
    requires
        1 <= bits <= 64,
        offset + bits <= k,
        k <= 64,
        raw & low_bits(k) == raw,
    ensures
        set_field_spec(raw, offset, bits, value) & low_bits(k) == set_field_spec(
            raw,
            offset,
            bits,
            value,
        ),
{
}

/// Reads the storage bytes as a little-endian integer.
fn load_le(data: &[u8]) -> (raw: u64)
    requires
        data@.len() <= 8,
    ensures
        raw == le_u64(data@),
{
    let mut raw: u64 = 0;
    let mut i: usize = data.len();
    assert(data@.skip(i as int) =~= Seq::<u8>::empty());
    while i > 0
        invariant
            i <= data@.len(),
            raw == le_u64(data@.skip(i as int)),
        decreases i,
    {
        i = i - 1;
        assert(data@.skip(i as int).drop_first() =~= data@.skip(i + 1));
        raw = (data[i] as u64) | (raw << 8u64);
    }
    assert(data@.skip(0) =~= data@);
    raw
}

/// Writes the low bytes of `x` back into the storage, little-endian.
fn store_le(data: &mut [u8], x: u64)
    requires
        old(data)@.len() <= 8,
        x & low_bits((8 * old(data)@.len()) as u64) == x,
    ensures
        final(data)@.len() == old(data)@.len(),
        le_u64(final(data)@) == x,
{
    let n = data.len();
    let mut i: usize = 0;
    while i < n
        invariant
            n == data@.len(),
            n <= 8,
            i <= n,
            forall|k: int| 0 <= k < i ==> #[trigger] data@[k] == byte_at(x, k),
        decreases n - i,
    {
        let b = ((x >> (8 * i as u64)) & 0xffu64) as u8;
        data[i] = b;
        i = i + 1;
    }
    assert(data@ =~= Seq::new(n as nat, |k: int| byte_at(x, k)));
    proof {
        lemma_le_of_bytes(x, n as nat);
    }
}

/// The mask of a field of `bits` bits, computed as the generated code does.
fn field_mask(bits: usize) -> (mask: u64)
    requires
        1 <= bits <= 64,
    ensures
        mask == low_bits(bits as u64),
{
    if bits == 64 {
        u64::MAX
    } else {
        let b = bits as u64;
        assert(1u64 << b >= 1) by (bit_vector)
            requires
                b < 64,
        ;
        (1u64 << b) - 1
    }
}

/// The value of the field of `bits` bits at bit `offset` of the storage
/// `data`, as a generated getter returns it.
pub fn get_bits(data: &[u8], offset: usize, bits: usize) -> (res: u64)
    requires
        data@.len() <= 8,
        1 <= bits <= 64,
        offset + bits <= 8 * data@.len(),
    ensures
        res == get_field_spec(le_u64(data@), offset as u64, bits as u64),
{
    let raw = load_le(data);
    let shift = offset as u64;
    let mask = field_mask(bits);
    (raw >> shift) & mask
}

/// Replaces the field of `bits` bits at bit `offset` of the storage `data`
/// with the low `bits` bits of `value`, as a generated setter does.
pub fn set_bits(data: &mut [u8], offset: usize, bits: usize, value: u64)
    requires
        old(data)@.len() <= 8,
        1 <= bits <= 64,
        offset + bits <= 8 * old(data)@.len(),
    ensures
        final(data)@.len() == old(data)@.len(),
        le_u64(final(data)@) == set_field_spec(
            le_u64(old(data)@),
            offset as u64,
            bits as u64,
            value,
        ),
{
    let raw = load_le(data);
    let shift = offset as u64;
    let mask = field_mask(bits);
    let updated = (raw & !(mask << shift)) | ((value & mask) << shift);
    proof {
        lemma_le_bounded(old(data)@);
        lemma_set_stays_in(raw, shift, bits as u64, value, (8 * old(data)@.len()) as u64);
    }
    store_le(data, updated);
}

/// Reading a field right after setting it gives back the value written,
/// cut to the field's width.
pub proof fn lemma_get_after_set(raw: u64, offset: u64, bits: u64, value: u64)
    by (bit_vector)
    requires
        1 <= bits <= 64,
        offset + bits <= 64,
    ensures
        get_field_spec(set_field_spec(raw, offset, bits, value), offset, bits) == value & low_bits(
            bits,
        ),
{
}

/// Setting a field leaves every field that does not overlap it unchanged.
pub proof fn lemma_set_keeps_other_fields(
    raw: u64,
    offset: u64,
    bits: u64,
    value: u64,
    other_offset: u64,
    other_bits: u64,
)
    by (bit_vector)
    requires
        1 <= bits <= 64,
        offset + bits <= 64,
        1 <= other_bits <= 64,
        other_offset + other_bits <= 64,
        offset + bits <= other_offset || other_offset + other_bits <= offset,
    ensures
        get_field_spec(set_field_spec(raw, offset, bits, value), other_offset, other_bits)
            == get_field_spec(raw, other_offset, other_bits),
{
}

/// Writing back the value a field already holds changes nothing.
pub proof fn lemma_set_current_value(raw: u64, offset: u64, bits: u64)
    by (bit_vector)
    requires
        1 <= bits <= 64,
        offset + bits <= 64,
    ensures
        set_field_spec(raw, offset, bits, get_field_spec(raw, offset, bits)) == raw,
{
}

/// The second of two writes to the same field is the one that counts.
pub proof fn lemma_set_twice(raw: u64, offset: u64, bits: u64, first: u64, second: u64)
    by (bit_vector)
    requires
        1 <= bits <= 64,
        offset + bits <= 64,
    ensures
        set_field_spec(set_field_spec(raw, offset, bits, first), offset, bits, second)
            == set_field_spec(raw, offset, bits, second),
{
}

} // verus!
