//! Packing and unpacking of sub-fields of a 16-bit word. Bit positions count
//! from the most significant bit, which is position 0, as in RFC 1035.
use vstd::bits::{
    lemma_u16_low_bits_mask_is_mod, lemma_u16_pow2_no_overflow, lemma_u16_shl_is_mul, low_bits_mask,
};
use vstd::prelude::*;

verus! {

/// The mask of the `length` lowest bits of a word.
pub open spec fn field_mask(length: u16) -> u16 {
    if length >= 16 {
        0xffffu16
    } else {
        ((1u16 << length) - 1) as u16
    }
}

/// The value of the `length`-bit field that starts at `position`.
pub open spec fn extract(word: u16, position: u16, length: u16) -> u16 {
    if length == 0 {
        0
    } else {
        ((word >> ((16 - position - length) as u16)) & field_mask(length)) as u16
    }
}

/// `word` with the `length`-bit field at `position` replaced by the low
/// `length` bits of `value`; the other bits are kept.
pub open spec fn pack(word: u16, position: u16, length: u16, value: u16) -> u16 {
    let shift = (16 - position - length) as u16;
    if length == 0 {
        word
    } else {
        ((word & !((field_mask(length) << shift) as u16)) | (((value & field_mask(length)) << shift)
            as u16)) as u16
    }
}

proof fn lemma_field_mask_is_low_bits(length: u16)
    requires
        length <= 16,
    ensures
        field_mask(length) == low_bits_mask(length as nat) as u16,
{
    vstd::bits::lemma_low_bits_mask_values();
    if length < 16 {
        lemma_u16_pow2_no_overflow(length as nat);
        lemma_u16_shl_is_mul(1, length);
    }
}

/// Extracting a field from a word that was packed into a zero word gives back
/// the packed value modulo `2^length`.
pub proof fn lemma_extract_pack(position: u16, length: u16, value: u16)
    requires
        position + length <= 16,
    ensures
        extract(pack(0, position, length, value), position, length) as int == (value as int)
            % (vstd::arithmetic::power2::pow2(length as nat) as int),
{
    vstd::arithmetic::power2::lemma2_to64();
    if length == 0 {
        return;
    }
    let shift = (16 - position - length) as u16;
    let m = field_mask(length);
    let packed = pack(0, position, length, value);
    assert(packed == ((0u16 & !((m << shift) as u16)) | (((value & m) << shift) as u16)) as u16);
    assert(extract(packed, position, length) == ((packed >> shift) & m) as u16);
    assert(((0u16 & !((m << shift) as u16)) | (((value & m) << shift) as u16)) >> shift & m
        == value & m) by (bit_vector)
        requires
            shift + length == 16 - position,
            length >= 1,
            m == if length >= 16 { 0xffffu16 } else { ((1u16 << length) - 1) as u16 },
            position <= 16,
    ;
    lemma_field_mask_is_low_bits(length);
    if length < 16 {
        lemma_u16_low_bits_mask_is_mod(value, length as nat);
    } else {
        assert(value & 0xffffu16 == value) by (bit_vector);
    }
}

fn field_mask_of(length: u16) -> (r: u16)
    requires
        length <= 16,
    ensures
        r == field_mask(length),
{
    if length >= 16 {
        0xffff
    } else {
        assert(1u16 << length >= 1) by (bit_vector)
            requires
                length < 16,
        ;
        (1u16 << length) - 1
    }
}

/// Packing a value into a field that holds only zeros sets just its bits.
pub proof fn lemma_pack_into_empty_field(word: u16, position: u16, length: u16, value: u16)
    requires
        1 <= length,
        position + length <= 16,
        value & field_mask(length) == value,
        word & ((field_mask(length) << ((16 - position - length) as u16)) as u16) == 0,
    ensures
        pack(word, position, length, value) == word | ((value << ((16 - position - length) as u16)) as u16),
{
    let shift = (16 - position - length) as u16;
    let m = field_mask(length);
    assert(((word & !((m << shift) as u16)) | (((value & m) << shift) as u16)) == word | ((value << shift) as u16))
        by (bit_vector)
        requires
            value & m == value,
            word & ((m << shift) as u16) == 0,
    ;
}

/// Reads the `bit_length`-bit field at `position` of `source`.
pub fn get_bit_position(position: u8, bit_length: u8, source: &u16) -> (r: u16)
    requires
        position + bit_length <= 16,
    ensures
        r == extract(*source, position as u16, bit_length as u16),
{
    let shift: u16 = 16 - (position as u16 + bit_length as u16);
    let mask = field_mask_of(bit_length as u16);
    if bit_length == 0 {
        0
    } else {
        (*source >> shift) & mask
    }
}

/// Replaces the `bit_length`-bit field at `position` of `data` by the low
/// `bit_length` bits of `bits_to_set`.
pub fn set_bit_position(position: u8, bit_length: u8, data: &mut u16, bits_to_set: u16)
    requires
        position + bit_length <= 16,
    ensures
        *final(data) == pack(*old(data), position as u16, bit_length as u16, bits_to_set),
{
    let shift: u16 = 16 - (position as u16 + bit_length as u16);
    let mask = field_mask_of(bit_length as u16);
    if bit_length > 0 {
        *data = (*data & !(mask << shift)) | ((bits_to_set & mask) << shift);
    }
}

} // verus!
