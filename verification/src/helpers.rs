//! Convenience helpers for building NGAP types: MSB-first bit strings for the
//! NGAP BIT STRING fields (AMF identity, security keys, gNB-ID, NR cell
//! identity), the TBCD encoding of a PLMN identity, and builders for
//! commonly used information elements.
use crate::bits::{bits_of, max_bits, MsbBitVec};
use crate::ngap::{
    AMFPointer, AMFRegionID, AMFSetID, EUTRAencryptionAlgorithms, EUTRAintegrityProtectionAlgorithms,
    GlobalGNB_ID, NRCellIdentity, NRencryptionAlgorithms, NRintegrityProtectionAlgorithms, PLMNIdentity,
    GNB_ID, GNB_ID_gNB_ID, GUAMI, NR_CGI, SD, SST, S_NSSAI, TAC, TAI, UESecurityCapabilities,
};
use crate::text::push_char;
use vstd::arithmetic::div_mod::lemma_breakdown;
use vstd::arithmetic::power2::{lemma2_to64, lemma2_to64_rest, lemma_pow2_pos, lemma_pow2_unfold, pow2};
use vstd::prelude::*;
use vstd::seq_lib::lemma_flatten_concat;

verus! {

// ── Bit strings ─────────────────────────────────────────────────────────────

/// Bit `i` of `v`, bit 0 being the least significant.
pub open spec fn bit_of(v: u64, i: nat) -> bool {
    (v >> i) & 1 == 1
}

/// The lowest `width` bits of `v`, most significant first.
pub open spec fn msb_bits(v: u64, width: nat) -> Seq<bool> {
    Seq::new(width, |k: int| bit_of(v, (width - 1 - k) as nat))
}

/// The bits of a byte string: each byte's eight bits, most significant
/// first, byte after byte.
pub open spec fn bytes_bits(bytes: Seq<u8>) -> Seq<bool> {
    bytes.map_values(|b: u8| msb_bits(b as u64, 8)).flatten()
}

/// Convert an integer to an MSB-first bit string of the given width.
///
/// Extracts the lowest `width` bits of `value`, most significant bit first.
/// Used for AMF identity fields, gNB-ID, cell identity, etc. The width must
/// be at most 64.
pub fn int_to_bitvec(value: u64, width: usize) -> (r: MsbBitVec)
    requires
        width <= 64,
    ensures
        bits_of(r) == msb_bits(value, width as nat),
{
    let mut r = MsbBitVec::new();
    let mut i: usize = width;
    while i > 0
        invariant
            i <= width <= 64,
            bits_of(r) == msb_bits(value, width as nat).take(width - i),
        decreases i,
    {
        let b = (value >> ((i - 1) as u64)) & 1 == 1;
        proof {
            assert(max_bits() >= 64);
        }
        r.push(b);
        i = i - 1;
        assert(bits_of(r) =~= msb_bits(value, width as nat).take(width - i));
    }
    assert(msb_bits(value, width as nat).take(width as int) =~= msb_bits(value, width as nat));
    r
}

/// The number that a sequence of bits writes, most significant bit first.
pub open spec fn bits_value(bits: Seq<bool>) -> nat
    decreases bits.len(),
{
    if bits.len() == 0 {
        0
    } else {
        2 * bits_value(bits.drop_last()) + if bits.last() {
            1nat
        } else {
            0nat
        }
    }
}

/// Dropping the last of `width + 1` bits of `v` leaves the `width` bits of
/// `v >> 1`; the last bit is bit 0 of `v`.
proof fn lemma_msb_bits_last(v: u64, width: nat)
    requires
        width < 64,
    ensures
        msb_bits(v, width + 1) == msb_bits(v >> 1, width).push(bit_of(v, 0)),
{
    assert forall|k: int| 0 <= k < width implies #[trigger] msb_bits(v, width + 1)[k] == msb_bits(
        v >> 1,
        width,
    )[k] by {
        let s = (width - k) as u64;
        assert(1 <= s < 64 ==> (v >> s) & 1 == ((v >> 1u64) >> ((s - 1) as u64)) & 1)
            by (bit_vector);
    }
    assert(msb_bits(v, width + 1) =~= msb_bits(v >> 1, width).push(bit_of(v, 0)));
}

/// Reading back the bits of `int_to_bitvec(value, width)` as a number gives
/// `value` modulo `2^width`: the conversion keeps exactly the lowest `width`
/// bits, most significant first.
pub proof fn lemma_int_to_bitvec_value(value: u64, width: nat)
    requires
        width <= 64,
    ensures
        bits_value(msb_bits(value, width)) == value as nat % pow2(width),
    decreases width,
{
    lemma_pow2_pos(width);
    if width == 0 {
        assert(msb_bits(value, 0) =~= Seq::<bool>::empty());
        lemma2_to64();
    } else {
        let w = (width - 1) as nat;
        lemma_msb_bits_last(value, w);
        lemma_int_to_bitvec_value(value >> 1, w);
        let s = msb_bits(value, width);
        assert(s.drop_last() =~= msb_bits(value >> 1, w));
        assert(value >> 1u64 == value / 2) by (bit_vector);
        assert((value & 1 == 1) == (value % 2 == 1)) by (bit_vector);
        assert(value >> 0u64 == value) by (bit_vector);
        assert(bit_of(value, 0) == (value & 1 == 1));
        lemma_pow2_unfold(width);
        lemma_pow2_pos(w);
        lemma_breakdown(value as int, 2, pow2(w) as int);
    }
}

/// The bits of a byte string number eight per byte.
pub proof fn lemma_bytes_bits_len(bytes: Seq<u8>)
    ensures
        bytes_bits(bytes).len() == 8 * bytes.len(),
    decreases bytes.len(),
{
    if bytes.len() > 0 {
        let m = |b: u8| msb_bits(b as u64, 8);
        lemma_bytes_bits_len(bytes.drop_last());
        assert(bytes.map_values(m) =~= bytes.drop_last().map_values(m).push(m(bytes.last())));
        bytes.drop_last().map_values(m).lemma_flatten_push(m(bytes.last()));
    }
}

/// One byte as a byte string gives the same eight bits as the byte as an
/// 8-bit integer: `bytes_to_bitvec(&[b])` and `int_to_bitvec(b as u64, 8)`
/// agree.
pub proof fn lemma_byte_bits_agree(b: u8)
    ensures
        bytes_bits(seq![b]) == msb_bits(b as u64, 8),
{
    let m = |x: u8| msb_bits(x as u64, 8);
    assert(seq![b].map_values(m) =~= Seq::<Seq<bool>>::empty().push(m(b)));
    Seq::<Seq<bool>>::empty().lemma_flatten_push(m(b));
    assert(Seq::<Seq<bool>>::empty().flatten() =~= Seq::<bool>::empty());
    assert(bytes_bits(seq![b]) =~= msb_bits(b as u64, 8));
}

/// The bits of a concatenation of byte strings are the bits of the first
/// followed by the bits of the second, and an empty byte string has no
/// bits: `bytes_to_bitvec` works byte by byte.
pub proof fn lemma_bytes_bits_concat(a: Seq<u8>, b: Seq<u8>)
    ensures
        bytes_bits(a + b) == bytes_bits(a) + bytes_bits(b),
        bytes_bits(Seq::<u8>::empty()) == Seq::<bool>::empty(),
{
    let m = |x: u8| msb_bits(x as u64, 8);
    assert((a + b).map_values(m) =~= a.map_values(m) + b.map_values(m));
    lemma_flatten_concat(a.map_values(m), b.map_values(m));
    assert(Seq::<u8>::empty().map_values(m) =~= Seq::<Seq<bool>>::empty());
}

/// Convert a byte string to an MSB-first bit string (8 bits per byte).
///
/// Used for security keys (K_gNB = 32 bytes → 256 bits), NH keys, etc.
/// `BitVec` cannot hold more than `usize::MAX >> 3` bits, which bounds the
/// length of the input.
pub fn bytes_to_bitvec(bytes: &[u8]) -> (r: MsbBitVec)
    requires
        bytes@.len() * 8 <= max_bits(),
    ensures
        bits_of(r) == bytes_bits(bytes@),
{
    let mut r = MsbBitVec::new();
    let mut j: usize = 0;
    while j < bytes.len()
        invariant
            j <= bytes@.len(),
            bytes@.len() * 8 <= max_bits(),
            bits_of(r) == bytes_bits(bytes@.take(j as int)),
            bits_of(r).len() == 8 * j,
        decreases bytes@.len() - j,
    {
        let byte = bytes[j];
        let ghost before = bits_of(r);
        let mut i: usize = 8;
        while i > 0
            invariant
                i <= 8,
                j < bytes@.len(),
                bytes@.len() * 8 <= max_bits(),
                before == bytes_bits(bytes@.take(j as int)),
                before.len() == 8 * j,
                bits_of(r) == before + msb_bits(byte as u64, 8).take(8 - i),
            decreases i,
        {
            let b = (byte >> ((i - 1) as u8)) & 1 == 1;
            assert(b == (((byte as u64) >> ((i - 1) as u64)) & 1 == 1)) by (bit_vector)
                requires
                    b == ((byte >> ((i - 1) as u8)) & 1 == 1),
                    0 < i <= 8;
            r.push(b);
            i = i - 1;
            assert(bits_of(r) =~= before + msb_bits(byte as u64, 8).take(8 - i));
        }
        proof {
            let m = |b: u8| msb_bits(b as u64, 8);
            assert(bytes@.take(j + 1) =~= bytes@.take(j as int).push(byte));
            assert(bytes@.take(j + 1).map_values(m) =~= bytes@.take(j as int).map_values(m).push(
                m(byte),
            ));
            bytes@.take(j as int).map_values(m).lemma_flatten_push(m(byte));
            assert(msb_bits(byte as u64, 8).take(8) =~= msb_bits(byte as u64, 8));
        }
        j = j + 1;
    }
    assert(bytes@.take(bytes@.len() as int) =~= bytes@);
    r
}

// ── PLMN encoding ───────────────────────────────────────────────────────────

/// An ASCII decimal digit.
pub open spec fn is_digit(c: char) -> bool {
    '0' <= c <= '9'
}

/// The value of a decimal digit character.
pub open spec fn digit_value(c: char) -> int {
    c as int - '0' as int
}

/// Every character of `s` is a decimal digit.
pub open spec fn all_digits(s: Seq<char>) -> bool {
    forall|i: int| 0 <= i < s.len() ==> is_digit(#[trigger] s[i])
}

/// A Mobile Country Code: three decimal digits.
pub open spec fn valid_mcc(mcc: Seq<char>) -> bool {
    mcc.len() == 3 && all_digits(mcc)
}

/// A Mobile Network Code: two or three decimal digits.
pub open spec fn valid_mnc(mnc: Seq<char>) -> bool {
    (mnc.len() == 2 || mnc.len() == 3) && all_digits(mnc)
}

/// The three octets of a PLMN identity (TBCD, TS 24.501 §9.11.3.4): each
/// octet holds two digits, the first in the low nibble; the second octet
/// carries MCC digit 3 and MNC digit 3, or the filler 0xF in place of MNC
/// digit 3 when the MNC has two digits.
pub open spec fn tbcd_plmn(mcc: Seq<char>, mnc: Seq<char>) -> Seq<u8> {
    let o1 = 16 * digit_value(mcc[1]) + digit_value(mcc[0]);
    let o2 = if mnc.len() == 2 {
        16 * 0xF + digit_value(mcc[2])
    } else {
        16 * digit_value(mnc[2]) + digit_value(mcc[2])
    };
    let o3 = 16 * digit_value(mnc[1]) + digit_value(mnc[0]);
    seq![o1 as u8, o2 as u8, o3 as u8]
}

/// The decimal writing of a nibble value (0 to 15).
pub open spec fn decimal(n: u8) -> Seq<char> {
    if n < 10 {
        seq![(n + '0' as int) as char]
    } else {
        seq!['1', (n - 10 + '0' as int) as char]
    }
}

/// The MCC and MNC strings read back from the first three octets of a PLMN
/// identity: each nibble is written in decimal, and a high nibble 0xF in
/// the second octet marks a two-digit MNC. `None` below three octets.
pub open spec fn plmn_strings(bytes: Seq<u8>) -> Option<(Seq<char>, Seq<char>)> {
    if bytes.len() < 3 {
        None
    } else {
        let mcc = decimal(bytes[0] % 16) + decimal(bytes[0] / 16) + decimal(bytes[1] % 16);
        let mnc_hi = bytes[1] / 16;
        let mnc = if mnc_hi == 0xF {
            decimal(bytes[2] % 16) + decimal(bytes[2] / 16)
        } else {
            decimal(bytes[2] % 16) + decimal(bytes[2] / 16) + decimal(mnc_hi)
        };
        Some((mcc, mnc))
    }
}

/// The value of the digit character at position `i` of `s`.
fn digit_at(s: &str, i: usize) -> (d: u8)
    requires
        i < s@.len(),
        is_digit(s@[i as int]),
    ensures
        d == digit_value(s@[i as int]),
        d <= 9,
{
    let c = s.get_char(i);
    (c as u32 - '0' as u32) as u8
}

/// Two decimal digits packed into one octet, `lo` in the low nibble.
fn pack_nibbles(hi: u8, lo: u8) -> (r: u8)
    requires
        hi <= 15,
        lo <= 15,
    ensures
        r == 16 * hi + lo,
{
    assert((hi << 4u8) | lo == 16 * hi + lo) by (bit_vector)
        requires
            hi <= 15,
            lo <= 15,
    ;
    (hi << 4u8) | lo
}

/// Encode MCC/MNC as a `PLMNIdentity` (3 octets, TBCD per TS 24.501
/// §9.11.3.4). MCC must be 3 decimal digits, MNC must be 2 or 3 decimal
/// digits; other inputs are outside the precondition.
///
/// `plmn("208", "93")` gives `[0x02, 0xF8, 0x39]`.
pub fn plmn(mcc: &str, mnc: &str) -> (r: PLMNIdentity)
    requires
        valid_mcc(mcc@),
        valid_mnc(mnc@),
    ensures
        r.0@ == tbcd_plmn(mcc@, mnc@),
{
    let m0 = digit_at(mcc, 0);
    let m1 = digit_at(mcc, 1);
    let m2 = digit_at(mcc, 2);
    let n0 = digit_at(mnc, 0);
    let n1 = digit_at(mnc, 1);
    let o1 = pack_nibbles(m1, m0);
    let o2 = if mnc.unicode_len() == 2 {
        pack_nibbles(0xF, m2)
    } else {
        let n2 = digit_at(mnc, 2);
        pack_nibbles(n2, m2)
    };
    let o3 = pack_nibbles(n1, n0);
    let v = vec![o1, o2, o3];
    assert(v@ =~= tbcd_plmn(mcc@, mnc@));
    PLMNIdentity(v)
}

/// A digit character is the decimal writing of its value.
proof fn lemma_decimal_digit(c: char)
    requires
        is_digit(c),
    ensures
        decimal(digit_value(c) as u8) == seq![c],
{
    assert(((digit_value(c) as u8) + '0' as int) as char == c);
    assert(decimal(digit_value(c) as u8) =~= seq![c]);
}

/// The octet `16 * hi + lo` holds `lo` in its low nibble and `hi` in its
/// high nibble.
proof fn lemma_nibbles(hi: int, lo: int)
    requires
        0 <= hi <= 15,
        0 <= lo <= 15,
    ensures
        (16 * hi + lo) as u8 % 16 == lo,
        (16 * hi + lo) as u8 / 16 == hi,
{
}

/// Decoding undoes encoding: for every MCC of three digits and every MNC of
/// two or three digits, the PLMN identity that `plmn` builds is read back by
/// `plmn_from` as the same two strings.
pub proof fn lemma_plmn_roundtrip(mcc: Seq<char>, mnc: Seq<char>)
    requires
        valid_mcc(mcc),
        valid_mnc(mnc),
    ensures
        plmn_strings(tbcd_plmn(mcc, mnc)) == Some((mcc, mnc)),
{
    let bytes = tbcd_plmn(mcc, mnc);
    assert(is_digit(mcc[0]) && is_digit(mcc[1]) && is_digit(mcc[2]));
    assert(is_digit(mnc[0]) && is_digit(mnc[1]));
    lemma_decimal_digit(mcc[0]);
    lemma_decimal_digit(mcc[1]);
    lemma_decimal_digit(mcc[2]);
    lemma_decimal_digit(mnc[0]);
    lemma_decimal_digit(mnc[1]);
    lemma_nibbles(digit_value(mcc[1]), digit_value(mcc[0]));
    lemma_nibbles(digit_value(mnc[1]), digit_value(mnc[0]));
    if mnc.len() == 2 {
        lemma_nibbles(0xF, digit_value(mcc[2]));
        assert(seq![mcc[0]] + seq![mcc[1]] + seq![mcc[2]] =~= mcc);
        assert(seq![mnc[0]] + seq![mnc[1]] =~= mnc);
    } else {
        assert(is_digit(mnc[2]));
        lemma_decimal_digit(mnc[2]);
        lemma_nibbles(digit_value(mnc[2]), digit_value(mcc[2]));
        assert(seq![mcc[0]] + seq![mcc[1]] + seq![mcc[2]] =~= mcc);
        assert(seq![mnc[0]] + seq![mnc[1]] + seq![mnc[2]] =~= mnc);
    }
}

/// Append the decimal writing of a nibble value to `s`.
fn push_decimal(s: &mut String, n: u8)
    requires
        n <= 15,
    ensures
        final(s)@ == old(s)@ + decimal(n),
{
    if n < 10 {
        push_char(s, (n + 48) as char);
    } else {
        push_char(s, '1');
        push_char(s, (n - 10 + 48) as char);
    }
    assert(s@ =~= old(s)@ + decimal(n));
}

/// Decode a `PLMNIdentity` back to (MCC, MNC) strings.
///
/// Returns `None` if the identity is shorter than 3 bytes; octets past the
/// third are not read.
pub fn plmn_from(id: &PLMNIdentity) -> (r: Option<(String, String)>)
    ensures
        match plmn_strings(id.0@) {
            None => r is None,
            Some((mcc, mnc)) => r matches Some((a, b)) && a@ == mcc && b@ == mnc,
        },
{
    let bytes = &id.0;
    if bytes.len() < 3 {
        return None;
    }
    let mcc0 = bytes[0] & 0x0F;
    let mcc1 = (bytes[0] >> 4u8) & 0x0F;
    let mcc2 = bytes[1] & 0x0F;
    let mnc_hi = (bytes[1] >> 4u8) & 0x0F;
    let mnc0 = bytes[2] & 0x0F;
    let mnc1 = (bytes[2] >> 4u8) & 0x0F;
    proof {
        let (b0, b1, b2) = (bytes@[0], bytes@[1], bytes@[2]);
        assert(b0 & 0x0F == b0 % 16 && (b0 >> 4u8) & 0x0F == b0 / 16) by (bit_vector);
        assert(b1 & 0x0F == b1 % 16 && (b1 >> 4u8) & 0x0F == b1 / 16) by (bit_vector);
        assert(b2 & 0x0F == b2 % 16 && (b2 >> 4u8) & 0x0F == b2 / 16) by (bit_vector);
    }

    let mut mcc = String::new();
    push_decimal(&mut mcc, mcc0);
    push_decimal(&mut mcc, mcc1);
    push_decimal(&mut mcc, mcc2);
    let mut mnc = String::new();
    push_decimal(&mut mnc, mnc0);
    push_decimal(&mut mnc, mnc1);
    if mnc_hi != 0xF {
        push_decimal(&mut mnc, mnc_hi);
    }
    Some((mcc, mnc))
}

// ── NGAP type builders ──────────────────────────────────────────────────────

/// AMF Region ID field width (TS 38.413 §9.3.3.12).
pub const AMF_REGION_ID_BITS: usize = 8;
/// AMF Set ID field width.
pub const AMF_SET_ID_BITS: usize = 10;
/// AMF Pointer field width.
pub const AMF_POINTER_BITS: usize = 6;

/// Build a `GUAMI` (Globally Unique AMF Identifier): the PLMN identity and
/// the lowest 8, 10 and 6 bits of the region ID, set ID and pointer.
///
/// `guami(plmn("208", "93"), 1, 1, 0)`
pub fn guami(plmn_identity: PLMNIdentity, region_id: u8, set_id: u16, pointer: u8) -> (r: GUAMI)
    ensures
        r.plmn_identity == plmn_identity,
        bits_of(r.amf_region_id.0) == msb_bits(region_id as u64, AMF_REGION_ID_BITS as nat),
        bits_of(r.amf_set_id.0) == msb_bits(set_id as u64, AMF_SET_ID_BITS as nat),
        bits_of(r.amf_pointer.0) == msb_bits(pointer as u64, AMF_POINTER_BITS as nat),
{
    GUAMI {
        plmn_identity,
        amf_region_id: AMFRegionID(int_to_bitvec(region_id as u64, AMF_REGION_ID_BITS)),
        amf_set_id: AMFSetID(int_to_bitvec(set_id as u64, AMF_SET_ID_BITS)),
        amf_pointer: AMFPointer(int_to_bitvec(pointer as u64, AMF_POINTER_BITS)),
    }
}

/// Build a `TAI` (Tracking Area Identity). `tac` should be 3 bytes (24-bit
/// Tracking Area Code); it is copied as given.
///
/// `tai(plmn("208", "93"), &[0x00, 0x00, 0x01])`
pub fn tai(plmn_identity: PLMNIdentity, tac: &[u8]) -> (r: TAI)
    ensures
        r.plmn_identity == plmn_identity,
        r.tac.0@ == tac@,
{
    TAI { plmn_identity, tac: TAC(vstd::slice::slice_to_vec(tac)) }
}

/// The 36-bit NR Cell Identity value: the lowest 24 bits of the gNB ID
/// followed by the lowest 12 bits of the cell ID.
pub open spec fn nr_cell_value(gnb_id: u32, cell_id: u16) -> u64 {
    ((gnb_id as int % 0x100_0000) * 0x1000 + cell_id as int % 0x1000) as u64
}

/// The 24-bit gNB ID value: the lowest 24 bits of `gnb_id`.
pub open spec fn gnb_value(gnb_id: u32) -> u64 {
    (gnb_id as int % 0x100_0000) as u64
}

/// Build an `NR_CGI` (NR Cell Global Identity). The NR Cell Identity is
/// 36 bits: `gnb_id` (24 bits) | `cell_id` (12 bits).
///
/// `nr_cgi(plmn("208", "93"), 0x000001, 1)`
pub fn nr_cgi(plmn_identity: PLMNIdentity, gnb_id: u32, cell_id: u16) -> (r: NR_CGI)
    ensures
        r.plmn_identity == plmn_identity,
        bits_of(r.nr_cell_identity.0) == msb_bits(nr_cell_value(gnb_id, cell_id), 36),
{
    let cell_value = ((gnb_id & 0x00FF_FFFF) as u64) << 12u64 | (cell_id & 0x0FFF) as u64;
    assert(cell_value == ((gnb_id as u64) % 0x100_0000) * 0x1000 + (cell_id as u64) % 0x1000)
        by (bit_vector)
        requires
            cell_value == ((gnb_id & 0x00FF_FFFF) as u64) << 12u64 | (cell_id & 0x0FFF) as u64,
    ;
    NR_CGI { plmn_identity, nr_cell_identity: NRCellIdentity(int_to_bitvec(cell_value, 36)) }
}

/// The NR Cell Identity that `nr_cgi` builds is the 24-bit gNB ID that
/// `global_gnb_id` builds for the same `gnb_id`, followed by the lowest 12
/// bits of `cell_id`.
pub proof fn lemma_nr_cell_identity_layout(gnb_id: u32, cell_id: u16)
    ensures
        msb_bits(nr_cell_value(gnb_id, cell_id), 36) == msb_bits(gnb_value(gnb_id), 24) + msb_bits(
            (cell_id as int % 0x1000) as u64,
            12,
        ),
{
    let g = gnb_value(gnb_id);
    let c = (cell_id as int % 0x1000) as u64;
    let v = nr_cell_value(gnb_id, cell_id);
    assert(v == g * 0x1000 + c);
    let lhs = msb_bits(v, 36);
    let rhs = msb_bits(g, 24) + msb_bits(c, 12);
    assert forall|k: int| 0 <= k < 36 implies #[trigger] lhs[k] == rhs[k] by {
        if k < 24 {
            let j = (23 - k) as u64;
            assert(j < 24 && g < 0x100_0000 && c < 0x1000 && v == g * 0x1000 + c ==> (v >> (j
                + 12)) & 1 == (g >> j) & 1) by (bit_vector);
        } else {
            let j = (35 - k) as u64;
            assert(j < 12 && g < 0x100_0000 && c < 0x1000 && v == g * 0x1000 + c ==> (v >> j) & 1
                == (c >> j) & 1) by (bit_vector);
        }
    }
    assert(lhs =~= rhs);
}

/// Read back as numbers, the 24 gNB-ID bits that `global_gnb_id` builds
/// give `gnb_id` modulo 2^24, and the 36 NR Cell Identity bits that
/// `nr_cgi` builds give `(gnb_id mod 2^24) * 2^12 + (cell_id mod 2^12)`.
pub proof fn lemma_gnb_and_cell_values(gnb_id: u32, cell_id: u16)
    ensures
        bits_value(msb_bits(gnb_value(gnb_id), 24)) == gnb_id as nat % 0x100_0000,
        bits_value(msb_bits(nr_cell_value(gnb_id, cell_id), 36)) == (gnb_id as nat % 0x100_0000)
            * 0x1000 + cell_id as nat % 0x1000,
{
    lemma2_to64();
    lemma2_to64_rest();
    lemma_int_to_bitvec_value(gnb_value(gnb_id), 24);
    lemma_int_to_bitvec_value(nr_cell_value(gnb_id, cell_id), 36);
    let g = gnb_id as nat % 0x100_0000;
    let c = cell_id as nat % 0x1000;
    assert(g * 0x1000 + c < 0x10_0000_0000) by (nonlinear_arith)
        requires
            g < 0x100_0000,
            c < 0x1000,
    ;
    assert(gnb_value(gnb_id) as nat == g);
    assert(nr_cell_value(gnb_id, cell_id) as nat == g * 0x1000 + c);
    assert(pow2(36) == 0x10_0000_0000);
    assert((g * 0x1000 + c) % 0x10_0000_0000 == g * 0x1000 + c);
}

/// Build a `GlobalGNB_ID` from a PLMN and a 24-bit gNB identifier (the
/// lowest 24 bits of `gnb_id`).
///
/// `global_gnb_id(plmn("208", "93"), 0x000001)`
pub fn global_gnb_id(plmn_identity: PLMNIdentity, gnb_id: u32) -> (r: GlobalGNB_ID)
    ensures
        r.plmn_identity == plmn_identity,
        match r.gnb_id {
            GNB_ID::GNB_ID(id) => bits_of(id.0) == msb_bits(gnb_value(gnb_id), 24),
        },
{
    let v = (gnb_id & 0x00FF_FFFF) as u64;
    assert(v == (gnb_id as u64) % 0x100_0000) by (bit_vector)
        requires
            v == (gnb_id & 0x00FF_FFFF) as u64,
    ;
    let id_bits = int_to_bitvec(v, 24);
    GlobalGNB_ID { plmn_identity, gnb_id: GNB_ID::GNB_ID(GNB_ID_gNB_ID(id_bits)) }
}

/// Build an `S_NSSAI` (Single Network Slice Selection Assistance
/// Information): the SST octet and, when given, the three SD octets.
///
/// `s_nssai(1, Some([0x00, 0x00, 0x01]))` is SST=1, SD=000001;
/// `s_nssai(1, None)` is SST=1 with no SD.
pub fn s_nssai(sst: u8, sd: Option<[u8; 3]>) -> (r: S_NSSAI)
    ensures
        r.sst.0@ == seq![sst],
        match sd {
            None => r.sd is None,
            Some(d) => r.sd matches Some(x) && x.0@ == d@,
        },
{
    let sd_ie = match sd {
        Some(d) => {
            let v = vec![d[0], d[1], d[2]];
            assert(v@ =~= d@);
            Some(SD(v))
        },
        None => None,
    };
    let sst_v = vec![sst];
    assert(sst_v@ =~= seq![sst]);
    S_NSSAI { sst: SST(sst_v), sd: sd_ie }
}

/// Sixteen bits: the eight bits of `b`, most significant first, then eight
/// zero bits.
pub open spec fn byte_then_zeros(b: u8) -> Seq<bool> {
    msb_bits(b as u64, 8) + Seq::new(8, |i: int| false)
}

/// An NR algorithm bitmap is sixteen bits: its first eight, read back as a
/// number, are the capability byte, and the last eight are zero.
pub proof fn lemma_byte_then_zeros(b: u8)
    ensures
        byte_then_zeros(b).len() == 16,
        bits_value(byte_then_zeros(b).take(8)) == b,
        forall|i: int| 8 <= i < 16 ==> !#[trigger] byte_then_zeros(b)[i],
{
    lemma2_to64();
    lemma_int_to_bitvec_value(b as u64, 8);
    assert(byte_then_zeros(b).take(8) =~= msb_bits(b as u64, 8));
}

/// Sixteen zero bits.
pub open spec fn zeros16() -> Seq<bool> {
    Seq::new(16, |i: int| false)
}

/// A 16-bit algorithm bitmap whose high 8 bits are the bits of `b`.
fn byte_to_bv16(b: u8) -> (r: MsbBitVec)
    ensures
        bits_of(r) == byte_then_zeros(b),
{
    let mut r = MsbBitVec::new();
    let mut i: u8 = 0;
    while i < 16
        invariant
            i <= 16,
            bits_of(r) == byte_then_zeros(b).take(i as int),
        decreases 16 - i,
    {
        let bit = if i < 8 {
            (b >> ((7 - i) as u8)) & 1 == 1
        } else {
            false
        };
        assert(i < 8 ==> (((b >> ((7 - i) as u8)) & 1 == 1) == (((b as u64) >> ((7 - i) as u64)) & 1
            == 1))) by (bit_vector);
        proof {
            assert(max_bits() >= 16);
        }
        r.push(bit);
        i = i + 1;
        assert(bits_of(r) =~= byte_then_zeros(b).take(i as int));
    }
    assert(byte_then_zeros(b).take(16) =~= byte_then_zeros(b));
    r
}

/// Sixteen zero bits.
fn zero_bv16() -> (r: MsbBitVec)
    ensures
        bits_of(r) == zeros16(),
{
    let mut r = MsbBitVec::new();
    let mut i: u8 = 0;
    while i < 16
        invariant
            i <= 16,
            bits_of(r) == zeros16().take(i as int),
        decreases 16 - i,
    {
        proof {
            assert(max_bits() >= 16);
        }
        r.push(false);
        i = i + 1;
        assert(bits_of(r) =~= zeros16().take(i as int));
    }
    assert(zeros16().take(16) =~= zeros16());
    r
}

/// Build `UESecurityCapabilities` from a 2-byte NAS capability (byte 0 =
/// encryption algorithms, byte 1 = integrity algorithms; a missing byte
/// counts as 0). Each byte is expanded to a 16-bit bit string whose high 8
/// bits are the byte (the only ones used for NR); the EUTRA fields are
/// zeroed.
pub fn ue_security_capabilities(ue_sec_cap: &[u8]) -> (r: UESecurityCapabilities)
    ensures
        bits_of(r.n_rencryption_algorithms.0) == byte_then_zeros(
            if ue_sec_cap@.len() > 0 { ue_sec_cap@[0] } else { 0u8 },
        ),
        bits_of(r.n_rintegrity_protection_algorithms.0) == byte_then_zeros(
            if ue_sec_cap@.len() > 1 { ue_sec_cap@[1] } else { 0u8 },
        ),
        bits_of(r.eutr_aencryption_algorithms.0) == zeros16(),
        bits_of(r.eutr_aintegrity_protection_algorithms.0) == zeros16(),
{
    let enc_byte = if ue_sec_cap.len() > 0 { ue_sec_cap[0] } else { 0 };
    let int_byte = if ue_sec_cap.len() > 1 { ue_sec_cap[1] } else { 0 };
    UESecurityCapabilities {
        n_rencryption_algorithms: NRencryptionAlgorithms(byte_to_bv16(enc_byte)),
        n_rintegrity_protection_algorithms: NRintegrityProtectionAlgorithms(byte_to_bv16(int_byte)),
        eutr_aencryption_algorithms: EUTRAencryptionAlgorithms(zero_bv16()),
        eutr_aintegrity_protection_algorithms: EUTRAintegrityProtectionAlgorithms(zero_bv16()),
    }
}

} // verus!
