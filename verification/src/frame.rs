//! The CTMP frame: header validation and the checksum of sensitive frames.

use vstd::prelude::*;

verus! {

/// Number of bytes in a frame header.
pub const CTMP_HEADER_LEN: usize = 8;

/// First byte of every header.
pub const CTMP_MAGIC_BYTE: u8 = 0xCC;

/// Value of both padding bytes.
pub const CTMP_PAD: u8 = 0x00;

/// Largest payload size the protocol names.
pub const CTMP_MAX_PAYLOAD_SIZE: usize = 65536;

/// Bit of the options byte that marks a frame as sensitive.
pub const CTMP_SENSITIVE_BIT: u8 = 0x40;

/// Why a header was refused.
#[derive(Clone, Copy, Debug, PartialEq, Eq, Structural)]
pub enum HeaderError {
    /// Byte 0 is not the magic byte.
    InvalidMagic,
    /// Bytes 6 and 7 are not zero, or the frame is not sensitive and bytes 4 and 5 are not zero.
    InvalidPadding,
    /// The length field is zero or exceeds the protocol's maximum.
    InvalidLength,
}

/// The big-endian 16-bit number made of two bytes.
pub open spec fn be16(hi: u8, lo: u8) -> int {
    hi as int * 256 + lo as int
}

/// Whether the options byte of a header has the sensitive bit set.
pub open spec fn header_sensitive(h: Seq<u8>) -> bool {
    h[1] & 0x40 != 0
}

/// The payload length a header announces.
pub open spec fn header_length(h: Seq<u8>) -> int {
    be16(h[2], h[3])
}

/// The checksum a header carries.
pub open spec fn header_checksum(h: Seq<u8>) -> int {
    be16(h[4], h[5])
}

/// What validation makes of a header of at least eight bytes: the announced
/// length and the sensitive flag, or the first rule it breaks.
pub open spec fn header_verdict(h: Seq<u8>) -> Result<(u16, bool), HeaderError> {
    if h[0] != 0xCC {
        Err(HeaderError::InvalidMagic)
    } else if h[6] != 0 || h[7] != 0 {
        Err(HeaderError::InvalidPadding)
    } else if !header_sensitive(h) && (h[4] != 0 || h[5] != 0) {
        Err(HeaderError::InvalidPadding)
    } else if header_length(h) == 0 || header_length(h) > 65536 {
        Err(HeaderError::InvalidLength)
    } else {
        Ok((header_length(h) as u16, header_sensitive(h)))
    }
}

/// Checks a header against the protocol's rules, in this order: magic byte,
/// padding, checksum field of a non-sensitive frame, length. Only the first
/// eight bytes are read. The length field has 16 bits and so never exceeds
/// the protocol's maximum: a length is refused exactly when it is zero.
pub fn validate_header(header: &[u8]) -> (verdict: Result<(u16, bool), HeaderError>)
    requires
        header@.len() >= 8,
    ensures
        verdict == header_verdict(header@),
{
    if header[0] != CTMP_MAGIC_BYTE {
        return Err(HeaderError::InvalidMagic);
    }
    let sensitive: bool = (header[1] & CTMP_SENSITIVE_BIT) != 0;
    let length: u32 = (header[2] as u32) * 256 + (header[3] as u32);
    if header[6] != CTMP_PAD || header[7] != CTMP_PAD {
        return Err(HeaderError::InvalidPadding);
    }
    if !sensitive && (header[4] != CTMP_PAD || header[5] != CTMP_PAD) {
        return Err(HeaderError::InvalidPadding);
    }
    if length == 0 || length > CTMP_MAX_PAYLOAD_SIZE as u32 {
        return Err(HeaderError::InvalidLength);
    }
    Ok((length as u16, sensitive))
}

/// The header with bytes 4 and 5 replaced by the placeholder `CC CC`.
pub open spec fn with_placeholder(h: Seq<u8>) -> Seq<u8> {
    h.update(4, 0xCCu8).update(5, 0xCCu8)
}

/// The `k`-th big-endian 16-bit word of a byte string; a missing low byte
/// at the end counts as zero.
pub open spec fn word_at(bytes: Seq<u8>, k: int) -> int {
    bytes[2 * k] as int * 256 + if 2 * k + 1 < bytes.len() {
        bytes[2 * k + 1] as int
    } else {
        0
    }
}

/// How many 16-bit words a byte string makes.
pub open spec fn word_count(bytes: Seq<u8>) -> nat {
    ((bytes.len() + 1) / 2) as nat
}

/// The sum of the first `n` words of a byte string.
pub open spec fn word_sum(bytes: Seq<u8>, n: nat) -> int
    decreases n,
{
    if n == 0 {
        0
    } else {
        word_sum(bytes, (n - 1) as nat) + word_at(bytes, n - 1)
    }
}

/// Folds the carries of a sum back into its low 16 bits until none is left.
pub open spec fn fold_carries(sum: nat) -> nat
    decreases sum,
{
    if sum < 0x10000 {
        sum
    } else {
        fold_carries(sum % 0x10000 + sum / 0x10000)
    }
}

/// The one's-complement checksum of a frame: the complement, in 16 bits, of
/// the folded word sum of the header (with the placeholder in its checksum
/// field) followed by the payload.
pub open spec fn checksum_of(header: Seq<u8>, payload: Seq<u8>) -> int {
    let bytes = with_placeholder(header) + payload;
    0xFFFF - fold_carries(word_sum(bytes, word_count(bytes)) as nat)
}

/// A frame is checksum-valid if it is not sensitive, or if its header carries
/// the checksum of the frame.
pub open spec fn checksum_valid(header: Seq<u8>, payload: Seq<u8>) -> bool {
    !header_sensitive(header) || checksum_of(header, payload) == header_checksum(header)
}

/// The value that folding leaves, in closed form: zero stays zero, and any
/// other sum lands in `1..=0xFFFF` with its remainder modulo `0xFFFF` kept.
pub open spec fn folded(sum: nat) -> nat {
    if sum == 0 {
        0
    } else {
        ((sum - 1) % 0xFFFF + 1) as nat
    }
}

/// Folding carries computes the closed form.
pub proof fn lemma_fold_carries_closed_form(sum: nat)
    ensures
        fold_carries(sum) == folded(sum),
    decreases sum,
{
    if sum >= 0x10000 {
        let q = (sum / 0x10000) as int;
        let r = (sum % 0x10000) as int;
        let next = (q + r) as nat;
        assert(sum == 0x10000 * q + r) by {
            vstd::arithmetic::div_mod::lemma_fundamental_div_mod(sum as int, 0x10000);
        }
        lemma_fold_carries_closed_form(next);
        assert((0xFFFF * q + (next - 1)) % 0xFFFF == (next - 1) % 0xFFFF) by {
            vstd::arithmetic::div_mod::lemma_mod_multiples_vanish(q, next - 1, 0xFFFF);
        }
    }
}

/// Sums with the same folded value keep it when the same word is added.
proof fn lemma_folded_sum(a: nat, b: nat, w: nat)
    requires
        folded(a) == folded(b),
    ensures
        folded(a + w) == folded(b + w),
{
    if a > 0 && b > 0 {
        let d = (a - 1) / 0xFFFF - (b - 1) / 0xFFFF;
        vstd::arithmetic::div_mod::lemma_fundamental_div_mod(a - 1, 0xFFFF);
        vstd::arithmetic::div_mod::lemma_fundamental_div_mod(b - 1, 0xFFFF);
        assert(a + w - 1 == 0xFFFF * d + (b + w - 1));
        vstd::arithmetic::div_mod::lemma_mod_multiples_vanish(d, b + w - 1, 0xFFFF);
    }
}

/// Adds one word to the folded value of `total` and folds the carry back in.
fn add_word(acc: u32, hi: u8, lo: u8, Ghost(total): Ghost<nat>) -> (next: u32)
    requires
        acc == folded(total),
    ensures
        next == folded((total + be16(hi, lo)) as nat),
{
    let word: u32 = (hi as u32) * 256 + (lo as u32);
    let raw: u32 = acc + word;
    proof {
        assert((raw & 0xFFFF) == raw % 0x10000 && (raw >> 16) == raw / 0x10000) by (bit_vector);
        assert(folded(acc as nat) == acc);
        lemma_folded_sum(acc as nat, total, word as nat);
    }
    let next: u32 = (raw & 0xFFFF) + (raw >> 16);
    assert(next == folded(raw as nat));
    next
}

/// The first four words of a frame are those of its header, with the
/// placeholder as the third.
proof fn lemma_header_words(header: Seq<u8>, payload: Seq<u8>)
    requires
        header.len() == 8,
    ensures
        word_sum(with_placeholder(header) + payload, 4) == be16(header[0], header[1]) + be16(
            header[2],
            header[3],
        ) + 0xCCCC + be16(header[6], header[7]),
{
    reveal_with_fuel(word_sum, 5);
}

/// The word of a frame that begins at an even offset `i` of its payload.
proof fn lemma_payload_word(header: Seq<u8>, payload: Seq<u8>, i: int)
    requires
        header.len() == 8,
        0 <= i < payload.len(),
        i % 2 == 0,
    ensures
        word_at(with_placeholder(header) + payload, i / 2 + 4) == be16(
            payload[i],
            if i + 1 < payload.len() {
                payload[i + 1]
            } else {
                0
            },
        ),
{
    let bytes = with_placeholder(header) + payload;
    let k = i / 2 + 4;
    assert(bytes[2 * k] == payload[i]);
    if i + 1 < payload.len() {
        assert(bytes[2 * k + 1] == payload[i + 1]);
    }
}

/// Computes the checksum of a frame from its header and payload. The two
/// checksum bytes of the header do not enter the result: the placeholder
/// stands in their place.
pub fn verify_checksum(header: &[u8], payload: &[u8]) -> (checksum: u16)
    requires
        header@.len() == 8,
    ensures
        checksum as int == checksum_of(header@, payload@),
{
    let ghost bytes = with_placeholder(header@) + payload@;
    let ghost w0 = be16(header[0], header[1]) as nat;
    let ghost w1 = be16(header[2], header[3]) as nat;
    let mut acc: u32 = add_word(0, header[0], header[1], Ghost(0));
    acc = add_word(acc, header[2], header[3], Ghost(w0));
    acc = add_word(acc, CTMP_MAGIC_BYTE, CTMP_MAGIC_BYTE, Ghost(w0 + w1));
    acc = add_word(acc, header[6], header[7], Ghost(w0 + w1 + 0xCCCC));
    proof {
        lemma_header_words(header@, payload@);
    }
    let n: usize = payload.len();
    let mut i: usize = 0;
    while i < n
        invariant
            n == payload@.len(),
            bytes == with_placeholder(header@) + payload@,
            header@.len() == 8,
            i <= n,
            i % 2 == 0 || i == n,
            word_sum(bytes, ((i + 1) / 2 + 4) as nat) >= 0,
            acc == folded(word_sum(bytes, ((i + 1) / 2 + 4) as nat) as nat),
        decreases n - i,
    {
        let ghost k: nat = (i as int / 2 + 4) as nat;
        proof {
            lemma_payload_word(header@, payload@, i as int);
            assert(word_sum(bytes, k + 1) == word_sum(bytes, k) + word_at(bytes, k as int));
        }
        if n - i >= 2 {
            acc = add_word(acc, payload[i], payload[i + 1], Ghost(word_sum(bytes, k) as nat));
            i = i + 2;
        } else {
            acc = add_word(acc, payload[i], 0, Ghost(word_sum(bytes, k) as nat));
            i = n;
        }
        assert((i + 1) / 2 + 4 == k + 1);
    }
    proof {
        assert(((n + 1) / 2 + 4) as nat == word_count(bytes));
        lemma_fold_carries_closed_form(word_sum(bytes, word_count(bytes)) as nat);
        assert(0xFFFFu16 - (acc as u16) == !(acc as u16)) by (bit_vector)
            requires
                acc <= 0xFFFF,
        ;
    }
    !(acc as u16)
}

/// Says whether a frame is checksum-valid: a frame that is not sensitive
/// always is, a sensitive one if its header carries the checksum of the frame.
pub fn is_checksum_valid(header: &[u8], payload: &[u8]) -> (valid: bool)
    requires
        header@.len() == 8,
    ensures
        valid == checksum_valid(header@, payload@),
{
    let sensitive: bool = (header[1] & CTMP_SENSITIVE_BIT) != 0;
    let stored: u16 = (header[4] as u16) * 256 + (header[5] as u16);
    !sensitive || verify_checksum(header, payload) == stored
}

} // verus!
