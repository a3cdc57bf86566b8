//! What holds of the checksum of every frame.

use vstd::prelude::*;
use crate::frame::{
    checksum_of, checksum_valid, header_checksum, header_sensitive,
    lemma_fold_carries_closed_form, with_placeholder, word_at, word_count, word_sum,
};

verus! {

/// The header with `checksum` written into its checksum field, high byte first.
pub open spec fn with_checksum(header: Seq<u8>, checksum: int) -> Seq<u8> {
    header.update(4, (checksum / 256) as u8).update(5, (checksum % 256) as u8)
}

/// `a` and `b` have the same length and differ at offset `at` and nowhere else.
pub open spec fn differ_in_one_byte(a: Seq<u8>, b: Seq<u8>, at: int) -> bool {
    &&& a.len() == b.len()
    &&& 0 <= at < a.len()
    &&& a[at] != b[at]
    &&& forall|i: int| 0 <= i < a.len() && i != at ==> a[i] == b[i]
}

/// A checksum is a 16-bit number.
pub proof fn lemma_checksum_range(header: Seq<u8>, payload: Seq<u8>)
    ensures
        0 <= checksum_of(header, payload) <= 0xFFFF,
{
    let bytes = with_placeholder(header) + payload;
    lemma_word_sum_grows(bytes, 0, word_count(bytes));
    lemma_fold_carries_closed_form(word_sum(bytes, word_count(bytes)) as nat);
}

/// The checksum of a frame does not depend on what its checksum field holds.
pub proof fn lemma_checksum_ignores_field(header: Seq<u8>, payload: Seq<u8>, hi: u8, lo: u8)
    requires
        header.len() == 8,
    ensures
        checksum_of(header.update(4, hi).update(5, lo), payload) == checksum_of(header, payload),
{
    assert(with_placeholder(header.update(4, hi).update(5, lo)) =~= with_placeholder(header));
}

/// Round trip: a sensitive frame whose checksum field is set to the checksum
/// of the frame is checksum-valid.
pub proof fn lemma_checksum_round_trip(header: Seq<u8>, payload: Seq<u8>)
    requires
        header.len() == 8,
        header_sensitive(header),
    ensures
        header_sensitive(with_checksum(header, checksum_of(header, payload))),
        header_checksum(with_checksum(header, checksum_of(header, payload))) == checksum_of(
            header,
            payload,
        ),
        checksum_valid(with_checksum(header, checksum_of(header, payload)), payload),
{
    let c = checksum_of(header, payload);
    lemma_checksum_range(header, payload);
    lemma_checksum_ignores_field(header, payload, (c / 256) as u8, (c % 256) as u8);
}

/// The byte string with bit `bit` of the byte at offset `at` flipped.
pub open spec fn flip_bit(bytes: Seq<u8>, at: int, bit: u8) -> Seq<u8> {
    bytes.update(at, bytes[at] ^ (1u8 << bit))
}

/// Flipping one bit of a byte gives another byte, and leaves the sensitive
/// bit of an options byte alone unless it is that bit.
pub proof fn lemma_flipped_bit_alters_byte(byte: u8, bit: u8)
    requires
        bit < 8,
    ensures
        byte ^ (1u8 << bit) != byte,
        bit != 6 ==> ((byte ^ (1u8 << bit)) & 0x40 != 0 <==> byte & 0x40 != 0),
{
    assert(byte ^ (1u8 << bit) != byte) by (bit_vector)
        requires
            bit < 8,
    ;
    assert(bit != 6 ==> ((byte ^ (1u8 << bit)) & 0x40 != 0 <==> byte & 0x40 != 0))
        by (bit_vector)
        requires
            bit < 8,
    ;
}

/// Flipping any one bit of the payload changes the checksum of the frame: a
/// sensitive frame that carried its checksum no longer does.
pub proof fn lemma_flipped_payload_bit_is_detected(
    header: Seq<u8>,
    payload: Seq<u8>,
    at: int,
    bit: u8,
)
    requires
        header.len() == 8,
        0 <= at < payload.len(),
        bit < 8,
    ensures
        checksum_of(header, flip_bit(payload, at, bit)) != checksum_of(header, payload),
        header_sensitive(header) && checksum_valid(header, payload) ==> !checksum_valid(
            header,
            flip_bit(payload, at, bit),
        ),
{
    lemma_flipped_bit_alters_byte(payload[at], bit);
    let altered = flip_bit(payload, at, bit);
    assert((header + payload)[8 + at] == payload[at]);
    assert((header + altered)[8 + at] == altered[at]);
    assert forall|i: int| 0 <= i < (header + payload).len() && i != 8 + at implies (header
        + payload)[i] == (header + altered)[i] by {
        if i >= 8 {
            assert(altered[i - 8] == payload[i - 8]);
        }
    }
    lemma_altered_frame_has_other_checksum(header, payload, header, altered, 8 + at);
}

/// Flipping any one bit of the header outside its checksum field changes the
/// checksum of the frame. A sensitive frame that carried its checksum no
/// longer does, unless the bit flipped is the sensitive bit itself: the frame
/// then no longer says that it is sensitive.
pub proof fn lemma_flipped_header_bit_is_detected(
    header: Seq<u8>,
    payload: Seq<u8>,
    at: int,
    bit: u8,
)
    requires
        header.len() == 8,
        0 <= at < 8,
        at != 4,
        at != 5,
        bit < 8,
    ensures
        checksum_of(flip_bit(header, at, bit), payload) != checksum_of(header, payload),
        header_sensitive(header) && checksum_valid(header, payload) && !(at == 1 && bit == 6)
            ==> !checksum_valid(flip_bit(header, at, bit), payload),
{
    lemma_flipped_bit_alters_byte(header[at], bit);
    let altered = flip_bit(header, at, bit);
    assert((header + payload)[at] == header[at]);
    assert((altered + payload)[at] == altered[at]);
    assert forall|i: int| 0 <= i < (header + payload).len() && i != at implies (header
        + payload)[i] == (altered + payload)[i] by {
        if i < 8 {
            assert(altered[i] == header[i]);
        }
    }
    lemma_altered_frame_has_other_checksum(header, payload, altered, payload, at);
    if header_sensitive(header) && !(at == 1 && bit == 6) {
        if at == 1 {
            assert(header_sensitive(altered));
        } else {
            assert(altered[1] == header[1]);
        }
        assert(altered[4] == header[4] && altered[5] == header[5]);
    }
}

/// Alteration is detected: if two frames differ in exactly one byte, and
/// that byte is not in the checksum field, their checksums differ. `at` is
/// the byte's offset in the frame, the header's eight bytes counted first.
pub proof fn lemma_altered_frame_has_other_checksum(
    header: Seq<u8>,
    payload: Seq<u8>,
    altered_header: Seq<u8>,
    altered_payload: Seq<u8>,
    at: int,
)
    requires
        header.len() == 8,
        altered_header.len() == 8,
        at != 4,
        at != 5,
        differ_in_one_byte(header + payload, altered_header + altered_payload, at),
    ensures
        checksum_of(altered_header, altered_payload) != checksum_of(header, payload),
{
    let a = with_placeholder(header) + payload;
    let b = with_placeholder(altered_header) + altered_payload;
    let n = word_count(a);
    assert(a.len() == b.len());
    assert forall|i: int| 0 <= i < a.len() && i != at implies a[i] == b[i] by {
        if i != 4 && i != 5 {
            assert(a[i] == (header + payload)[i]);
            assert(b[i] == (altered_header + altered_payload)[i]);
        }
    }
    assert(a[at] == (header + payload)[at]);
    assert(b[at] == (altered_header + altered_payload)[at]);
    lemma_word_sum_of_altered(a, b, at, n);
    lemma_word_sum_grows(a, 3, n);
    lemma_word_sum_grows(b, 3, n);
    lemma_word_sum_grows(a, 0, 2);
    lemma_word_sum_grows(b, 0, 2);
    assert(word_sum(a, 3) == word_sum(a, 2) + word_at(a, 2));
    assert(word_sum(b, 3) == word_sum(b, 2) + word_at(b, 2));
    let sa = word_sum(a, n);
    let sb = word_sum(b, n);
    assert(sa >= 0xCCCC && sb >= 0xCCCC);
    assert(sa != sb && -0xFFFF < sb - sa < 0xFFFF);
    lemma_fold_carries_closed_form(sa as nat);
    lemma_fold_carries_closed_form(sb as nat);
    vstd::arithmetic::div_mod::lemma_fundamental_div_mod(sa - 1, 0xFFFF);
    vstd::arithmetic::div_mod::lemma_fundamental_div_mod(sb - 1, 0xFFFF);
}

/// A sensitive frame that was checksum-valid is no longer so once one of its
/// bytes outside the checksum field is altered, as long as it still says
/// that it is sensitive.
pub proof fn lemma_altered_frame_fails_verification(
    header: Seq<u8>,
    payload: Seq<u8>,
    altered_header: Seq<u8>,
    altered_payload: Seq<u8>,
    at: int,
)
    requires
        header.len() == 8,
        altered_header.len() == 8,
        header_sensitive(header),
        checksum_valid(header, payload),
        at != 4,
        at != 5,
        differ_in_one_byte(header + payload, altered_header + altered_payload, at),
        header_sensitive(altered_header),
    ensures
        !checksum_valid(altered_header, altered_payload),
{
    lemma_altered_frame_has_other_checksum(header, payload, altered_header, altered_payload, at);
    assert(altered_header[4] == (altered_header + altered_payload)[4]);
    assert(altered_header[5] == (altered_header + altered_payload)[5]);
    assert(header[4] == (header + payload)[4]);
    assert(header[5] == (header + payload)[5]);
}

/// Word sums never shrink as more words are counted.
proof fn lemma_word_sum_grows(bytes: Seq<u8>, m: nat, n: nat)
    requires
        m <= n,
    ensures
        word_sum(bytes, m) <= word_sum(bytes, n),
        0 <= word_sum(bytes, m),
    decreases n,
{
    if m < n {
        lemma_word_sum_grows(bytes, m, (n - 1) as nat);
    } else if n > 0 {
        lemma_word_sum_grows(bytes, (n - 1) as nat, (n - 1) as nat);
    }
}

/// Altering one byte moves the word sum by the byte's change, times 256 if
/// the byte is the high half of its word: never by nothing, and by less than
/// `0xFFFF`.
proof fn lemma_word_sum_of_altered(a: Seq<u8>, b: Seq<u8>, at: int, n: nat)
    requires
        differ_in_one_byte(a, b, at),
        n <= word_count(a),
    ensures
        at / 2 >= n ==> word_sum(b, n) == word_sum(a, n),
        at / 2 < n ==> word_sum(b, n) - word_sum(a, n) == (b[at] - a[at]) * (if at % 2 == 0 {
            256int
        } else {
            1int
        }),
    decreases n,
{
    if n > 0 {
        lemma_word_sum_of_altered(a, b, at, (n - 1) as nat);
        let k = n - 1;
        if at / 2 != k {
            assert(a[2 * k] == b[2 * k]);
            if 2 * k + 1 < a.len() {
                assert(a[2 * k + 1] == b[2 * k + 1]);
            }
        } else if at % 2 == 0 {
            if 2 * k + 1 < a.len() {
                assert(a[2 * k + 1] == b[2 * k + 1]);
            }
        } else {
            assert(a[2 * k] == b[2 * k]);
        }
    }
}

} // verus!
