//! Bytes and 64-bit words: the little-endian packing that the circuits use
//! for their inputs, and the big-endian packing of hash digests.
use vstd::prelude::*;

verus! {

/// The word whose little-endian bytes are `b0, .., b7`.
pub open spec fn le_word(b0: u8, b1: u8, b2: u8, b3: u8, b4: u8, b5: u8, b6: u8, b7: u8) -> u64 {
    (b0 as u64) | ((b1 as u64) << 8u64) | ((b2 as u64) << 16u64) | ((b3 as u64) << 24u64) | ((
    b4 as u64) << 32u64) | ((b5 as u64) << 40u64) | ((b6 as u64) << 48u64) | ((b7 as u64)
        << 56u64)
}

/// The word whose little-endian bytes are the first eight of `s`.
pub open spec fn le_word_of(s: Seq<u8>) -> u64
    recommends
        s.len() >= 8,
{
    le_word(s[0], s[1], s[2], s[3], s[4], s[5], s[6], s[7])
}

/// The word whose big-endian bytes are the first eight of `s`.
pub open spec fn be_word_of(s: Seq<u8>) -> u64
    recommends
        s.len() >= 8,
{
    le_word(s[7], s[6], s[5], s[4], s[3], s[2], s[1], s[0])
}

/// Byte `j` (counted from the least significant end) of `w`, as a word.
pub open spec fn byte_of(w: u64, j: u64) -> u64
    recommends
        j < 8,
{
    (w >> ((8 * j) as u64)) & 0xffu64
}

/// The eight little-endian bytes of `w`.
pub open spec fn le_bytes_of(w: u64) -> Seq<u8> {
    Seq::new(8, |j: int| byte_of(w, j as u64) as u8)
}

/// The little-endian bytes of each word of `ws`, one word after the other.
pub open spec fn words_le_bytes(ws: Seq<u64>) -> Seq<u8>
    decreases ws.len(),
{
    if ws.len() == 0 {
        Seq::empty()
    } else {
        words_le_bytes(ws.drop_last()) + le_bytes_of(ws.last())
    }
}

/// The big-endian words of `bytes`, eight bytes to a word.
pub open spec fn be_words_of(bytes: Seq<u8>) -> Seq<u64> {
    Seq::new(bytes.len() / 8, |i: int| be_word_of(bytes.subrange(8 * i, 8 * i + 8)))
}

/// Byte `k` of the first `n` bytes of `s`, and zero past them.
pub open spec fn byte_or_zero(s: Seq<u8>, n: int, k: int) -> u8 {
    if k < n && k < s.len() {
        s[k]
    } else {
        0
    }
}

/// The word packed from the first `n` (at most eight) bytes of `s`, one byte
/// per little-endian position, the missing positions zero.
pub open spec fn packed_prefix(s: Seq<u8>, n: int) -> u64 {
    le_word(
        byte_or_zero(s, n, 0),
        byte_or_zero(s, n, 1),
        byte_or_zero(s, n, 2),
        byte_or_zero(s, n, 3),
        byte_or_zero(s, n, 4),
        byte_or_zero(s, n, 5),
        byte_or_zero(s, n, 6),
        byte_or_zero(s, n, 7),
    )
}

/// Extracting byte `k` of a packed word gives back byte `k`.
pub proof fn lemma_le_word_bytes(b0: u8, b1: u8, b2: u8, b3: u8, b4: u8, b5: u8, b6: u8, b7: u8)
    by (bit_vector)
    ensures
        byte_of(le_word(b0, b1, b2, b3, b4, b5, b6, b7), 0) == b0 as u64,
        byte_of(le_word(b0, b1, b2, b3, b4, b5, b6, b7), 1) == b1 as u64,
        byte_of(le_word(b0, b1, b2, b3, b4, b5, b6, b7), 2) == b2 as u64,
        byte_of(le_word(b0, b1, b2, b3, b4, b5, b6, b7), 3) == b3 as u64,
        byte_of(le_word(b0, b1, b2, b3, b4, b5, b6, b7), 4) == b4 as u64,
        byte_of(le_word(b0, b1, b2, b3, b4, b5, b6, b7), 5) == b5 as u64,
        byte_of(le_word(b0, b1, b2, b3, b4, b5, b6, b7), 6) == b6 as u64,
        byte_of(le_word(b0, b1, b2, b3, b4, b5, b6, b7), 7) == b7 as u64,
{
}

/// Packing the bytes of a word gives back the word.
pub proof fn lemma_word_bytes_repack(w: u64)
    by (bit_vector)
    ensures
        le_word(
            byte_of(w, 0) as u8,
            byte_of(w, 1) as u8,
            byte_of(w, 2) as u8,
            byte_of(w, 3) as u8,
            byte_of(w, 4) as u8,
            byte_of(w, 5) as u8,
            byte_of(w, 6) as u8,
            byte_of(w, 7) as u8,
        ) == w,
        byte_of(w, 0) < 256,
        byte_of(w, 1) < 256,
        byte_of(w, 2) < 256,
        byte_of(w, 3) < 256,
        byte_of(w, 4) < 256,
        byte_of(w, 5) < 256,
        byte_of(w, 6) < 256,
        byte_of(w, 7) < 256,
{
}

/// Setting the first zero position of a packed word is an `|` with the
/// shifted byte.
proof fn lemma_le_word_append(b0: u8, b1: u8, b2: u8, b3: u8, b4: u8, b5: u8, b6: u8, c: u8)
    by (bit_vector)
    ensures
        le_word(c, 0, 0, 0, 0, 0, 0, 0) == le_word(0, 0, 0, 0, 0, 0, 0, 0) | ((c as u64) << 0u64),
        le_word(b0, c, 0, 0, 0, 0, 0, 0) == le_word(b0, 0, 0, 0, 0, 0, 0, 0) | ((c as u64) << 8u64),
        le_word(b0, b1, c, 0, 0, 0, 0, 0) == le_word(b0, b1, 0, 0, 0, 0, 0, 0) | ((c as u64)
            << 16u64),
        le_word(b0, b1, b2, c, 0, 0, 0, 0) == le_word(b0, b1, b2, 0, 0, 0, 0, 0) | ((c as u64)
            << 24u64),
        le_word(b0, b1, b2, b3, c, 0, 0, 0) == le_word(b0, b1, b2, b3, 0, 0, 0, 0) | ((c as u64)
            << 32u64),
        le_word(b0, b1, b2, b3, b4, c, 0, 0) == le_word(b0, b1, b2, b3, b4, 0, 0, 0) | ((c as u64)
            << 40u64),
        le_word(b0, b1, b2, b3, b4, b5, c, 0) == le_word(b0, b1, b2, b3, b4, b5, 0, 0) | ((
        c as u64) << 48u64),
        le_word(b0, b1, b2, b3, b4, b5, b6, c) == le_word(b0, b1, b2, b3, b4, b5, b6, 0) | ((
        c as u64) << 56u64),
        le_word(0, 0, 0, 0, 0, 0, 0, 0) == 0,
{
}

/// Unpacking the little-endian word of eight bytes gives back the bytes.
pub proof fn lemma_le_bytes_of_le_word(s: Seq<u8>)
    requires
        s.len() == 8,
    ensures
        le_bytes_of(le_word_of(s)) == s,
{
    lemma_le_word_bytes(s[0], s[1], s[2], s[3], s[4], s[5], s[6], s[7]);
    assert(le_bytes_of(le_word_of(s)) =~= s);
}

/// Packing the little-endian bytes of a word gives back the word.
pub proof fn lemma_le_word_of_le_bytes(w: u64)
    ensures
        le_word_of(le_bytes_of(w)) == w,
        le_bytes_of(w).len() == 8,
{
    lemma_word_bytes_repack(w);
    let s = le_bytes_of(w);
    assert(s[0] == byte_of(w, 0) as u8);
    assert(s[1] == byte_of(w, 1) as u8);
    assert(s[2] == byte_of(w, 2) as u8);
    assert(s[3] == byte_of(w, 3) as u8);
    assert(s[4] == byte_of(w, 4) as u8);
    assert(s[5] == byte_of(w, 5) as u8);
    assert(s[6] == byte_of(w, 6) as u8);
    assert(s[7] == byte_of(w, 7) as u8);
}

/// The words packed from consecutive eight-byte blocks unpack to the blocks.
pub proof fn lemma_words_le_bytes_of_blocks(ws: Seq<u64>, bytes: Seq<u8>)
    requires
        bytes.len() == 8 * ws.len(),
        forall|i: int|
            0 <= i < ws.len() ==> #[trigger] ws[i] == le_word_of(bytes.subrange(8 * i, 8 * i + 8)),
    ensures
        words_le_bytes(ws) == bytes,
    decreases ws.len(),
{
    if ws.len() == 0 {
        assert(bytes =~= Seq::<u8>::empty());
    } else {
        let n = ws.len() - 1;
        let front = bytes.subrange(0, 8 * n);
        assert forall|i: int| 0 <= i < ws.drop_last().len() implies #[trigger] ws.drop_last()[i]
            == le_word_of(front.subrange(8 * i, 8 * i + 8)) by {
            assert(ws.drop_last()[i] == ws[i]);
            assert(front.subrange(8 * i, 8 * i + 8) =~= bytes.subrange(8 * i, 8 * i + 8));
        }
        lemma_words_le_bytes_of_blocks(ws.drop_last(), front);
        let last_block = bytes.subrange(8 * n, 8 * n + 8);
        assert(ws.last() == le_word_of(last_block)) by {
            assert(ws[n] == le_word_of(bytes.subrange(8 * n, 8 * n + 8)));
        }
        lemma_le_bytes_of_le_word(last_block);
        assert(bytes =~= front + last_block);
    }
}

/// The byte `j` of `w`, as a word: `(w >> 8j) & 0xff`.
pub fn extract_byte(w: u64, j: u64) -> (b: u64)
    requires
        j < 8,
    ensures
        b == byte_of(w, j),
        b < 256,
{
    let b = (w >> (8 * j)) & 0xff;
    assert(b < 256) by (bit_vector)
        requires
            b == (w >> ((8 * j) as u64)) & 0xffu64,
    ;
    b
}

/// The word whose little-endian bytes are `bytes[start..start + 8]`.
pub fn word_from_le_bytes(bytes: &[u8], start: usize) -> (w: u64)
    requires
        start + 8 <= bytes@.len(),
    ensures
        w == le_word_of(bytes@.subrange(start as int, start + 8)),
{
    let _len = bytes.len();
    (bytes[start] as u64) | ((bytes[start + 1] as u64) << 8u64) | ((bytes[start + 2] as u64)
        << 16u64) | ((bytes[start + 3] as u64) << 24u64) | ((bytes[start + 4] as u64) << 32u64)
        | ((bytes[start + 5] as u64) << 40u64) | ((bytes[start + 6] as u64) << 48u64) | ((bytes[start
        + 7] as u64) << 56u64)
}

/// The word whose big-endian bytes are `bytes[start..start + 8]`.
pub fn word_from_be_bytes(bytes: &[u8], start: usize) -> (w: u64)
    requires
        start + 8 <= bytes@.len(),
    ensures
        w == be_word_of(bytes@.subrange(start as int, start + 8)),
{
    let _len = bytes.len();
    (bytes[start + 7] as u64) | ((bytes[start + 6] as u64) << 8u64) | ((bytes[start + 5] as u64)
        << 16u64) | ((bytes[start + 4] as u64) << 24u64) | ((bytes[start + 3] as u64) << 32u64)
        | ((bytes[start + 2] as u64) << 40u64) | ((bytes[start + 1] as u64) << 48u64) | ((
    bytes[start] as u64) << 56u64)
}

/// Appends the eight little-endian bytes of `w` to `out`.
pub fn push_le_bytes(out: &mut Vec<u8>, w: u64)
    ensures
        final(out)@ == old(out)@ + le_bytes_of(w),
{
    let ghost start = out@;
    let mut j: u64 = 0;
    while j < 8
        invariant
            j <= 8,
            start.len() + j == out@.len(),
            out@ == start + le_bytes_of(w).take(j as int),
        decreases 8 - j,
    {
        let b = extract_byte(w, j);
        out.push(b as u8);
        assert(le_bytes_of(w).take(j + 1) =~= le_bytes_of(w).take(j as int).push(b as u8));
        j = j + 1;
    }
    assert(le_bytes_of(w).take(8) =~= le_bytes_of(w));
}

/// Packs the first eight bytes of `pieces` (fewer if there are fewer) into
/// one word, byte `i` at bits `8i .. 8i + 8`.
pub fn pack_pieces(pieces: &[u8]) -> (packed: u64)
    ensures
        packed == packed_prefix(pieces@, 8),
        pieces@.len() >= 8 ==> packed == le_word_of(pieces@),
{
    let s = Ghost(pieces@);
    let mut packed: u64 = 0;
    let mut i: usize = 0;
    proof {
        lemma_le_word_append(0, 0, 0, 0, 0, 0, 0, 0);
    }
    while i < pieces.len() && i < 8
        invariant
            s@ == pieces@,
            i <= 8,
            i <= pieces@.len(),
            packed == packed_prefix(s@, i as int),
        decreases 8 - i,
    {
        let coord = pieces[i];
        proof {
            let ss = s@;
            lemma_le_word_append(ss[0], ss[1], ss[2], ss[3], ss[4], ss[5], ss[6], coord);
        }
        packed = packed | ((coord as u64) << (i * 8));
        i = i + 1;
    }
    proof {
        let ss = s@;
        assert forall|k: int| 0 <= k < 8 implies byte_or_zero(ss, i as int, k) == byte_or_zero(
            ss,
            8,
            k,
        ) by {}
    }
    packed
}

} // verus!
