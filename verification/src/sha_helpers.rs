//! Hashing helpers of the search: double SHA-256, the compact target and
//! the comparison against it, and the message schedule that the device
//! kernel consumes.

use vstd::prelude::*;
use std::str::FromStr;
use bitcoin::hashes::sha256d;
use sha2::{Digest, Sha256};
pub use crate::block::serialize_block_header_bytes;
use crate::coinbase::zeros;
use crate::hexcode::{bytes_or_empty, decode_or_empty, hex_bytes, is_hex_text};
pub use crate::rpc::{candidate_merkle_roots, try_candidate_merkle_roots};
use crate::template::{text_or_empty, truncate_u64, BlockTemplate};
use crate::words::{
    be_bytes, digest_be_bytes, le_value, le_words, u32_from_le_bytes, u32_to_be_bytes,
    u32_to_le_bytes, words_be_bytes, words_le_bytes,
};

verus! {

/// The SHA-256 digest of a byte string.
pub uninterp spec fn sha256(data: Seq<u8>) -> Seq<u8>;

/// Calls `sha2::Sha256::digest` on `data` and copies the 32 bytes that it
/// returns. The contract gives that digest its name; that SHA-256 is what is
/// computed is taken from the crate.
#[verifier::external_body]
fn sha256_digest(data: &[u8]) -> (out: [u8; 32])
    ensures
        out@ == sha256(data@),
{
    let digest = Sha256::digest(data);
    let mut out = [0u8; 32];
    out.copy_from_slice(&digest);
    out
}

/// SHA-256 applied twice.
pub fn double_sha256_bytes(data: &[u8]) -> (out: [u8; 32])
    ensures
        out@ == sha256(sha256(data@)),
{
    let first = sha256_digest(data);
    sha256_digest(&first)
}

/// The exponent byte of a compact target.
pub open spec fn compact_exponent(bits: u32) -> int {
    bits as int / 0x100_0000
}

/// The 23-bit mantissa of a compact target.
pub open spec fn compact_mantissa(bits: u32) -> u32 {
    (bits % 0x80_0000) as u32
}

/// The mantissa of a compact target with exponent 3 or less, moved down by
/// the bytes that the exponent lacks.
pub open spec fn small_target_value(bits: u32) -> u32 {
    let mantissa = compact_mantissa(bits);
    if compact_exponent(bits) == 3 {
        mantissa
    } else if compact_exponent(bits) == 2 {
        (mantissa / 0x100) as u32
    } else if compact_exponent(bits) == 1 {
        (mantissa / 0x1_0000) as u32
    } else {
        0
    }
}

/// The 32-byte target that a compact target expands to. With an exponent
/// of 3 or less the moved mantissa fills the last four bytes, most
/// significant first. With an exponent from 4 to 32 the three mantissa
/// bytes stand at the places `exponent - 3` to `exponent - 1`. Every other
/// byte, and the whole target for a larger exponent, is zero.
pub open spec fn target_of(bits: u32) -> Seq<u8> {
    let exponent = compact_exponent(bits);
    Seq::new(
        32,
        |i: int|
            if exponent <= 3 {
                if i >= 28 {
                    be_bytes(small_target_value(bits))[i - 28]
                } else {
                    0u8
                }
            } else if exponent <= 32 && exponent - 3 <= i < exponent {
                be_bytes(compact_mantissa(bits))[i - (exponent - 3) + 1]
            } else {
                0u8
            },
    )
}

proof fn lemma_compact_parts(bits: u32)
    by (bit_vector)
    ensures
        ((bits >> 24) & 0xff) == bits / 0x100_0000,
        (bits & 0x007f_ffff) == bits % 0x80_0000,
        ((bits & 0x007f_ffff) >> 0) == bits % 0x80_0000,
        ((bits & 0x007f_ffff) >> 8) == (bits % 0x80_0000) / 0x100,
        ((bits & 0x007f_ffff) >> 16) == (bits % 0x80_0000) / 0x1_0000,
        ((bits & 0x007f_ffff) >> 24) == 0,
{
}

/// Expands a compact target.
pub fn target_from_bits(bits: u32) -> (target: [u8; 32])
    ensures
        target@ == target_of(bits),
{
    let mut target = [0u8; 32];
    let exponent: u32 = (bits >> 24) & 0xff;
    let mantissa: u32 = bits & 0x007f_ffff;
    proof {
        lemma_compact_parts(bits);
    }
    if exponent <= 3 {
        let value: u32 = mantissa >> (8 * (3 - exponent));
        let bytes = u32_to_be_bytes(value);
        target[28] = bytes[0];
        target[29] = bytes[1];
        target[30] = bytes[2];
        target[31] = bytes[3];
    } else if exponent <= 32 {
        let offset: usize = (exponent - 3) as usize;
        let mant_bytes = u32_to_be_bytes(mantissa);
        target[offset] = mant_bytes[1];
        target[offset + 1] = mant_bytes[2];
        target[offset + 2] = mant_bytes[3];
    }
    assert(target@ =~= target_of(bits));
    target
}

/// The number that a byte string spells, most significant byte first.
pub open spec fn be_number(s: Seq<u8>) -> nat
    decreases s.len(),
{
    if s.len() == 0 {
        0
    } else {
        be_number(s.drop_last()) * 256 + s.last() as nat
    }
}

/// Of two byte strings of one length that agree up to a place where the
/// first has the smaller byte, the first spells the smaller number.
pub proof fn lemma_first_difference_decides(a: Seq<u8>, b: Seq<u8>, i: int)
    requires
        a.len() == b.len(),
        0 <= i < a.len(),
        forall|k: int| 0 <= k < i ==> a[k] == b[k],
        a[i] < b[i],
    ensures
        be_number(a) < be_number(b),
    decreases a.len(),
{
    let a0 = a.drop_last();
    let b0 = b.drop_last();
    if i == a.len() - 1 {
        assert(a0 =~= b0);
    } else {
        lemma_first_difference_decides(a0, b0, i);
    }
}

/// Whether a hash, read as a number with the most significant byte first,
/// is at most the target.
pub fn hash_le_target(hash_be: &[u8; 32], target_be: &[u8; 32]) -> (r: bool)
    ensures
        r == (be_number(hash_be@) <= be_number(target_be@)),
{
    let mut i: usize = 0;
    while i < 32
        invariant
            i <= 32,
            forall|k: int| 0 <= k < i ==> hash_be@[k] == target_be@[k],
        decreases 32 - i,
    {
        if hash_be[i] < target_be[i] {
            proof {
                lemma_first_difference_decides(hash_be@, target_be@, i as int);
            }
            return true;
        }
        if hash_be[i] > target_be[i] {
            proof {
                lemma_first_difference_decides(target_be@, hash_be@, i as int);
            }
            return false;
        }
        i += 1;
    }
    assert(hash_be@ =~= target_be@);
    true
}

/// Whether a digest of eight words, each taken most significant byte first,
/// is at most the expanded compact target.
pub fn digest_meets_target(digest_words: &[u32; 8], bits: u32) -> (r: bool)
    ensures
        r == (be_number(words_be_bytes(digest_words@)) <= be_number(target_of(bits))),
{
    let target = target_from_bits(bits);
    let hash_bytes = digest_be_bytes(digest_words);
    hash_le_target(&hash_bytes, &target)
}

/// A word turned right by `n` bits, for `n` from 1 to 31.
pub open spec fn rotr(x: u32, n: u32) -> u32 {
    (x >> n) | (x << ((32 - n) as u32))
}

/// The small sigma-0 of SHA-256.
pub open spec fn sigma0(x: u32) -> u32 {
    rotr(x, 7) ^ rotr(x, 18) ^ (x >> 3u32)
}

/// The small sigma-1 of SHA-256.
pub open spec fn sigma1(x: u32) -> u32 {
    rotr(x, 17) ^ rotr(x, 19) ^ (x >> 10u32)
}

/// Addition of 32-bit words with wrap-around.
pub open spec fn add32(x: u32, y: u32) -> u32 {
    vstd::wrapping::u32_specs::wrapping_add(x, y)
}

/// Word `i` of the message schedule of a block of sixteen words: the
/// block's own words first, then each word from the four before it that the
/// SHA-256 expansion names.
pub open spec fn schedule_word(block: Seq<u32>, i: nat) -> u32
    decreases i,
{
    if i < 16 {
        block[i as int]
    } else {
        add32(
            add32(
                add32(schedule_word(block, (i - 16) as nat), sigma0(schedule_word(block, (i - 15) as nat))),
                schedule_word(block, (i - 7) as nat),
            ),
            sigma1(schedule_word(block, (i - 2) as nat)),
        )
    }
}

/// The 64 words of the message schedule of a block.
pub open spec fn schedule_of(block: Seq<u32>) -> Seq<u32> {
    Seq::new(64, |i: int| schedule_word(block, i as nat))
}

fn small_sigma0(x: u32) -> (r: u32)
    ensures
        r == sigma0(x),
{
    ((x >> 7) | (x << 25)) ^ ((x >> 18) | (x << 14)) ^ (x >> 3)
}

fn small_sigma1(x: u32) -> (r: u32)
    ensures
        r == sigma1(x),
{
    ((x >> 17) | (x << 15)) ^ ((x >> 19) | (x << 13)) ^ (x >> 10)
}

/// Expands sixteen words to the 64 words of their message schedule.
pub fn expand_schedule(block: &[u32; 16]) -> (w: [u32; 64])
    ensures
        w@ == schedule_of(block@),
{
    let mut w = [0u32; 64];
    let mut i: usize = 0;
    while i < 16
        invariant
            i <= 16,
            forall|k: int| 0 <= k < i ==> w@[k] == schedule_word(block@, k as nat),
        decreases 16 - i,
    {
        w[i] = block[i];
        i += 1;
    }
    while i < 64
        invariant
            16 <= i <= 64,
            forall|k: int| 0 <= k < i ==> w@[k] == schedule_word(block@, k as nat),
        decreases 64 - i,
    {
        let s0 = small_sigma0(w[i - 15]);
        let s1 = small_sigma1(w[i - 2]);
        let word = w[i - 16].wrapping_add(s0).wrapping_add(w[i - 7]).wrapping_add(s1);
        w[i] = word;
        i += 1;
    }
    assert(w@ =~= schedule_of(block@));
    w
}

/// The message schedule of the first sixteen of a header's nineteen words.
pub fn precompute_schedule(header_words: &[u32; 19]) -> (w: [u32; 64])
    ensures
        w@ == schedule_of(header_words@.subrange(0, 16)),
{
    let mut block = [0u32; 16];
    let mut i: usize = 0;
    while i < 16
        invariant
            i <= 16,
            forall|k: int| 0 <= k < i ==> block@[k] == header_words@[k],
        decreases 16 - i,
    {
        block[i] = header_words[i];
        i += 1;
    }
    assert(block@ =~= header_words@.subrange(0, 16));
    expand_schedule(&block)
}

/// The first sixteen of a header's nineteen words as 64 bytes, each word
/// least significant byte first.
pub fn header_block_bytes(header_words: &[u32; 19]) -> (bytes: Vec<u8>)
    ensures
        bytes@ == words_le_bytes(header_words@.subrange(0, 16)),
{
    let mut bytes: Vec<u8> = Vec::new();
    let mut i: usize = 0;
    while i < 16
        invariant
            i <= 16,
            bytes@.len() == 4 * i,
            forall|k: int|
                0 <= k < 4 * i ==> bytes@[k] == crate::words::le_bytes(header_words@[k / 4])[k % 4],
        decreases 16 - i,
    {
        let b = u32_to_le_bytes(header_words[i]);
        bytes.push(b[0]);
        bytes.push(b[1]);
        bytes.push(b[2]);
        bytes.push(b[3]);
        i += 1;
    }
    assert(bytes@ =~= words_le_bytes(header_words@.subrange(0, 16)));
    bytes
}

/// Eight words from 32 bytes, each word from four bytes, least significant
/// first.
pub fn digest_words(digest: &[u8; 32]) -> (words: [u32; 8])
    ensures
        words@ == le_words(digest@),
{
    let mut words = [0u32; 8];
    let mut i: usize = 0;
    while i < 8
        invariant
            i <= 8,
            forall|k: int| 0 <= k < i ==> words@[k] == le_words(digest@)[k],
        decreases 8 - i,
    {
        words[i] = u32_from_le_bytes(
            digest[4 * i],
            digest[4 * i + 1],
            digest[4 * i + 2],
            digest[4 * i + 3],
        );
        i += 1;
    }
    assert(words@ =~= le_words(digest@));
    words
}

/// The state that the search starts from: the double SHA-256 of the
/// header's first sixteen words, read back as eight words.
pub fn compute_midstate(header_words: &[u32; 19]) -> (midstate: [u32; 8])
    ensures
        midstate@ == le_words(sha256(sha256(words_le_bytes(header_words@.subrange(0, 16))))),
{
    let first_block = header_block_bytes(header_words);
    let second_hash = double_sha256_bytes(first_block.as_slice());
    digest_words(&second_hash)
}

/// The double SHA-256 digest of a byte string, as hashes of transactions
/// and of tree nodes are formed.
pub uninterp spec fn sha256d_digest(data: Seq<u8>) -> Seq<u8>;

/// Calls `bitcoin::hashes::sha256d::Hash::hash` on `data` and takes the 32
/// bytes of the hash as they are stored. The contract gives them their
/// name.
#[verifier::external_body]
pub(crate) fn sha256d_hash(data: &[u8]) -> (out: [u8; 32])
    ensures
        out@ == sha256d_digest(data@),
{
    let hash: sha256d::Hash = bitcoin::hashes::Hash::hash(data);
    bitcoin::hashes::Hash::into_inner(hash)
}

/// Calls `from_str` of `bitcoin::hashes::sha256d::Hash`. That function
/// accepts exactly 64 hexadecimal digits of either case and stores the 32
/// bytes that they spell in reversed order; any other text is an error,
/// returned as `None`.
#[verifier::external_body]
pub(crate) fn parse_hash(text: &str) -> (r: Option<[u8; 32]>)
    ensures
        r is Some <==> (is_hex_text(text@) && text@.len() == 64),
        r is Some ==> r->Some_0@ == hex_bytes(text@).reverse(),
{
    match sha256d::Hash::from_str(text) {
        Ok(hash) => Some(bitcoin::hashes::Hash::into_inner(hash)),
        Err(_) => None,
    }
}

/// The byte strings of a list of hashes.
pub open spec fn hash_views(hashes: Seq<[u8; 32]>) -> Seq<Seq<u8>> {
    hashes.map_values(|h: [u8; 32]| h@)
}

/// Node `i` of the level above `level`: the hash of the nodes `2i` and
/// `2i + 1` joined, where a last node without a partner is joined with
/// itself.
pub open spec fn merkle_pair(level: Seq<Seq<u8>>, i: int) -> Seq<u8> {
    sha256d_digest(
        level[2 * i] + (if 2 * i + 1 < level.len() {
            level[2 * i + 1]
        } else {
            level[2 * i]
        }),
    )
}

/// The level above `level`.
pub open spec fn merkle_level(level: Seq<Seq<u8>>) -> Seq<Seq<u8>> {
    Seq::new((level.len() + 1) / 2, |i: int| merkle_pair(level, i))
}

/// The root of the tree over `level`: 32 zero bytes for no hashes, the hash
/// itself for one, and the root of the level above otherwise.
pub open spec fn merkle_root_of(level: Seq<Seq<u8>>) -> Seq<u8>
    decreases level.len(),
{
    if level.len() == 0 {
        zeros(32)
    } else if level.len() == 1 {
        level[0]
    } else {
        merkle_root_of(merkle_level(level))
    }
}

fn join_hashes(left: &[u8; 32], right: &[u8; 32]) -> (joined: Vec<u8>)
    ensures
        joined@ == left@ + right@,
{
    let mut joined: Vec<u8> = Vec::new();
    let mut i: usize = 0;
    while i < 32
        invariant
            i <= 32,
            joined@ == left@.take(i as int),
        decreases 32 - i,
    {
        joined.push(left[i]);
        assert(left@.take(i + 1) =~= left@.take(i as int).push(left@[i as int]));
        i += 1;
    }
    assert(left@.take(32) =~= left@);
    let mut j: usize = 0;
    while j < 32
        invariant
            j <= 32,
            joined@ == left@ + right@.take(j as int),
        decreases 32 - j,
    {
        joined.push(right[j]);
        assert(right@.take(j + 1) =~= right@.take(j as int).push(right@[j as int]));
        j += 1;
    }
    assert(right@.take(32) =~= right@);
    joined
}

fn merkle_level_up(hashes: &Vec<[u8; 32]>) -> (above: Vec<[u8; 32]>)
    ensures
        hash_views(above@) == merkle_level(hash_views(hashes@)),
        above@.len() == (hashes@.len() + 1) / 2,
{
    let ghost level = hash_views(hashes@);
    let count: usize = hashes.len();
    let half: usize = count / 2 + count % 2;
    let mut above: Vec<[u8; 32]> = Vec::new();
    let mut k: usize = 0;
    while k < half
        invariant
            k <= half,
            count == hashes@.len(),
            half == (count + 1) / 2,
            level == hash_views(hashes@),
            above@.len() == k,
            forall|m: int| 0 <= m < k ==> (#[trigger] above@[m])@ == merkle_pair(level, m),
        decreases half - k,
    {
        let left = hashes[2 * k];
        let right = if 2 * k + 1 < count {
            hashes[2 * k + 1]
        } else {
            hashes[2 * k]
        };
        let concat = join_hashes(&left, &right);
        let node = sha256d_hash(concat.as_slice());
        above.push(node);
        k += 1;
    }
    assert(hash_views(above@) =~= merkle_level(level));
    above
}

/// The root of the hash tree over the transaction hashes.
pub fn merkle_root(tx_hashes: Vec<[u8; 32]>) -> (root: [u8; 32])
    ensures
        root@ == merkle_root_of(hash_views(tx_hashes@)),
{
    if tx_hashes.len() == 0 {
        let root = [0u8; 32];
        assert(root@ =~= zeros(32));
        return root;
    }
    let ghost given = hash_views(tx_hashes@);
    let mut hashes = tx_hashes;
    while hashes.len() > 1
        invariant
            hashes@.len() >= 1,
            merkle_root_of(hash_views(hashes@)) == merkle_root_of(given),
        decreases hashes@.len(),
    {
        hashes = merkle_level_up(&hashes);
    }
    hashes[0]
}

/// Byte `i` of a byte string, or zero behind its end.
pub open spec fn byte_or_zero(bytes: Seq<u8>, i: int) -> u8 {
    if 0 <= i < bytes.len() {
        bytes[i]
    } else {
        0
    }
}

/// Word `k` of a byte string that is read four bytes to a word, least
/// significant byte first, and filled up with zeros.
pub open spec fn padded_word(bytes: Seq<u8>, k: int) -> u32 {
    le_value(
        byte_or_zero(bytes, 4 * k),
        byte_or_zero(bytes, 4 * k + 1),
        byte_or_zero(bytes, 4 * k + 2),
        byte_or_zero(bytes, 4 * k + 3),
    ) as u32
}

/// The previous block's hash as the header builder takes it: the bytes
/// that the template's text spells, reversed, or the double SHA-256 digest
/// of 32 zero bytes where the text is no hash. A missing text counts as
/// the text `00`.
pub open spec fn previous_hash_of(text: Option<Seq<char>>) -> Seq<u8> {
    match text {
        Some(t) => if is_hex_text(t) && t.len() == 64 {
            hex_bytes(t).reverse()
        } else {
            sha256d_digest(zeros(32))
        },
        None => sha256d_digest(zeros(32)),
    }
}

/// The bytes of the template's own merkle root; none where it has none or
/// its text spells no bytes.
pub open spec fn merkle_bytes_of(text: Option<Seq<char>>) -> Seq<u8> {
    match text {
        Some(t) => bytes_or_empty(t),
        None => Seq::empty(),
    }
}

/// The characters of a text of the template that may be missing.
pub open spec fn chars_of(text: Option<String>) -> Option<Seq<char>> {
    match text {
        Some(t) => Some(t@),
        None => None,
    }
}

/// The nineteen header words of a template. Word 0 is the version. Words 1
/// and 2 are the first eight bytes of the previous block's hash. Words 3 to
/// 10 are the template's own merkle root as far as it reaches, at most
/// eight words, and zero behind it. Words 11 to 17 are zero. Word 18 is the
/// current time plus 31.
pub open spec fn header_words_of(template: BlockTemplate) -> Seq<u32> {
    let prev = previous_hash_of(chars_of(template.previous_block_hash));
    let merkle = merkle_bytes_of(chars_of(template.merkle_root));
    Seq::new(
        19,
        |i: int|
            if i == 0 {
                template.header_version()
            } else if i <= 2 {
                padded_word(prev, i - 1)
            } else if i <= 10 {
                if 4 * (i - 3) < merkle.len() {
                    padded_word(merkle, i - 3)
                } else {
                    0u32
                }
            } else if i < 18 {
                0u32
            } else {
                (template.header_time() + 31) as u32
            },
    )
}

fn word_at(bytes: &[u8], k: usize) -> (w: u32)
    requires
        4 * k + 3 <= usize::MAX,
    ensures
        w == padded_word(bytes@, k as int),
{
    let b0: u8 = if 4 * k < bytes.len() { bytes[4 * k] } else { 0 };
    let b1: u8 = if 4 * k + 1 < bytes.len() { bytes[4 * k + 1] } else { 0 };
    let b2: u8 = if 4 * k + 2 < bytes.len() { bytes[4 * k + 2] } else { 0 };
    let b3: u8 = if 4 * k + 3 < bytes.len() { bytes[4 * k + 3] } else { 0 };
    proof {
        crate::words::lemma_le_bytes_of_value(b0, b1, b2, b3);
    }
    u32_from_le_bytes(b0, b1, b2, b3)
}

/// Builds the nineteen header words from a template.
pub fn prepare_block_header(template: &BlockTemplate) -> (header_words: [u32; 19])
    requires
        template.header_time() + 31 <= u32::MAX,
    ensures
        header_words@ == header_words_of(*template),
{
    let mut header_words = [0u32; 19];
    header_words[0] = match template.version {
        Some(v) => if v >= 0 {
            truncate_u64(v as u64)
        } else {
            4
        },
        None => 4,
    };
    let parsed = match &template.previous_block_hash {
        Some(text) => parse_hash(text.as_str()),
        None => None,
    };
    let prev_hash = match parsed {
        Some(h) => h,
        None => {
            let blank = [0u8; 32];
            assert(blank@ =~= zeros(32));
            sha256d_hash(&blank)
        },
    };
    assert(prev_hash@ == previous_hash_of(chars_of(template.previous_block_hash)));
    header_words[1] = word_at(&prev_hash, 0);
    header_words[2] = word_at(&prev_hash, 1);
    let ghost merkle = merkle_bytes_of(chars_of(template.merkle_root));
    match &template.merkle_root {
        Some(text) => {
            let merkle_bytes = decode_or_empty(text.as_str());
            let mut i: usize = 0;
            while i < 8 && 4 * i < merkle_bytes.len()
                invariant
                    i <= 8,
                    merkle_bytes@ == merkle,
                    header_words@[0] == template.header_version(),
                    header_words@[1] == padded_word(prev_hash@, 0),
                    header_words@[2] == padded_word(prev_hash@, 1),
                    forall|k: int|
                        3 <= k < 3 + i ==> header_words@[k] == padded_word(merkle, k - 3),
                    forall|k: int| 3 + i <= k < 19 ==> header_words@[k] == 0,
                decreases 8 - i,
            {
                header_words[3 + i] = word_at(merkle_bytes.as_slice(), i);
                i += 1;
            }
        },
        None => {},
    }
    let time: u32 = match template.cur_time {
        Some(t) => truncate_u64(t),
        None => 0,
    };
    header_words[18] = time + 31;
    assert(header_words@ =~= header_words_of(*template));
    header_words
}

/// The message schedule for a header and a coinbase script. The schedule
/// is formed from the first 64 bytes of the header's first sixteen words
/// followed by the script, and those are the header's words: the script has
/// no part in it.
pub fn precompute_schedule_with_nonce(header_words: &[u32; 19], coinbase_script: Option<&str>) -> (w:
    [u32; 64])
    ensures
        w@ == schedule_of(header_words@.subrange(0, 16)),
{
    let mut header_bytes = header_block_bytes(header_words);
    let ghost head = header_bytes@;
    match coinbase_script {
        Some(text) => {
            let script = decode_or_empty(text);
            let mut i: usize = 0;
            while i < script.len()
                invariant
                    i <= script@.len(),
                    header_bytes@.len() == head.len() + i,
                    header_bytes@.subrange(0, head.len() as int) == head,
                decreases script@.len() - i,
            {
                let ghost before = header_bytes@;
                header_bytes.push(script[i]);
                assert(header_bytes@.subrange(0, head.len() as int) =~= before.subrange(
                    0,
                    head.len() as int,
                ));
                i += 1;
            }
        },
        None => {
            assert(header_bytes@.subrange(0, head.len() as int) =~= head);
        },
    }
    assert(head.len() == 64);
    while header_bytes.len() < 64
        invariant
            header_bytes@.len() >= 64,
            header_bytes@.subrange(0, 64) == head,
        decreases 64 - header_bytes@.len(),
    {
        header_bytes.push(0);
    }
    let mut block = [0u32; 16];
    let mut k: usize = 0;
    while k < 16
        invariant
            k <= 16,
            header_bytes@.len() >= 64,
            head == words_le_bytes(header_words@.subrange(0, 16)),
            header_bytes@.subrange(0, 64) == head,
            forall|m: int| 0 <= m < k ==> block@[m] == header_words@[m],
        decreases 16 - k,
    {
        assert(header_bytes@[4 * k as int] == head[4 * k as int]);
        assert(header_bytes@[4 * k + 1] == head[4 * k + 1]);
        assert(header_bytes@[4 * k + 2] == head[4 * k + 2]);
        assert(header_bytes@[4 * k + 3] == head[4 * k + 3]);
        proof {
            crate::words::lemma_le_round_trip(header_words@[k as int]);
        }
        block[k] = u32_from_le_bytes(
            header_bytes[4 * k],
            header_bytes[4 * k + 1],
            header_bytes[4 * k + 2],
            header_bytes[4 * k + 3],
        );
        k += 1;
    }
    assert(block@ =~= header_words@.subrange(0, 16));
    expand_schedule(&block)
}

/// The starting state for a header and a coinbase script: the double
/// SHA-256 of the header's first sixteen words followed by the script, read
/// back as eight words. A script that is missing or spells no bytes counts
/// as empty.
pub fn compute_midstate_with_nonce(header_words: &[u32; 19], coinbase_script: Option<&str>) -> (midstate:
    [u32; 8])
    ensures
        midstate@ == le_words(
            sha256(
                sha256(
                    words_le_bytes(header_words@.subrange(0, 16)) + bytes_or_empty(
                        text_or_empty(coinbase_script),
                    ),
                ),
            ),
        ),
{
    let mut header_bytes = header_block_bytes(header_words);
    let ghost head = header_bytes@;
    match coinbase_script {
        Some(text) => {
            let script = decode_or_empty(text);
            let mut i: usize = 0;
            while i < script.len()
                invariant
                    i <= script@.len(),
                    header_bytes@ == head + script@.take(i as int),
                decreases script@.len() - i,
            {
                header_bytes.push(script[i]);
                assert(script@.take(i + 1) =~= script@.take(i as int).push(script@[i as int]));
                i += 1;
            }
            assert(script@.take(i as int) =~= script@);
        },
        None => {
            assert(header_bytes@ =~= head + Seq::<u8>::empty());
        },
    }
    let second_hash = double_sha256_bytes(header_bytes.as_slice());
    digest_words(&second_hash)
}

} // verus!
