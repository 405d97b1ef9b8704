//! What is decided before a block goes upstream: whether a nonce gives a
//! header whose hash meets the target, and the roots that candidate
//! coinbase transactions give.

use vstd::prelude::*;
use crate::block::{
    insert_nonce_into_coinbase, parse_radix16, radix16_of, serialize_block_header_bytes,
    transaction_id, txid_of, with_first_witness, BlockHeader,
};
use crate::hexcode::{hex_bytes, hex_decode, is_hex_text};
use crate::sha_helpers::{
    be_number, chars_of, double_sha256_bytes, hash_le_target, hash_views, merkle_root,
    merkle_root_of, parse_hash, previous_hash_of, sha256, sha256d_hash, target_from_bits,
    target_of,
};
use crate::template::{low32, truncate_u64, BlockTemplate};
use crate::transaction::{
    copy_transaction, transaction_txid, tx_id, Transaction, TransactionView,
};
use crate::coinbase::zeros;
use crate::words::le_bytes;

verus! {

/// The low 32 bits of the template's version, a negative version in two's
/// complement; 4 where the version is missing.
pub open spec fn lenient_version(template: BlockTemplate) -> u32 {
    match template.version {
        Some(v) => low32(v as u64),
        None => 4,
    }
}

/// The compact target that the template's text spells in base sixteen; 0
/// where it spells none. A missing text counts as eight zeros.
pub open spec fn lenient_bits(template: BlockTemplate) -> u32 {
    let parsed = match template.bits {
        Some(t) => radix16_of(t@),
        None => radix16_of("00000000"@),
    };
    match parsed {
        Some(b) => b,
        None => 0,
    }
}

/// Whether a listed transaction can be used: it has data that spells bytes
/// which encode a transaction.
pub open spec fn usable(data: Option<Seq<char>>) -> bool {
    data is Some && is_hex_text(data->Some_0) && txid_of(hex_bytes(data->Some_0)) is Some
}

/// The identifiers of the usable ones among the first `n` listed
/// transactions, in their order.
pub open spec fn usable_ids(template: BlockTemplate, n: nat) -> Seq<Seq<u8>>
    decreases n,
{
    if n == 0 {
        Seq::empty()
    } else {
        let before = usable_ids(template, (n - 1) as nat);
        let data = template.tx_data(n - 1);
        if usable(data) {
            before.push(txid_of(hex_bytes(data->Some_0))->Some_0)
        } else {
            before
        }
    }
}

/// The 80 header bytes of the block that a nonce stands for: the
/// template's version, previous hash, time and compact target, read
/// leniently, and the root over the coinbase transaction with the nonce as
/// the first item of its witness and the usable listed transactions.
pub open spec fn candidate_header(
    template: BlockTemplate,
    coinbase: TransactionView,
    nonce: u32,
) -> Seq<u8> {
    le_bytes(lenient_version(template)) + previous_hash_of(chars_of(template.previous_block_hash))
        + merkle_root_of(
        seq![tx_id(with_first_witness(coinbase, le_bytes(nonce)))] + usable_ids(
            template,
            template.tx_count(),
        ),
    ) + le_bytes(template.header_time()) + le_bytes(lenient_bits(template)) + le_bytes(nonce)
}

proof fn lemma_same_bits(x: u32)
    by (bit_vector)
    ensures
        ((x as i32) as u32) == x,
{
}

fn usable_transaction_ids(template: &BlockTemplate, first: [u8; 32]) -> (ids: Vec<[u8; 32]>)
    ensures
        hash_views(ids@) == seq![first@] + usable_ids(*template, template.tx_count()),
{
    let mut ids: Vec<[u8; 32]> = Vec::new();
    ids.push(first);
    assert(hash_views(ids@) =~= seq![first@] + usable_ids(*template, 0));
    match &template.transactions {
        Some(txs) => {
            let mut i: usize = 0;
            while i < txs.len()
                invariant
                    i <= txs@.len(),
                    template.transactions == Some(*txs),
                    hash_views(ids@) == seq![first@] + usable_ids(*template, i as nat),
                decreases txs@.len() - i,
            {
                let ghost before = ids@;
                let ghost data = template.tx_data(i as int);
                let id = match &txs[i].data {
                    Some(text) => match hex_decode(text.as_str()) {
                        Some(raw) => transaction_id(raw.as_slice()),
                        None => None,
                    },
                    None => None,
                };
                match id {
                    Some(id) => {
                        ids.push(id);
                        assert(usable(data));
                        assert(hash_views(ids@) =~= hash_views(before).push(id@));
                    },
                    None => {
                        assert(!usable(data));
                    },
                }
                i += 1;
            }
        },
        None => {},
    }
    ids
}

/// Whether the header that a nonce stands for has a double SHA-256 digest
/// which, read as a number with the most significant byte first, is at most
/// the template's target. Fields that the template lacks take their
/// defaults, and listed transactions that cannot be used are passed over.
pub fn nonce_meets_target(template: &BlockTemplate, coinbase_tx: &Transaction, nonce: u32) -> (r:
    bool)
    requires
        coinbase_tx@.input.len() > 0,
        coinbase_tx@.input[0].witness.len() > 0,
    ensures
        r == (be_number(sha256(sha256(candidate_header(*template, coinbase_tx@, nonce))))
            <= be_number(target_of(lenient_bits(*template)))),
{
    let version_bits: u32 = match template.version {
        Some(v) => truncate_u64(
            #[verifier::truncate]
            (v as u64),
        ),
        None => 4,
    };
    proof {
        lemma_same_bits(version_bits);
    }
    let version: i32 = #[verifier::truncate]
    (version_bits as i32);
    let parsed = match &template.previous_block_hash {
        Some(text) => parse_hash(text.as_str()),
        None => None,
    };
    let prev_blockhash = match parsed {
        Some(h) => h,
        None => {
            let blank = [0u8; 32];
            assert(blank@ =~= zeros(32));
            sha256d_hash(&blank)
        },
    };
    let parsed_bits = match &template.bits {
        Some(text) => parse_radix16(text.as_str()),
        None => parse_radix16("00000000"),
    };
    let bits: u32 = match parsed_bits {
        Some(b) => b,
        None => 0,
    };
    let time: u32 = match template.cur_time {
        Some(t) => truncate_u64(t),
        None => 0,
    };
    let mut coinbase = copy_transaction(coinbase_tx);
    insert_nonce_into_coinbase(&mut coinbase, nonce);
    let first = transaction_txid(&coinbase);
    let ids = usable_transaction_ids(template, first);
    let root = merkle_root(ids);
    let header = BlockHeader { version, prev_blockhash, merkle_root: root, time, bits, nonce };
    let header_bytes = serialize_block_header_bytes(&header);
    let hash_be = double_sha256_bytes(&header_bytes);
    let target_be = target_from_bits(bits);
    hash_le_target(&hash_be, &target_be)
}

/// The text of a listed transaction's data; the empty text where the data
/// is missing.
pub open spec fn data_or_empty(template: BlockTemplate, i: int) -> Seq<char> {
    match template.tx_data(i) {
        Some(t) => t,
        None => Seq::empty(),
    }
}

/// Whether a listed transaction counts towards a candidate root: its data
/// spells bytes.
pub open spec fn counted(template: BlockTemplate, i: int) -> bool {
    is_hex_text(data_or_empty(template, i))
}

/// Whether the candidate roots of a template are defined: the data of the
/// first listed transaction spells bytes, and whatever bytes the data of a
/// listed transaction spells encode a transaction.
pub open spec fn candidates_defined(template: BlockTemplate) -> bool {
    &&& counted(template, 0)
    &&& txid_of(hex_bytes(data_or_empty(template, 0))) is Some
    &&& forall|i: int|
        0 <= i < template.tx_count() && #[trigger] counted(template, i) ==> txid_of(
            hex_bytes(data_or_empty(template, i)),
        ) is Some
}

/// The identifiers of the counted ones among the first `n` listed
/// transactions, in their order.
pub open spec fn counted_ids(template: BlockTemplate, n: nat) -> Seq<Seq<u8>>
    decreases n,
{
    if n == 0 {
        Seq::empty()
    } else {
        let before = counted_ids(template, (n - 1) as nat);
        if counted(template, n - 1) {
            before.push(txid_of(hex_bytes(data_or_empty(template, n - 1)))->Some_0)
        } else {
            before
        }
    }
}

/// The root that every candidate gives: the root over the first listed
/// transaction followed by all counted listed transactions, the first among
/// them once more.
pub open spec fn candidate_root_of(template: BlockTemplate) -> Seq<u8> {
    merkle_root_of(
        seq![txid_of(hex_bytes(data_or_empty(template, 0)))->Some_0] + counted_ids(
            template,
            template.tx_count(),
        ),
    )
}

fn data_bytes(template: &BlockTemplate, i: usize) -> (r: Option<Vec<u8>>)
    ensures
        r is Some <==> counted(*template, i as int),
        r is Some ==> r->Some_0@ == hex_bytes(data_or_empty(*template, i as int)),
{
    proof {
        reveal_strlit("");
        assert(""@ =~= Seq::<char>::empty());
    }
    match &template.transactions {
        Some(txs) => {
            if i < txs.len() {
                match &txs[i].data {
                    Some(text) => hex_decode(text.as_str()),
                    None => hex_decode(""),
                }
            } else {
                hex_decode("")
            }
        },
        None => hex_decode(""),
    }
}

fn candidate_root(template: &BlockTemplate) -> (r: Option<[u8; 32]>)
    ensures
        r is Some <==> candidates_defined(*template),
        r is Some ==> r->Some_0@ == candidate_root_of(*template),
{
    let first = match data_bytes(template, 0) {
        Some(raw) => match transaction_id(raw.as_slice()) {
            Some(id) => id,
            None => {
                return None;
            },
        },
        None => {
            return None;
        },
    };
    let mut ids: Vec<[u8; 32]> = Vec::new();
    ids.push(first);
    assert(hash_views(ids@) =~= seq![first@] + counted_ids(*template, 0));
    let count: usize = match &template.transactions {
        Some(txs) => txs.len(),
        None => 0,
    };
    let mut i: usize = 0;
    while i < count
        invariant
            i <= count,
            count == template.tx_count(),
            hash_views(ids@) == seq![first@] + counted_ids(*template, i as nat),
            forall|k: int|
                0 <= k < i && #[trigger] counted(*template, k) ==> txid_of(
                    hex_bytes(data_or_empty(*template, k)),
                ) is Some,
        decreases count - i,
    {
        let ghost before = ids@;
        match data_bytes(template, i) {
            Some(raw) => match transaction_id(raw.as_slice()) {
                Some(id) => {
                    ids.push(id);
                    assert(hash_views(ids@) =~= hash_views(before).push(id@));
                },
                None => {
                    return None;
                },
            },
            None => {},
        }
        i += 1;
    }
    Some(merkle_root(ids))
}

/// The roots of `num_candidates` candidate coinbase transactions. The
/// extra nonce of a candidate changes its coinbase script and nothing that
/// the root is formed from, so every candidate gives the same root.
pub fn candidate_merkle_roots(template: &BlockTemplate, num_candidates: u32) -> (roots: Vec<
    [u8; 32],
>)
    requires
        candidates_defined(*template),
    ensures
        roots@.len() == num_candidates,
        forall|i: int|
            0 <= i < num_candidates ==> (#[trigger] roots@[i])@ == candidate_root_of(*template),
{
    let root = candidate_root(template).unwrap();
    let mut roots: Vec<[u8; 32]> = Vec::new();
    let mut extra_nonce: u32 = 0;
    while extra_nonce < num_candidates
        invariant
            extra_nonce <= num_candidates,
            roots@.len() == extra_nonce,
            forall|i: int| 0 <= i < extra_nonce ==> (#[trigger] roots@[i])@ == root@,
        decreases num_candidates - extra_nonce,
    {
        roots.push(root);
        extra_nonce += 1;
    }
    roots
}

/// The candidate roots where they are defined; nothing otherwise.
pub fn try_candidate_merkle_roots(template: &BlockTemplate, num_candidates: u32) -> (r: Option<
    Vec<[u8; 32]>,
>)
    ensures
        r is Some <==> candidates_defined(*template),
        r is Some ==> r->Some_0@.len() == num_candidates && forall|i: int|
            0 <= i < num_candidates ==> (#[trigger] r->Some_0@[i])@ == candidate_root_of(*template),
{
    if candidate_root(template).is_some() {
        Some(candidate_merkle_roots(template, num_candidates))
    } else {
        None
    }
}

} // verus!
