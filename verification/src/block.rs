//! Block headers, the coinbase transaction and whole blocks in their
//! consensus encoding.
//!
//! The transactions that a template lists are held as the bytes of their
//! encoding. What the encoding of a block is, and what the identifier of
//! an encoded transaction is, is the `bitcoin` crate's to say; the functions
//! that ask it are named as such.

use vstd::prelude::*;
use bitcoin::consensus::encode::{deserialize, serialize};
use crate::coinbase::zeros;
use crate::hexcode::{
    hex_bytes, hex_decode, hex_encode, hex_text, hex_value, is_hex_digit, is_hex_text,
};
use crate::sha_helpers::{hash_views, merkle_root, merkle_root_of};
use crate::template::{low32, truncate_u64, BlockTemplate};
use crate::transaction::{
    address_script, copy_bytes, encode_transaction, push_int, push_int_script,
    script_for_address, transaction_txid, tx_encoding, tx_id, Transaction, TransactionView,
    TxInput, TxInputView, TxOutput, TxOutputView,
};
use crate::words::{le_bytes, u32_to_le_bytes};

verus! {

/// The six fields of a block header.
#[derive(Clone, Copy, Debug)]
pub struct BlockHeader {
    pub version: i32,
    /// The hash of the previous block, as it is stored.
    pub prev_blockhash: [u8; 32],
    /// The root of the hash tree over the block's transactions.
    pub merkle_root: [u8; 32],
    pub time: u32,
    /// The compact target.
    pub bits: u32,
    pub nonce: u32,
}

/// The address that the coinbase transaction pays to.
pub const PAYOUT_ADDRESS: &'static str = "bc1qyux0tnvrusd9deq89h8er0ml4clhdwetp6ljp2";

/// The output number of the outpoint that spends nothing.
pub const NULL_VOUT: u32 = 0xffff_ffff;

/// The sequence number of an input that is final.
pub const FINAL_SEQUENCE: u32 = 0xffff_ffff;

/// The 80 bytes of a header with these six fields: the version, the two
/// hashes as they are stored, then time, compact target and nonce; every
/// number with its least significant byte first.
pub open spec fn header_bytes(
    version: i32,
    prev_blockhash: Seq<u8>,
    merkle_root: Seq<u8>,
    time: u32,
    bits: u32,
    nonce: u32,
) -> Seq<u8> {
    le_bytes(version as u32) + prev_blockhash + merkle_root + le_bytes(time) + le_bytes(bits)
        + le_bytes(nonce)
}

/// The 80 bytes of a header.
pub open spec fn header_layout(h: BlockHeader) -> Seq<u8> {
    header_bytes(h.version, h.prev_blockhash@, h.merkle_root@, h.time, h.bits, h.nonce)
}

/// The identifier of the transaction that `raw` encodes; none where `raw`
/// encodes no transaction.
pub uninterp spec fn txid_of(raw: Seq<u8>) -> Option<Seq<u8>>;

/// The consensus encoding of the block with this header and these
/// transactions, each given by its encoding; none where one of them
/// encodes no transaction.
pub uninterp spec fn block_encoding(
    version: i32,
    prev_blockhash: Seq<u8>,
    merkle_root: Seq<u8>,
    time: u32,
    bits: u32,
    nonce: u32,
    txs: Seq<Seq<u8>>,
) -> Option<Seq<u8>>;

/// The number that a run of hexadecimal digits spells, the most
/// significant digit first.
pub open spec fn hex_number(digits: Seq<char>) -> nat
    decreases digits.len(),
{
    if digits.len() == 0 {
        0
    } else {
        hex_number(digits.drop_last()) * 16 + hex_value(digits.last()) as nat
    }
}

/// The digits of a number's text: the text without a leading plus sign.
pub open spec fn unsigned_digits(text: Seq<char>) -> Seq<char> {
    if text.len() > 0 && text[0] == '+' {
        text.skip(1)
    } else {
        text
    }
}

/// The number that a text spells in base sixteen, as 32 bits hold it: the
/// text is one or more hexadecimal digits of either case, with or without a
/// plus sign in front, and the number fits in 32 bits. None for every other
/// text.
pub open spec fn radix16_of(text: Seq<char>) -> Option<u32> {
    let digits = unsigned_digits(text);
    if digits.len() > 0 && (forall|i: int| 0 <= i < digits.len() ==> is_hex_digit(#[trigger] digits[i]))
        && hex_number(digits) <= u32::MAX {
        Some(hex_number(digits) as u32)
    } else {
        None
    }
}

/// The byte strings of a list of encodings.
pub open spec fn raw_views(raws: Seq<Vec<u8>>) -> Seq<Seq<u8>> {
    raws.map_values(|raw: Vec<u8>| raw@)
}

/// Calls `bitcoin::consensus::encode::serialize` on the `bitcoin` header
/// with these six fields. That encoding is the six fields in their order,
/// the numbers as four bytes with the least significant first, the hashes
/// as their 32 stored bytes: 80 bytes.
#[verifier::external_body]
fn consensus_header_bytes(h: &BlockHeader) -> (bytes: Vec<u8>)
    ensures
        bytes@ == header_layout(*h),
{
    serialize(
        &bitcoin::BlockHeader {
            version: h.version,
            prev_blockhash: bitcoin::hashes::Hash::from_inner(h.prev_blockhash),
            merkle_root: bitcoin::hashes::Hash::from_inner(h.merkle_root),
            time: h.time,
            bits: h.bits,
            nonce: h.nonce,
        },
    )
}

/// Calls `bitcoin::consensus::encode::deserialize` for a transaction on
/// `raw` and, where that succeeds, `Transaction::txid` on what it gives.
/// The contract gives the outcome its name.
#[verifier::external_body]
fn raw_txid(raw: &[u8]) -> (r: Option<[u8; 32]>)
    ensures
        r is Some <==> txid_of(raw@) is Some,
        r is Some ==> txid_of(raw@) == Some(r->Some_0@),
{
    match deserialize::<bitcoin::Transaction>(raw) {
        Ok(tx) => Some(bitcoin::hashes::Hash::into_inner(tx.txid())),
        Err(_) => None,
    }
}

/// Decodes every transaction with `bitcoin::consensus::encode::deserialize`
/// and calls `serialize` on the `bitcoin::Block` with this header and those
/// transactions. The contract gives the outcome its name, and says of it
/// what the crate's encoding of a block shows: it begins with the 80 bytes
/// of the header.
#[verifier::external_body]
fn consensus_block_bytes(h: &BlockHeader, raw_txs: &Vec<Vec<u8>>) -> (r: Option<Vec<u8>>)
    ensures
        r is Some <==> block_encoding(
            h.version,
            h.prev_blockhash@,
            h.merkle_root@,
            h.time,
            h.bits,
            h.nonce,
            raw_views(raw_txs@),
        ) is Some,
        r is Some ==> block_encoding(
            h.version,
            h.prev_blockhash@,
            h.merkle_root@,
            h.time,
            h.bits,
            h.nonce,
            raw_views(raw_txs@),
        ) == Some(r->Some_0@),
        r is Some ==> r->Some_0@.len() >= 80 && r->Some_0@.subrange(0, 80) == header_layout(*h),
{
    let mut txdata = Vec::with_capacity(raw_txs.len());
    for raw in raw_txs {
        txdata.push(deserialize::<bitcoin::Transaction>(raw).ok()?);
    }
    let header = bitcoin::BlockHeader {
        version: h.version,
        prev_blockhash: bitcoin::hashes::Hash::from_inner(h.prev_blockhash),
        merkle_root: bitcoin::hashes::Hash::from_inner(h.merkle_root),
        time: h.time,
        bits: h.bits,
        nonce: h.nonce,
    };
    Some(serialize(&bitcoin::Block { header, txdata }))
}

/// Calls `u32::from_str_radix` with radix 16 on the text. That function
/// accepts one or more digits of the radix, of either case, with or without
/// a plus sign in front, and returns the number they spell if it fits in 32
/// bits; every other text is an error, returned as `None`.
#[verifier::external_body]
pub(crate) fn parse_radix16(text: &str) -> (r: Option<u32>)
    ensures
        r == radix16_of(text@),
{
    match u32::from_str_radix(text, 16) {
        Ok(number) => Some(number),
        Err(_) => None,
    }
}

/// The 80 bytes of a header's consensus encoding.
pub fn serialize_block_header_bytes(header: &BlockHeader) -> (out: [u8; 80])
    ensures
        out@ == header_layout(*header),
{
    let bytes = consensus_header_bytes(header);
    let mut out = [0u8; 80];
    let mut i: usize = 0;
    while i < 80
        invariant
            i <= 80,
            bytes@.len() == 80,
            forall|k: int| 0 <= k < i ==> out@[k] == bytes@[k],
        decreases 80 - i,
    {
        out[i] = bytes[i];
        i += 1;
    }
    assert(out@ =~= bytes@);
    out
}

/// The coinbase transaction of a block at a height: version 2, lock time
/// 0; one input that spends nothing, whose script pushes the height, whose
/// sequence is final and whose witness is one item of 32 zero bytes; one
/// output that pays the value to the payout script.
pub open spec fn coinbase_of(height: u32, value: u64, payout_script: Seq<u8>) -> TransactionView {
    TransactionView {
        version: 2,
        lock_time: 0,
        input: seq![
            TxInputView {
                prev_txid: zeros(32),
                prev_vout: NULL_VOUT,
                script_sig: push_int_script(height as i64),
                sequence: FINAL_SEQUENCE,
                witness: seq![zeros(32)],
            },
        ],
        output: seq![TxOutputView { value, script_pubkey: payout_script }],
    }
}

/// Whether a coinbase transaction can be built from the template: it has a
/// height and a coinbase value, and the payout address is an address.
pub open spec fn can_build_coinbase(template: BlockTemplate) -> bool {
    &&& template.height is Some
    &&& template.coinbase_value is Some
    &&& address_script(PAYOUT_ADDRESS@) is Some
}

/// The coinbase transaction of a template.
pub open spec fn template_coinbase(template: BlockTemplate) -> TransactionView {
    coinbase_of(
        low32(template.height->Some_0),
        template.coinbase_value->Some_0,
        address_script(PAYOUT_ADDRESS@)->Some_0,
    )
}

fn zero_bytes(n: usize) -> (bytes: Vec<u8>)
    ensures
        bytes@ == zeros(n as nat),
{
    let mut bytes: Vec<u8> = Vec::new();
    let mut i: usize = 0;
    while i < n
        invariant
            i <= n,
            bytes@ == zeros(i as nat),
        decreases n - i,
    {
        bytes.push(0);
        assert(bytes@ =~= zeros((i + 1) as nat));
        i += 1;
    }
    bytes
}

/// Builds the coinbase transaction of a template: it pushes the template's
/// height, cut down to 32 bits, and pays the template's coinbase value to
/// the payout address.
pub fn build_coinbase_from_template(template: &BlockTemplate) -> (coinbase: Transaction)
    requires
        can_build_coinbase(*template),
    ensures
        coinbase@ == template_coinbase(*template),
{
    let height = truncate_u64(template.height.unwrap());
    let value = template.coinbase_value.unwrap();
    let payout_script = script_for_address(PAYOUT_ADDRESS).unwrap();
    let null_txid = [0u8; 32];
    assert(null_txid@ =~= zeros(32));
    let mut witness: Vec<Vec<u8>> = Vec::new();
    witness.push(zero_bytes(32));
    let first = TxInput {
        prev_txid: null_txid,
        prev_vout: NULL_VOUT,
        script_sig: push_int(height as i64),
        sequence: FINAL_SEQUENCE,
        witness,
    };
    assert(first@.witness =~= seq![zeros(32)]);
    let mut input: Vec<TxInput> = Vec::new();
    input.push(first);
    let mut output: Vec<TxOutput> = Vec::new();
    output.push(TxOutput { value, script_pubkey: payout_script });
    let coinbase = Transaction { version: 2, lock_time: 0, input, output };
    assert(coinbase@.input =~= template_coinbase(*template).input);
    assert(coinbase@.output =~= template_coinbase(*template).output);
    coinbase
}

/// Builds the coinbase transaction where the template has a height and a
/// coinbase value and the payout address is an address; returns nothing
/// otherwise.
pub fn try_build_coinbase_from_template(template: &BlockTemplate) -> (r: Option<Transaction>)
    ensures
        r is Some <==> can_build_coinbase(*template),
        r is Some ==> r->Some_0@ == template_coinbase(*template),
{
    if template.height.is_some() && template.coinbase_value.is_some() && script_for_address(
        PAYOUT_ADDRESS,
    ).is_some() {
        Some(build_coinbase_from_template(template))
    } else {
        None
    }
}

/// A transaction with another first item in its first input's witness.
pub open spec fn with_first_witness(tx: TransactionView, item: Seq<u8>) -> TransactionView
    recommends
        tx.input.len() > 0,
        tx.input[0].witness.len() > 0,
{
    TransactionView {
        input: tx.input.update(
            0,
            TxInputView { witness: tx.input[0].witness.update(0, item), ..tx.input[0] },
        ),
        ..tx
    }
}

/// Puts a nonce into a coinbase transaction: its four bytes, least
/// significant first, become the first item of the first input's witness.
pub fn insert_nonce_into_coinbase(coinbase: &mut Transaction, nonce: u32)
    requires
        old(coinbase)@.input.len() > 0,
        old(coinbase)@.input[0].witness.len() > 0,
    ensures
        final(coinbase)@ == with_first_witness(old(coinbase)@, le_bytes(nonce)),
{
    let bytes = u32_to_le_bytes(nonce);
    let mut item: Vec<u8> = Vec::new();
    item.push(bytes[0]);
    item.push(bytes[1]);
    item.push(bytes[2]);
    item.push(bytes[3]);
    assert(item@ =~= le_bytes(nonce));
    let ghost given = coinbase@;
    assert(given.input[0] == coinbase.input@[0]@);
    let mut first = coinbase.input.remove(0);
    let ghost first_before = first@;
    first.witness.remove(0);
    first.witness.insert(0, item);
    assert(first@.witness =~= first_before.witness.update(0, le_bytes(nonce)));
    coinbase.input.insert(0, first);
    assert(coinbase@.input =~= with_first_witness(given, le_bytes(nonce)).input);
    assert(coinbase@.output =~= given.output);
}

/// The identifier of the transaction that `raw` encodes, where it encodes
/// one.
pub fn transaction_id(raw: &[u8]) -> (r: Option<[u8; 32]>)
    ensures
        r is Some <==> txid_of(raw@) is Some,
        r is Some ==> txid_of(raw@) == Some(r->Some_0@),
{
    raw_txid(raw)
}

/// Whether every listed transaction of the template has data that spells
/// bytes.
pub open spec fn all_listed_spell_bytes(template: BlockTemplate) -> bool {
    forall|i: int|
        0 <= i < template.tx_count() ==> (#[trigger] template.tx_data(i)) is Some && is_hex_text(
            template.tx_data(i)->Some_0,
        )
}

/// The bytes of the listed transactions, in their order.
pub open spec fn listed_raws(template: BlockTemplate) -> Seq<Seq<u8>> {
    Seq::new(template.tx_count(), |i: int| hex_bytes(template.tx_data(i)->Some_0))
}

/// Whether each of the byte strings encodes a transaction.
pub open spec fn all_have_ids(raws: Seq<Seq<u8>>) -> bool {
    forall|i: int| 0 <= i < raws.len() ==> txid_of(#[trigger] raws[i]) is Some
}

/// The identifiers of the transactions that the byte strings encode.
pub open spec fn ids_of(raws: Seq<Seq<u8>>) -> Seq<Seq<u8>> {
    Seq::new(raws.len(), |i: int| txid_of(raws[i])->Some_0)
}

/// The bytes of the listed transactions, or nothing where one of them
/// lacks its data or its data spells no bytes.
pub fn listed_transactions(template: &BlockTemplate) -> (r: Option<Vec<Vec<u8>>>)
    ensures
        r is Some <==> all_listed_spell_bytes(*template),
        r is Some ==> raw_views(r->Some_0@) == listed_raws(*template),
{
    let mut raws: Vec<Vec<u8>> = Vec::new();
    match &template.transactions {
        Some(txs) => {
            let mut i: usize = 0;
            while i < txs.len()
                invariant
                    i <= txs@.len(),
                    template.transactions == Some(*txs),
                    raws@.len() == i,
                    forall|k: int|
                        0 <= k < i ==> (#[trigger] template.tx_data(k)) is Some && is_hex_text(
                            template.tx_data(k)->Some_0,
                        ) && raws@[k]@ == hex_bytes(template.tx_data(k)->Some_0),
                decreases txs@.len() - i,
            {
                let decoded = match &txs[i].data {
                    Some(text) => hex_decode(text.as_str()),
                    None => None,
                };
                match decoded {
                    Some(bytes) => {
                        raws.push(bytes);
                    },
                    None => {
                        assert(!(template.tx_data(i as int) is Some && is_hex_text(
                            template.tx_data(i as int)->Some_0,
                        )));
                        return None;
                    },
                }
                i += 1;
            }
        },
        None => {},
    }
    assert(raw_views(raws@) =~= listed_raws(*template));
    Some(raws)
}

/// The identifiers of the transactions that the byte strings encode, or
/// nothing where one of them encodes no transaction.
pub fn transaction_ids(raws: &Vec<Vec<u8>>) -> (r: Option<Vec<[u8; 32]>>)
    ensures
        r is Some <==> all_have_ids(raw_views(raws@)),
        r is Some ==> hash_views(r->Some_0@) == ids_of(raw_views(raws@)),
{
    let ghost views = raw_views(raws@);
    let mut ids: Vec<[u8; 32]> = Vec::new();
    let mut i: usize = 0;
    while i < raws.len()
        invariant
            i <= raws@.len(),
            views == raw_views(raws@),
            ids@.len() == i,
            forall|k: int|
                0 <= k < i ==> txid_of(#[trigger] views[k]) == Some((ids@[k])@),
        decreases raws@.len() - i,
    {
        assert(views[i as int] == raws@[i as int]@);
        match raw_txid(raws[i].as_slice()) {
            Some(id) => {
                ids.push(id);
            },
            None => {
                return None;
            },
        }
        i += 1;
    }
    assert(hash_views(ids@) =~= ids_of(views));
    Some(ids)
}

/// The text of a field that may be missing.
pub open spec fn field_text(field: Option<String>) -> Option<Seq<char>> {
    match field {
        Some(t) => Some(t@),
        None => None,
    }
}

/// Whether the template has what a block is assembled from: a version
/// that is not negative, the previous block's hash in 64 hexadecimal
/// digits, a time, a compact target in base sixteen, and listed
/// transactions that all spell bytes and encode transactions.
pub open spec fn can_assemble(template: BlockTemplate) -> bool {
    &&& template.version is Some
    &&& template.version->Some_0 >= 0
    &&& template.previous_block_hash is Some
    &&& is_hex_text(template.previous_block_hash->Some_0@)
    &&& template.previous_block_hash->Some_0@.len() == 64
    &&& template.cur_time is Some
    &&& template.bits is Some
    &&& radix16_of(template.bits->Some_0@) is Some
    &&& all_listed_spell_bytes(template)
    &&& all_have_ids(listed_raws(template))
}

/// The header of the block that is assembled from a template, a coinbase
/// transaction and a nonce: the template's version, previous hash, time and
/// compact target, and the root of the hash tree over the identifiers of
/// the coinbase transaction and of the listed ones.
pub open spec fn assembled_header(
    template: BlockTemplate,
    coinbase: TransactionView,
    nonce: u32,
) -> Seq<u8> {
    header_bytes(
        low32(template.version->Some_0 as u64) as i32,
        hex_bytes(template.previous_block_hash->Some_0@).reverse(),
        merkle_root_of(seq![tx_id(coinbase)] + ids_of(listed_raws(template))),
        low32(template.cur_time->Some_0),
        radix16_of(template.bits->Some_0@)->Some_0,
        nonce,
    )
}

/// The block that is assembled from a template, a coinbase transaction and
/// a nonce, in its consensus encoding: the coinbase transaction first, then
/// the listed ones. None where the block has no encoding.
pub open spec fn assembled_block(
    template: BlockTemplate,
    coinbase: TransactionView,
    nonce: u32,
) -> Option<Seq<u8>> {
    block_encoding(
        low32(template.version->Some_0 as u64) as i32,
        hex_bytes(template.previous_block_hash->Some_0@).reverse(),
        merkle_root_of(seq![tx_id(coinbase)] + ids_of(listed_raws(template))),
        low32(template.cur_time->Some_0),
        radix16_of(template.bits->Some_0@)->Some_0,
        nonce,
        seq![tx_encoding(coinbase)] + listed_raws(template),
    )
}

/// Whether a block can be assembled and has an encoding.
pub open spec fn assembles(template: BlockTemplate, coinbase: TransactionView, nonce: u32) -> bool {
    can_assemble(template) && assembled_block(template, coinbase, nonce) is Some
}

/// Whether `text` is the assembled block in hexadecimal text, a block that
/// begins with its header.
pub open spec fn is_assembled(
    text: Seq<char>,
    template: BlockTemplate,
    coinbase: TransactionView,
    nonce: u32,
) -> bool {
    let block = assembled_block(template, coinbase, nonce)->Some_0;
    &&& text == hex_text(block)
    &&& block.len() >= 80
    &&& block.subrange(0, 80) == assembled_header(template, coinbase, nonce)
}

fn assemble(template: &BlockTemplate, coinbase: &Transaction, nonce: u32) -> (r: Option<String>)
    ensures
        r is Some <==> assembles(*template, coinbase@, nonce),
        r is Some ==> is_assembled(r->Some_0@, *template, coinbase@, nonce),
{
    let version: i32 = match template.version {
        Some(v) => if v >= 0 {
            #[verifier::truncate]
            (truncate_u64(v as u64) as i32)
        } else {
            return None;
        },
        None => {
            return None;
        },
    };
    let prev_blockhash = match &template.previous_block_hash {
        Some(text) => match crate::sha_helpers::parse_hash(text.as_str()) {
            Some(h) => h,
            None => {
                return None;
            },
        },
        None => {
            return None;
        },
    };
    let time: u32 = match template.cur_time {
        Some(t) => truncate_u64(t),
        None => {
            return None;
        },
    };
    let bits: u32 = match &template.bits {
        Some(text) => match parse_radix16(text.as_str()) {
            Some(b) => b,
            None => {
                return None;
            },
        },
        None => {
            return None;
        },
    };
    let listed = match listed_transactions(template) {
        Some(raws) => raws,
        None => {
            return None;
        },
    };
    let listed_ids = match transaction_ids(&listed) {
        Some(ids) => ids,
        None => {
            return None;
        },
    };
    let parts = (encode_transaction(coinbase), transaction_txid(coinbase));
    let mut ids: Vec<[u8; 32]> = Vec::new();
    ids.push(parts.1);
    let mut i: usize = 0;
    while i < listed_ids.len()
        invariant
            i <= listed_ids@.len(),
            hash_views(ids@) == seq![parts.1@] + hash_views(listed_ids@).take(i as int),
        decreases listed_ids@.len() - i,
    {
        let ghost before = ids@;
        ids.push(listed_ids[i]);
        assert(hash_views(ids@) =~= hash_views(before).push(listed_ids@[i as int]@));
        assert(hash_views(listed_ids@).take(i + 1) =~= hash_views(listed_ids@).take(i as int).push(
            listed_ids@[i as int]@,
        ));
        i += 1;
    }
    assert(hash_views(listed_ids@).take(i as int) =~= hash_views(listed_ids@));
    let root = merkle_root(ids);
    let ghost listed_views = raw_views(listed@);
    let mut txs: Vec<Vec<u8>> = Vec::new();
    txs.push(parts.0);
    let mut j: usize = 0;
    while j < listed.len()
        invariant
            j <= listed@.len(),
            listed_views == raw_views(listed@),
            raw_views(txs@) == seq![parts.0@] + listed_views.take(j as int),
        decreases listed@.len() - j,
    {
        let ghost before = txs@;
        let raw = copy_bytes(&listed[j]);
        txs.push(raw);
        assert(raw_views(txs@) =~= raw_views(before).push(listed@[j as int]@));
        assert(listed_views.take(j + 1) =~= listed_views.take(j as int).push(listed@[j as int]@));
        j += 1;
    }
    assert(listed_views.take(j as int) =~= listed_views);
    let header = BlockHeader { version, prev_blockhash, merkle_root: root, time, bits, nonce };
    match consensus_block_bytes(&header, &txs) {
        Some(bytes) => Some(hex_encode(bytes.as_slice())),
        None => None,
    }
}

/// Assembles the block of a template, a coinbase transaction and a nonce
/// and returns its consensus encoding as hexadecimal text.
pub fn assemble_block_hex(template: &BlockTemplate, coinbase: &Transaction, nonce: u32) -> (r: String)
    requires
        assembles(*template, coinbase@, nonce),
    ensures
        is_assembled(r@, *template, coinbase@, nonce),
{
    assemble(template, coinbase, nonce).unwrap()
}

/// Assembles the block where the template has all that it takes and the
/// block has an encoding; returns nothing otherwise.
pub fn try_assemble_block_hex(template: &BlockTemplate, coinbase: &Transaction, nonce: u32) -> (r:
    Option<String>)
    ensures
        r is Some <==> assembles(*template, coinbase@, nonce),
        r is Some ==> is_assembled(r->Some_0@, *template, coinbase@, nonce),
{
    if assemble(template, coinbase, nonce).is_some() {
        Some(assemble_block_hex(template, coinbase, nonce))
    } else {
        None
    }
}

} // verus!
