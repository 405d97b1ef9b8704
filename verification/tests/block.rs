use bitcoin::blockdata::script::Script;
use bitcoin::blockdata::transaction::{OutPoint, Transaction, TxIn, TxOut};
use bitcoin::consensus::encode::{deserialize, serialize};
use lane_search::block::{
    listed_transactions, transaction_id, transaction_ids, BlockHeader, FINAL_SEQUENCE, NULL_VOUT,
    PAYOUT_ADDRESS,
};
use lane_search::coinbase::{
    assemble_block_hex, build_coinbase_from_template, insert_nonce_into_coinbase,
    try_assemble_block_hex, try_build_coinbase_from_template,
};
use lane_search::transaction as plain;
use lane_search::transaction::{
    copy_transaction, encode_transaction, push_int, script_for_address, transaction_txid,
    PUSH_INT_LIMIT,
};
use lane_search::rpc::{nonce_meets_target, try_candidate_merkle_roots};
use lane_search::sha_helpers::{
    candidate_merkle_roots, double_sha256_bytes, hash_le_target, merkle_root,
    serialize_block_header_bytes, target_from_bits,
};
use lane_search::template::{BlockTemplate, TemplateTx};

const PREV: &str = "00000000000000000001a2b3c4d5e6f708192a3b4c5d6e7f8091a2b3c4d5e6f7";

fn spend(tag: u8) -> Transaction {
    Transaction {
        version: 1,
        lock_time: 0,
        input: vec![TxIn {
            previous_output: OutPoint::default(),
            script_sig: Script::from(vec![tag, tag, tag]),
            sequence: 0xffff_fffe,
            witness: Vec::new(),
        }],
        output: vec![TxOut { value: 1000 + tag as u64, script_pubkey: Script::from(vec![0x51]) }],
    }
}

fn txid(tx: &Transaction) -> [u8; 32] {
    bitcoin::hashes::Hash::into_inner(tx.txid())
}

fn listed(tx: &Transaction) -> TemplateTx {
    TemplateTx { data: Some(hex::encode(serialize(tx))) }
}

fn template(txs: Vec<TemplateTx>) -> BlockTemplate {
    BlockTemplate {
        version: Some(0x2000_0000),
        previous_block_hash: Some(PREV.to_string()),
        cur_time: Some(1_700_000_000),
        bits: Some("1d00ffff".to_string()),
        coinbase_value: Some(625_000_000),
        height: Some(840_000),
        merkle_root: None,
        transactions: Some(txs),
    }
}

fn prev_bytes() -> [u8; 32] {
    let mut bytes = hex::decode(PREV).unwrap();
    bytes.reverse();
    let mut out = [0u8; 32];
    out.copy_from_slice(&bytes);
    out
}

#[test]
fn header_is_eighty_bytes_in_field_order() {
    let header = BlockHeader {
        version: 0x2000_0001,
        prev_blockhash: [0x11; 32],
        merkle_root: [0x22; 32],
        time: 0x0a0b_0c0d,
        bits: 0x1d00_ffff,
        nonce: 0xdead_beef,
    };
    let bytes = serialize_block_header_bytes(&header);
    assert_eq!(&bytes[0..4], &[0x01, 0x00, 0x00, 0x20]);
    assert_eq!(&bytes[4..36], &[0x11; 32]);
    assert_eq!(&bytes[36..68], &[0x22; 32]);
    assert_eq!(&bytes[68..72], &[0x0d, 0x0c, 0x0b, 0x0a]);
    assert_eq!(&bytes[72..76], &[0xff, 0xff, 0x00, 0x1d]);
    assert_eq!(&bytes[76..80], &[0xef, 0xbe, 0xad, 0xde]);

    let negative = BlockHeader { version: -2, ..header };
    assert_eq!(&serialize_block_header_bytes(&negative)[0..4], &[0xfe, 0xff, 0xff, 0xff]);
    let parsed: bitcoin::BlockHeader = deserialize(&bytes).unwrap();
    assert_eq!(parsed.version, 0x2000_0001);
    assert_eq!(parsed.nonce, 0xdead_beef);
    assert_eq!(parsed.time, 0x0a0b_0c0d);
}

fn small_coinbase() -> plain::Transaction {
    plain::Transaction {
        version: 2,
        lock_time: 0,
        input: vec![plain::TxInput {
            prev_txid: [0u8; 32],
            prev_vout: NULL_VOUT,
            script_sig: push_int(5),
            sequence: FINAL_SEQUENCE,
            witness: vec![vec![1, 2, 3, 4]],
        }],
        output: vec![plain::TxOutput { value: 6, script_pubkey: vec![0x51] }],
    }
}

#[test]
fn coinbase_follows_the_template() {
    let t = template(Vec::new());
    let mut coinbase = build_coinbase_from_template(&t);
    assert_eq!(coinbase.version, 2);
    assert_eq!(coinbase.lock_time, 0);
    assert_eq!(coinbase.input.len(), 1);
    assert_eq!(coinbase.input[0].prev_txid, [0u8; 32]);
    assert_eq!(coinbase.input[0].prev_vout, 0xffff_ffff);
    assert_eq!(coinbase.input[0].script_sig, vec![0x03, 0x40, 0xd1, 0x0c]);
    assert_eq!(coinbase.input[0].sequence, 0xffff_ffff);
    assert_eq!(coinbase.input[0].witness, vec![vec![0u8; 32]]);
    assert_eq!(coinbase.output.len(), 1);
    assert_eq!(coinbase.output[0].value, 625_000_000);
    assert_eq!(Some(coinbase.output[0].script_pubkey.clone()), script_for_address(PAYOUT_ADDRESS));
    assert_eq!(PAYOUT_ADDRESS, "bc1qyux0tnvrusd9deq89h8er0ml4clhdwetp6ljp2");

    let raw = encode_transaction(&coinbase);
    let tx: Transaction = deserialize(&raw).unwrap();
    assert_eq!(tx.version, 2);
    assert_eq!(tx.lock_time, 0);
    assert_eq!(tx.input.len(), 1);
    assert_eq!(tx.input[0].previous_output, OutPoint::default());
    assert_eq!(tx.input[0].sequence, 0xffff_ffff);
    assert_eq!(tx.input[0].witness, vec![vec![0u8; 32]]);
    assert_eq!(tx.input[0].script_sig.as_bytes(), &[0x03, 0x40, 0xd1, 0x0c]);
    assert_eq!(tx.output.len(), 1);
    assert_eq!(tx.output[0].value, 625_000_000);
    assert_eq!(tx.output[0].script_pubkey.len(), 22);
    assert_eq!(transaction_txid(&coinbase), txid(&tx));
    assert_eq!(transaction_id(&raw), Some(txid(&tx)));

    let before = transaction_txid(&coinbase);
    insert_nonce_into_coinbase(&mut coinbase, 0x0102_0304);
    assert_eq!(coinbase.input[0].witness, vec![vec![4u8, 3, 2, 1]]);
    assert_eq!(coinbase.input[0].script_sig, vec![0x03, 0x40, 0xd1, 0x0c]);
    assert_eq!(coinbase.output[0].value, 625_000_000);
    let tx: Transaction = deserialize(&encode_transaction(&coinbase)).unwrap();
    assert_eq!(tx.input[0].witness, vec![vec![4u8, 3, 2, 1]]);
    assert_eq!(transaction_txid(&coinbase), before);

    let mut big = template(Vec::new());
    big.height = Some(0x1_0000_0010);
    assert_eq!(build_coinbase_from_template(&big).input[0].script_sig, vec![0x60]);
    assert!(try_build_coinbase_from_template(&big).is_some());
    big.height = None;
    assert!(try_build_coinbase_from_template(&big).is_none());
    big.height = Some(1);
    big.coinbase_value = None;
    assert!(try_build_coinbase_from_template(&big).is_none());
}

#[test]
fn transactions_are_encoded_field_for_field() {
    let tx = plain::Transaction {
        version: -3,
        lock_time: 77,
        input: vec![
            plain::TxInput {
                prev_txid: [7u8; 32],
                prev_vout: 9,
                script_sig: vec![1, 2, 3],
                sequence: 11,
                witness: vec![vec![5], vec![], vec![6, 7]],
            },
            plain::TxInput {
                prev_txid: [8u8; 32],
                prev_vout: 0,
                script_sig: Vec::new(),
                sequence: 0xffff_fffe,
                witness: Vec::new(),
            },
        ],
        output: vec![
            plain::TxOutput { value: 100, script_pubkey: vec![0x51] },
            plain::TxOutput { value: u64::MAX, script_pubkey: vec![0x6a, 0x01, 0xaa] },
        ],
    };
    let expected = Transaction {
        version: -3,
        lock_time: 77,
        input: vec![
            TxIn {
                previous_output: OutPoint {
                    txid: bitcoin::hashes::Hash::from_inner([7u8; 32]),
                    vout: 9,
                },
                script_sig: Script::from(vec![1, 2, 3]),
                sequence: 11,
                witness: vec![vec![5], vec![], vec![6, 7]],
            },
            TxIn {
                previous_output: OutPoint {
                    txid: bitcoin::hashes::Hash::from_inner([8u8; 32]),
                    vout: 0,
                },
                script_sig: Script::new(),
                sequence: 0xffff_fffe,
                witness: Vec::new(),
            },
        ],
        output: vec![
            TxOut { value: 100, script_pubkey: Script::from(vec![0x51]) },
            TxOut { value: u64::MAX, script_pubkey: Script::from(vec![0x6a, 0x01, 0xaa]) },
        ],
    };
    assert_eq!(encode_transaction(&tx), serialize(&expected));
    assert_eq!(transaction_txid(&tx), txid(&expected));
    let decoded: Transaction = deserialize(&encode_transaction(&tx)).unwrap();
    assert_eq!(decoded, expected);

    let copy = copy_transaction(&tx);
    assert_eq!(encode_transaction(&copy), encode_transaction(&tx));
    assert_eq!(copy.input[0].witness, tx.input[0].witness);
    assert_eq!(copy.output[1].script_pubkey, tx.output[1].script_pubkey);

    let mut patched = copy_transaction(&tx);
    insert_nonce_into_coinbase(&mut patched, 0xa1b2_c3d4);
    assert_eq!(patched.input[0].witness, vec![vec![0xd4, 0xc3, 0xb2, 0xa1], vec![], vec![6, 7]]);
    assert_eq!(patched.input[0].script_sig, vec![1, 2, 3]);
    assert_eq!(patched.input[0].prev_vout, 9);
    assert_eq!(patched.input[1].sequence, 0xffff_fffe);
    assert_eq!(patched.input.len(), 2);
    assert_eq!(patched.output.len(), 2);
    assert_eq!(patched.version, -3);
    assert_eq!(patched.lock_time, 77);

    let empty =
        plain::Transaction { version: 1, lock_time: 0, input: Vec::new(), output: Vec::new() };
    let expected = Transaction { version: 1, lock_time: 0, input: vec![], output: vec![] };
    assert_eq!(encode_transaction(&empty), serialize(&expected));
    assert_eq!(transaction_txid(&empty), txid(&expected));
}

#[test]
fn scripts_come_from_numbers_and_addresses() {
    assert_eq!(push_int(0), vec![0x00]);
    assert_eq!(push_int(-1), vec![0x4f]);
    assert_eq!(push_int(1), vec![0x51]);
    assert_eq!(push_int(16), vec![0x60]);
    assert_eq!(push_int(17), vec![0x01, 0x11]);
    assert_eq!(push_int(128), vec![0x02, 0x80, 0x00]);
    assert_eq!(push_int(840_000), vec![0x03, 0x40, 0xd1, 0x0c]);
    assert_eq!(push_int(0xffff_ffff), vec![0x05, 0xff, 0xff, 0xff, 0xff, 0x00]);
    assert_eq!(push_int(-0xffff_ffff), vec![0x05, 0xff, 0xff, 0xff, 0xff, 0x80]);
    assert_eq!(push_int(-17), vec![0x01, 0x91]);
    assert_eq!(PUSH_INT_LIMIT, 0xffff_ffff);

    let script = script_for_address(PAYOUT_ADDRESS).unwrap();
    assert_eq!(script.len(), 22);
    assert_eq!(&script[..2], &[0x00, 0x14]);
    assert_eq!(script_for_address(""), None);
    assert_eq!(script_for_address("not an address"), None);
    assert_eq!(script_for_address("bc1qyux0tnvrusd9deq89h8er0ml4clhdwetp6ljp3"), None);
    let legacy = script_for_address("1BvBMSEYstWetqTFn5Au4m4GFg7xJaNVN2").unwrap();
    assert_eq!(legacy.len(), 25);
    assert_eq!(&legacy[..3], &[0x76, 0xa9, 0x14]);
}

#[test]
fn transaction_ids_need_transactions() {
    let a = spend(1);
    let b = spend(2);
    assert_eq!(transaction_id(&serialize(&a)), Some(txid(&a)));
    assert_ne!(txid(&a), txid(&b));
    assert_eq!(transaction_id(&[]), None);
    assert_eq!(transaction_id(&[1, 2, 3]), None);
    let mut trailing = serialize(&a);
    trailing.push(0);
    assert_eq!(transaction_id(&trailing), None);

    let raws = vec![serialize(&a), serialize(&b)];
    assert_eq!(transaction_ids(&raws), Some(vec![txid(&a), txid(&b)]));
    assert_eq!(transaction_ids(&Vec::new()), Some(Vec::new()));
    assert_eq!(transaction_ids(&vec![serialize(&a), vec![9]]), None);

    let t = template(vec![listed(&a), listed(&b)]);
    assert_eq!(listed_transactions(&t), Some(raws));
    let t = template(vec![listed(&a), TemplateTx { data: None }]);
    assert_eq!(listed_transactions(&t), None);
    let t = template(vec![TemplateTx { data: Some("abc".to_string()) }]);
    assert_eq!(listed_transactions(&t), None);
    let mut t = template(Vec::new());
    t.transactions = None;
    assert_eq!(listed_transactions(&t), Some(Vec::new()));
}

#[test]
fn assembled_block_holds_header_and_transactions() {
    let a = spend(1);
    let b = spend(2);
    let t = template(vec![listed(&a), listed(&b)]);
    let mut coinbase = build_coinbase_from_template(&t);
    insert_nonce_into_coinbase(&mut coinbase, 77);
    let text = try_assemble_block_hex(&t, &coinbase, 77).unwrap();
    assert_eq!(assemble_block_hex(&t, &coinbase, 77), text);

    let block: bitcoin::Block = deserialize(&hex::decode(&text).unwrap()).unwrap();
    assert_eq!(block.header.version, 0x2000_0000);
    assert_eq!(bitcoin::hashes::Hash::into_inner(block.header.prev_blockhash), prev_bytes());
    assert_eq!(block.header.time, 1_700_000_000);
    assert_eq!(block.header.bits, 0x1d00_ffff);
    assert_eq!(block.header.nonce, 77);
    assert_eq!(block.txdata.len(), 3);
    assert_eq!(serialize(&block.txdata[0]), encode_transaction(&coinbase));
    assert_eq!(block.txdata[1], a);
    assert_eq!(block.txdata[2], b);
    let root = merkle_root(vec![transaction_txid(&coinbase), txid(&a), txid(&b)]);
    assert_eq!(bitcoin::hashes::Hash::into_inner(block.header.merkle_root), root);
    assert!(block.check_merkle_root());
}

#[test]
fn assembly_needs_every_field() {
    let a = spend(1);
    let good = || template(vec![listed(&a)]);
    let coinbase = small_coinbase();
    assert!(try_assemble_block_hex(&good(), &coinbase, 1).is_some());

    let mut t = good();
    t.version = None;
    assert!(try_assemble_block_hex(&t, &coinbase, 1).is_none());
    let mut t = good();
    t.version = Some(-1);
    assert!(try_assemble_block_hex(&t, &coinbase, 1).is_none());
    let mut t = good();
    t.previous_block_hash = Some("00".to_string());
    assert!(try_assemble_block_hex(&t, &coinbase, 1).is_none());
    let mut t = good();
    t.previous_block_hash = None;
    assert!(try_assemble_block_hex(&t, &coinbase, 1).is_none());
    let mut t = good();
    t.cur_time = None;
    assert!(try_assemble_block_hex(&t, &coinbase, 1).is_none());
    let mut t = good();
    t.bits = None;
    assert!(try_assemble_block_hex(&t, &coinbase, 1).is_none());
    let mut t = good();
    t.bits = Some("1d00fffg".to_string());
    assert!(try_assemble_block_hex(&t, &coinbase, 1).is_none());
    let mut t = good();
    t.bits = Some("100000000".to_string());
    assert!(try_assemble_block_hex(&t, &coinbase, 1).is_none());
    for text in ["", "+", "-1", " 1", "1 ", "0x1d", "1_0", "++1"] {
        let mut t = good();
        t.bits = Some(text.to_string());
        assert!(try_assemble_block_hex(&t, &coinbase, 1).is_none(), "bits {:?}", text);
    }
    for (text, bits) in [
        ("+1D00ffFF", 0x1d00_ffffu32),
        ("0", 0),
        ("000000000000ffffffff", u32::MAX),
        ("a", 10),
    ] {
        let mut t = good();
        t.bits = Some(text.to_string());
        let block_text = try_assemble_block_hex(&t, &coinbase, 1).unwrap();
        let block: bitcoin::Block = deserialize(&hex::decode(&block_text).unwrap()).unwrap();
        assert_eq!(block.header.bits, bits, "bits {:?}", text);
    }
    let mut t = good();
    t.transactions = Some(vec![listed(&a), TemplateTx { data: Some("00".to_string()) }]);
    assert!(try_assemble_block_hex(&t, &coinbase, 1).is_none());
    let mut t = good();
    t.transactions = Some(vec![TemplateTx { data: None }]);
    assert!(try_assemble_block_hex(&t, &coinbase, 1).is_none());
    let mut t = good();
    t.transactions = None;
    t.coinbase_value = None;
    t.height = None;
    t.version = Some(0x1_0000_0003);
    t.cur_time = Some(0x1_0000_0009);
    let text = try_assemble_block_hex(&t, &coinbase, 1).unwrap();
    let block: bitcoin::Block = deserialize(&hex::decode(&text).unwrap()).unwrap();
    assert_eq!(block.header.version, 3);
    assert_eq!(block.header.time, 9);
    assert_eq!(block.txdata.len(), 1);
}

fn expected_verdict(
    t: &BlockTemplate,
    coinbase: &plain::Transaction,
    usable: &[Transaction],
    bits: u32,
    nonce: u32,
) -> bool {
    let mut with_nonce = copy_transaction(coinbase);
    insert_nonce_into_coinbase(&mut with_nonce, nonce);
    let mut ids = vec![transaction_txid(&with_nonce)];
    for tx in usable {
        ids.push(txid(tx));
    }
    let header = BlockHeader {
        version: t.version.unwrap_or(4) as i32,
        prev_blockhash: prev_bytes(),
        merkle_root: merkle_root(ids),
        time: t.cur_time.unwrap_or(0) as u32,
        bits,
        nonce,
    };
    let hash = double_sha256_bytes(&serialize_block_header_bytes(&header));
    hash_le_target(&hash, &target_from_bits(bits))
}

#[test]
fn nonce_verdict_follows_the_header_hash() {
    let a = spend(1);
    let b = spend(2);
    let mut t = template(vec![
        listed(&a),
        TemplateTx { data: None },
        TemplateTx { data: Some("zz".to_string()) },
        TemplateTx { data: Some("0102".to_string()) },
        listed(&b),
    ]);
    t.bits = Some("047fffff".to_string());
    let coinbase = build_coinbase_from_template(&t);
    let mut hits = 0;
    let mut misses = 0;
    for nonce in 0..3000u32 {
        let got = nonce_meets_target(&t, &coinbase, nonce);
        let want = expected_verdict(&t, &coinbase, &[a.clone(), b.clone()], 0x047f_ffff, nonce);
        assert_eq!(got, want, "nonce {}", nonce);
        if got {
            hits += 1;
        } else {
            misses += 1;
        }
    }
    assert!(hits > 0 && misses > 0);

    t.bits = None;
    assert!(!nonce_meets_target(&t, &coinbase, 1));
    t.bits = Some("not a number".to_string());
    assert!(!nonce_meets_target(&t, &coinbase, 1));
    t.bits = Some("2000ffff".to_string());
    t.version = Some(-3);
    let got = nonce_meets_target(&t, &coinbase, 9);
    let want = expected_verdict(&t, &coinbase, &[a.clone(), b.clone()], 0x2000_ffff, 9);
    assert_eq!(got, want);
}

#[test]
fn candidate_roots_repeat_the_first_transaction() {
    let a = spend(1);
    let b = spend(2);
    let t = template(vec![listed(&a), TemplateTx { data: Some("odd".to_string()) }, listed(&b)]);
    let root = merkle_root(vec![txid(&a), txid(&a), txid(&b)]);
    let roots = try_candidate_merkle_roots(&t, 3).unwrap();
    assert_eq!(roots, vec![root, root, root]);
    assert_eq!(candidate_merkle_roots(&t, 2), vec![root, root]);
    assert_eq!(candidate_merkle_roots(&t, 0), Vec::<[u8; 32]>::new());

    let t = template(Vec::new());
    assert_eq!(try_candidate_merkle_roots(&t, 3), None);
    let t = template(vec![listed(&a), TemplateTx { data: None }]);
    assert_eq!(try_candidate_merkle_roots(&t, 3), None);
    let t = template(vec![listed(&a), TemplateTx { data: Some("0102".to_string()) }]);
    assert_eq!(try_candidate_merkle_roots(&t, 3), None);
    let t = template(vec![TemplateTx { data: Some("xx".to_string()) }, listed(&a)]);
    assert_eq!(try_candidate_merkle_roots(&t, 3), None);
    let mut t = template(Vec::new());
    t.transactions = None;
    assert_eq!(try_candidate_merkle_roots(&t, 1), None);
}
