//! Transactions as the library holds them: every field a plain value.
//!
//! What the consensus encoding of a transaction is, what its identifier
//! is, which script pushes a number and which script pays to an address is
//! the `bitcoin` crate's to say. The functions that ask it convert the
//! fields one for one and decide nothing; what a coinbase transaction holds
//! is decided in `block`.

use std::str::FromStr;
use vstd::prelude::*;
use bitcoin::blockdata::script::Builder;
use bitcoin::consensus::encode::serialize;
use bitcoin::Address;

verus! {

/// One input of a transaction.
#[derive(Debug)]
pub struct TxInput {
    /// The identifier of the transaction whose output is spent, as stored.
    pub prev_txid: [u8; 32],
    /// The number of the output that is spent.
    pub prev_vout: u32,
    /// The input script.
    pub script_sig: Vec<u8>,
    pub sequence: u32,
    /// The items of the input's witness.
    pub witness: Vec<Vec<u8>>,
}

/// One output of a transaction.
#[derive(Debug)]
pub struct TxOutput {
    pub value: u64,
    /// The output script.
    pub script_pubkey: Vec<u8>,
}

/// A transaction.
#[derive(Debug)]
pub struct Transaction {
    pub version: i32,
    pub lock_time: u32,
    pub input: Vec<TxInput>,
    pub output: Vec<TxOutput>,
}

/// What an input stands for.
pub struct TxInputView {
    pub prev_txid: Seq<u8>,
    pub prev_vout: u32,
    pub script_sig: Seq<u8>,
    pub sequence: u32,
    pub witness: Seq<Seq<u8>>,
}

/// What an output stands for.
pub struct TxOutputView {
    pub value: u64,
    pub script_pubkey: Seq<u8>,
}

/// What a transaction stands for.
pub struct TransactionView {
    pub version: i32,
    pub lock_time: u32,
    pub input: Seq<TxInputView>,
    pub output: Seq<TxOutputView>,
}

/// The byte strings of a list of byte vectors.
pub open spec fn byte_views(items: Seq<Vec<u8>>) -> Seq<Seq<u8>> {
    items.map_values(|item: Vec<u8>| item@)
}

impl View for TxInput {
    type V = TxInputView;

    open spec fn view(&self) -> TxInputView {
        TxInputView {
            prev_txid: self.prev_txid@,
            prev_vout: self.prev_vout,
            script_sig: self.script_sig@,
            sequence: self.sequence,
            witness: byte_views(self.witness@),
        }
    }
}

impl View for TxOutput {
    type V = TxOutputView;

    open spec fn view(&self) -> TxOutputView {
        TxOutputView { value: self.value, script_pubkey: self.script_pubkey@ }
    }
}

impl View for Transaction {
    type V = TransactionView;

    open spec fn view(&self) -> TransactionView {
        TransactionView {
            version: self.version,
            lock_time: self.lock_time,
            input: self.input@.map_values(|i: TxInput| i@),
            output: self.output@.map_values(|o: TxOutput| o@),
        }
    }
}

/// The consensus encoding of a transaction.
pub uninterp spec fn tx_encoding(tx: TransactionView) -> Seq<u8>;

/// The identifier of a transaction.
pub uninterp spec fn tx_id(tx: TransactionView) -> Seq<u8>;

/// The greatest magnitude of a number that `push_int` takes: 32 bits.
pub const PUSH_INT_LIMIT: i64 = 0xffff_ffff;

/// Whether a number is one that a push script is asked for: its magnitude
/// fits in 32 bits.
pub open spec fn pushable(number: i64) -> bool {
    -PUSH_INT_LIMIT <= number <= PUSH_INT_LIMIT
}

/// The script that pushes a number of at most 32 bits of magnitude onto
/// the stack.
pub uninterp spec fn push_int_script(number: i64) -> Seq<u8>;

/// The output script that pays to an address; none where the text is no
/// address.
pub uninterp spec fn address_script(address: Seq<char>) -> Option<Seq<u8>>;

/// Turns the transaction into a `bitcoin::Transaction`, field for field,
/// and returns what `bitcoin::consensus::encode::serialize` and
/// `Transaction::txid` give for it. The contract gives both results their
/// names.
#[verifier::external_body]
fn transaction_parts(tx: &Transaction) -> (parts: (Vec<u8>, [u8; 32]))
    ensures
        parts.0@ == tx_encoding(tx@),
        parts.1@ == tx_id(tx@),
{
    let input = tx.input.iter().map(|i| bitcoin::TxIn {
        previous_output: bitcoin::OutPoint::new(bitcoin::hashes::Hash::from_inner(i.prev_txid), i.prev_vout),
        script_sig: i.script_sig.clone().into(),
        sequence: i.sequence,
        witness: i.witness.clone(),
    }).collect();
    let output = tx.output.iter().map(|o| bitcoin::TxOut {
        value: o.value,
        script_pubkey: o.script_pubkey.clone().into(),
    }).collect();
    let converted = bitcoin::Transaction { version: tx.version, lock_time: tx.lock_time, input, output };
    (serialize(&converted), bitcoin::hashes::Hash::into_inner(converted.txid()))
}

/// Calls `bitcoin::blockdata::script::Builder::push_int` on an empty
/// builder and takes the bytes of the script. The contract gives them their
/// name. The crate negates a negative number and takes the magnitude at the
/// machine's pointer width, so only magnitudes of at most 32 bits are
/// admitted: for those the call returns, and returns the same bytes on
/// every machine.
#[verifier::external_body]
fn push_int_bytes(number: i64) -> (script: Vec<u8>)
    requires
        pushable(number),
    ensures
        script@ == push_int_script(number),
{
    Builder::new().push_int(number).into_script().into_bytes()
}

/// Calls `from_str` of `bitcoin::Address` and, where the text is an
/// address, `Address::script_pubkey`, of which it takes the bytes. The
/// contract gives the outcome its name; a text that is no address is `None`.
#[verifier::external_body]
fn address_script_bytes(address: &str) -> (r: Option<Vec<u8>>)
    ensures
        r is Some <==> address_script(address@) is Some,
        r is Some ==> address_script(address@) == Some(r->Some_0@),
{
    match Address::from_str(address) {
        Ok(parsed) => Some(parsed.script_pubkey().into_bytes()),
        Err(_) => None,
    }
}

/// The consensus encoding of a transaction.
pub fn encode_transaction(tx: &Transaction) -> (raw: Vec<u8>)
    ensures
        raw@ == tx_encoding(tx@),
{
    transaction_parts(tx).0
}

/// The identifier of a transaction.
pub fn transaction_txid(tx: &Transaction) -> (id: [u8; 32])
    ensures
        id@ == tx_id(tx@),
{
    transaction_parts(tx).1
}

/// The script that pushes a number onto the stack. The number's magnitude
/// fits in 32 bits.
pub fn push_int(number: i64) -> (script: Vec<u8>)
    requires
        pushable(number),
    ensures
        script@ == push_int_script(number),
{
    push_int_bytes(number)
}

/// The output script that pays to an address, where the text is one.
pub fn script_for_address(address: &str) -> (r: Option<Vec<u8>>)
    ensures
        r is Some <==> address_script(address@) is Some,
        r is Some ==> address_script(address@) == Some(r->Some_0@),
{
    address_script_bytes(address)
}

/// A copy of a byte vector.
pub fn copy_bytes(bytes: &Vec<u8>) -> (copy: Vec<u8>)
    ensures
        copy@ == bytes@,
{
    let mut copy: Vec<u8> = Vec::new();
    let mut i: usize = 0;
    while i < bytes.len()
        invariant
            i <= bytes@.len(),
            copy@ == bytes@.take(i as int),
        decreases bytes@.len() - i,
    {
        copy.push(bytes[i]);
        assert(bytes@.take(i + 1) =~= bytes@.take(i as int).push(bytes@[i as int]));
        i += 1;
    }
    assert(bytes@.take(i as int) =~= bytes@);
    copy
}

fn copy_items(items: &Vec<Vec<u8>>) -> (copy: Vec<Vec<u8>>)
    ensures
        byte_views(copy@) == byte_views(items@),
{
    let mut copy: Vec<Vec<u8>> = Vec::new();
    let mut i: usize = 0;
    while i < items.len()
        invariant
            i <= items@.len(),
            copy@.len() == i,
            forall|k: int| 0 <= k < i ==> (#[trigger] copy@[k])@ == items@[k]@,
        decreases items@.len() - i,
    {
        copy.push(copy_bytes(&items[i]));
        i += 1;
    }
    assert(byte_views(copy@) =~= byte_views(items@));
    copy
}

fn copy_input(input: &TxInput) -> (copy: TxInput)
    ensures
        copy@ == input@,
{
    TxInput {
        prev_txid: input.prev_txid,
        prev_vout: input.prev_vout,
        script_sig: copy_bytes(&input.script_sig),
        sequence: input.sequence,
        witness: copy_items(&input.witness),
    }
}

/// A copy of a transaction.
pub fn copy_transaction(tx: &Transaction) -> (copy: Transaction)
    ensures
        copy@ == tx@,
{
    let mut input: Vec<TxInput> = Vec::new();
    let mut i: usize = 0;
    while i < tx.input.len()
        invariant
            i <= tx.input@.len(),
            input@.len() == i,
            forall|k: int| 0 <= k < i ==> (#[trigger] input@[k])@ == tx.input@[k]@,
        decreases tx.input@.len() - i,
    {
        input.push(copy_input(&tx.input[i]));
        i += 1;
    }
    let mut output: Vec<TxOutput> = Vec::new();
    let mut j: usize = 0;
    while j < tx.output.len()
        invariant
            j <= tx.output@.len(),
            output@.len() == j,
            forall|k: int| 0 <= k < j ==> (#[trigger] output@[k])@ == tx.output@[k]@,
        decreases tx.output@.len() - j,
    {
        let o = &tx.output[j];
        output.push(TxOutput { value: o.value, script_pubkey: copy_bytes(&o.script_pubkey) });
        j += 1;
    }
    let copy = Transaction { version: tx.version, lock_time: tx.lock_time, input, output };
    assert(copy@.input =~= tx@.input);
    assert(copy@.output =~= tx@.output);
    copy
}

} // verus!
