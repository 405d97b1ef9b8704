//! The work template as the search reads it.
//!
//! The upstream node sends a template as a JSON document. The host turns
//! the fields that the search reads into this record; a field that is
//! missing, or is not of the kind that is read, is `None`.

use vstd::prelude::*;

verus! {

/// One entry of a template's transaction list.
#[derive(Debug)]
pub struct TemplateTx {
    /// The serialized transaction in hexadecimal text.
    pub data: Option<String>,
}

/// A work template.
#[derive(Debug)]
pub struct BlockTemplate {
    /// The block version.
    pub version: Option<i64>,
    /// The hash of the previous block, in the reversed hexadecimal text in
    /// which block hashes are shown.
    pub previous_block_hash: Option<String>,
    /// The current time, in seconds.
    pub cur_time: Option<u64>,
    /// The compact target, in hexadecimal text.
    pub bits: Option<String>,
    /// The payout of the coinbase transaction.
    pub coinbase_value: Option<u64>,
    /// The height of the block to be found.
    pub height: Option<u64>,
    /// A merkle root computed upstream, in hexadecimal text.
    pub merkle_root: Option<String>,
    /// The transactions to include; `None` where the template has no list.
    pub transactions: Option<Vec<TemplateTx>>,
}

/// The characters of a text that may be missing; none where it is.
pub open spec fn text_or_empty(text: Option<&str>) -> Seq<char> {
    match text {
        Some(t) => t@,
        None => Seq::empty(),
    }
}

/// A 64-bit number cut down to its low 32 bits.
pub open spec fn low32(x: u64) -> u32 {
    (x % 0x1_0000_0000) as u32
}

/// Cuts a 64-bit number down to its low 32 bits.
pub fn truncate_u64(x: u64) -> (r: u32)
    ensures
        r == low32(x),
{
    assert((x & 0xffff_ffff) == x % 0x1_0000_0000) by (bit_vector);
    (x & 0xffff_ffff) as u32
}

impl BlockTemplate {
    /// The version as the header builder reads it: the low 32 bits of a
    /// version that is not negative, and 4 in every other case.
    pub open spec fn header_version(&self) -> u32 {
        match self.version {
            Some(v) => if v >= 0 {
                low32(v as u64)
            } else {
                4
            },
            None => 4,
        }
    }

    /// The current time cut down to 32 bits; 0 where it is missing.
    pub open spec fn header_time(&self) -> u32 {
        match self.cur_time {
            Some(t) => low32(t),
            None => 0,
        }
    }

    /// The number of transactions listed.
    pub open spec fn tx_count(&self) -> nat {
        match self.transactions {
            Some(txs) => txs@.len(),
            None => 0,
        }
    }

    /// The hexadecimal text of the listed transaction `i`, if it has one.
    pub open spec fn tx_data(&self, i: int) -> Option<Seq<char>> {
        match self.transactions {
            Some(txs) => if 0 <= i < txs@.len() {
                match txs@[i].data {
                    Some(d) => Some(d@),
                    None => None,
                }
            } else {
                None
            },
            None => None,
        }
    }
}

} // verus!
