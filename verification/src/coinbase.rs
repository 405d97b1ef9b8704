//! The coinbase script and its extra nonce.

use vstd::prelude::*;
pub use crate::block::{
    assemble_block_hex, build_coinbase_from_template, insert_nonce_into_coinbase,
    try_assemble_block_hex, try_build_coinbase_from_template,
};
use crate::hexcode::{bytes_or_empty, decode_or_empty, hex_encode, hex_text};
use crate::template::{low32, text_or_empty, truncate_u64};
use crate::words::{le_bytes, u32_to_le_bytes};

verus! {

/// The length to which a patched script is padded.
pub const PADDED_SCRIPT_LEN: usize = 32;

/// A run of zero bytes.
pub open spec fn zeros(n: nat) -> Seq<u8> {
    Seq::new(n, |i: int| 0u8)
}

/// A script with an extra nonce behind it: of the nonce's four bytes, least
/// significant first, as many as the nonce's remainder by four plus one;
/// then zeros up to 32 bytes where the script is still shorter.
pub open spec fn patched_script(script: Seq<u8>, nonce: u32) -> Seq<u8> {
    let extended = script + le_bytes(nonce).take(1 + nonce as int % 4);
    if extended.len() < PADDED_SCRIPT_LEN {
        extended + zeros((PADDED_SCRIPT_LEN - extended.len()) as nat)
    } else {
        extended
    }
}

/// A script with the block height in front: the byte 4, then the height's
/// four bytes, least significant first.
pub open spec fn height_tagged(height: u32, script: Seq<u8>) -> Seq<u8> {
    seq![4u8] + le_bytes(height) + script
}

/// The height as the script carries it: cut down to 32 bits; 0 where it is
/// missing.
pub open spec fn script_height(height: Option<u64>) -> u32 {
    match height {
        Some(h) => low32(h),
        None => 0,
    }
}

fn script_bytes(coinbase_script: Option<&str>) -> (bytes: Vec<u8>)
    ensures
        bytes@ == bytes_or_empty(text_or_empty(coinbase_script)),
{
    match coinbase_script {
        Some(text) => decode_or_empty(text),
        None => Vec::new(),
    }
}

/// Puts an extra nonce behind a coinbase script and pads the script to 32
/// bytes. The script comes and goes as hexadecimal text; a script that is
/// missing or spells no bytes counts as empty.
pub fn patch_insert_nonce_into_coinbase(coinbase_script: Option<&str>, nonce: u32) -> (r: String)
    ensures
        r@ == hex_text(patched_script(bytes_or_empty(text_or_empty(coinbase_script)), nonce)),
{
    let mut script = script_bytes(coinbase_script);
    let ghost given = script@;
    let extra = u32_to_le_bytes(nonce);
    let len: usize = 1 + (nonce % 4) as usize;
    let mut i: usize = 0;
    while i < len
        invariant
            i <= len <= 4,
            extra@ == le_bytes(nonce),
            script@ == given + le_bytes(nonce).take(i as int),
        decreases len - i,
    {
        script.push(extra[i]);
        assert(le_bytes(nonce).take(i + 1) =~= le_bytes(nonce).take(i as int).push(extra@[i as int]));
        i += 1;
    }
    let ghost extended = script@;
    while script.len() < PADDED_SCRIPT_LEN
        invariant
            extended.len() <= script@.len(),
            script@.len() <= PADDED_SCRIPT_LEN || script@ == extended,
            script@ == extended + zeros((script@.len() - extended.len()) as nat),
        decreases PADDED_SCRIPT_LEN - script@.len(),
    {
        let ghost before = script@;
        script.push(0);
        assert(script@ =~= extended + zeros((before.len() + 1 - extended.len()) as nat));
    }
    proof {
        if extended.len() >= PADDED_SCRIPT_LEN {
            assert(script@ =~= extended);
        }
    }
    hex_encode(script.as_slice())
}

/// Puts the block height in front of a coinbase script. The script comes
/// and goes as hexadecimal text; a script that is missing or spells no
/// bytes counts as empty, and a missing height as 0.
pub fn build_coinbase_from_template_with_height(
    height: Option<u64>,
    coinbase_script: Option<&str>,
) -> (r: String)
    ensures
        r@ == hex_text(
            height_tagged(script_height(height), bytes_or_empty(text_or_empty(coinbase_script))),
        ),
{
    let h: u32 = match height {
        Some(h) => truncate_u64(h),
        None => 0,
    };
    let height_bytes = u32_to_le_bytes(h);
    let prev_script = script_bytes(coinbase_script);
    let mut final_script: Vec<u8> = Vec::new();
    final_script.push(4);
    final_script.push(height_bytes[0]);
    final_script.push(height_bytes[1]);
    final_script.push(height_bytes[2]);
    final_script.push(height_bytes[3]);
    let mut i: usize = 0;
    while i < prev_script.len()
        invariant
            i <= prev_script@.len(),
            final_script@ == (seq![4u8] + le_bytes(h)) + prev_script@.take(i as int),
        decreases prev_script@.len() - i,
    {
        final_script.push(prev_script[i]);
        assert(prev_script@.take(i + 1) =~= prev_script@.take(i as int).push(prev_script@[i as int]));
        i += 1;
    }
    assert(prev_script@.take(i as int) =~= prev_script@);
    hex_encode(final_script.as_slice())
}

/// Puts a tag behind a coinbase script. The script comes and goes as
/// hexadecimal text; a script that is missing or spells no bytes counts as
/// empty.
pub fn append_script_tag(coinbase_script: Option<&str>, tag: &[u8]) -> (r: String)
    ensures
        r@ == hex_text(bytes_or_empty(text_or_empty(coinbase_script)) + tag@),
{
    let mut script = script_bytes(coinbase_script);
    let ghost given = script@;
    let mut i: usize = 0;
    while i < tag.len()
        invariant
            i <= tag@.len(),
            script@ == given + tag@.take(i as int),
        decreases tag@.len() - i,
    {
        script.push(tag[i]);
        assert(tag@.take(i + 1) =~= tag@.take(i as int).push(tag@[i as int]));
        i += 1;
    }
    assert(tag@.take(i as int) =~= tag@);
    hex_encode(script.as_slice())
}

} // verus!
