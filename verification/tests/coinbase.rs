use lane_search::coinbase::{
    append_script_tag, build_coinbase_from_template_with_height, patch_insert_nonce_into_coinbase,
};
use lane_search::hexcode::decode_or_empty;

#[test]
fn hex_text_is_decoded_leniently() {
    assert_eq!(decode_or_empty("00ff10Ab"), vec![0x00, 0xff, 0x10, 0xab]);
    assert_eq!(decode_or_empty(""), Vec::<u8>::new());
    assert_eq!(decode_or_empty("abc"), Vec::<u8>::new());
    assert_eq!(decode_or_empty("zz"), Vec::<u8>::new());
    assert_eq!(decode_or_empty("0g"), Vec::<u8>::new());
    assert_eq!(decode_or_empty("é0"), Vec::<u8>::new());
    assert_eq!(decode_or_empty("+1"), Vec::<u8>::new());
}

#[test]
fn nonce_patch_appends_and_pads() {
    let patched = patch_insert_nonce_into_coinbase(Some("0a0b"), 0x1122_3344);
    let mut expected = vec![0x0a, 0x0b, 0x44];
    expected.resize(32, 0);
    assert_eq!(patched, hex::encode(&expected));

    let patched = patch_insert_nonce_into_coinbase(Some("0a0b"), 0x1122_3347);
    let mut expected = vec![0x0a, 0x0b, 0x47, 0x33, 0x22, 0x11];
    expected.resize(32, 0);
    assert_eq!(patched, hex::encode(&expected));

    let patched = patch_insert_nonce_into_coinbase(None, 5);
    let mut expected = vec![5u8, 0];
    expected.resize(32, 0);
    assert_eq!(patched, hex::encode(&expected));
    assert_eq!(patched.len(), 64);

    let patched = patch_insert_nonce_into_coinbase(Some("no script"), 2);
    let mut expected = vec![2u8, 0, 0];
    expected.resize(32, 0);
    assert_eq!(patched, hex::encode(&expected));
}

#[test]
fn nonce_patch_leaves_long_scripts_unpadded() {
    let script: Vec<u8> = (0..40u8).collect();
    let patched = patch_insert_nonce_into_coinbase(Some(&hex::encode(&script)), 0xa1b2_c3d6);
    let mut expected = script.clone();
    expected.extend_from_slice(&[0xd6, 0xc3, 0xb2]);
    assert_eq!(patched, hex::encode(&expected));

    let script: Vec<u8> = (0..31u8).collect();
    let patched = patch_insert_nonce_into_coinbase(Some(&hex::encode(&script)), 0x0000_0100);
    let mut expected = script.clone();
    expected.push(0);
    assert_eq!(patched, hex::encode(&expected));
    assert_eq!(patched.len(), 64);
}

#[test]
fn height_goes_in_front_of_the_script() {
    let tagged = build_coinbase_from_template_with_height(Some(840_000), Some("aabb"));
    assert_eq!(tagged, "0440d10c00aabb");
    let tagged = build_coinbase_from_template_with_height(None, None);
    assert_eq!(tagged, "0400000000");
    let tagged = build_coinbase_from_template_with_height(Some(0x1_0000_0001), Some("xx"));
    assert_eq!(tagged, "0401000000");
    let tagged = build_coinbase_from_template_with_height(Some(1), Some("FF"));
    assert_eq!(tagged, "0401000000ff");
}

#[test]
fn tag_goes_behind_the_script() {
    assert_eq!(append_script_tag(Some("0102"), b"ab"), "01026162");
    assert_eq!(append_script_tag(None, b"ab"), "6162");
    assert_eq!(append_script_tag(Some("0"), &[]), "");
}
