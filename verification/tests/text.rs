//! Numbers, paths and keys as text.

use coinswap_wallet::swapcoin::{create_multisig_redeemscript, write_txid};
use coinswap_wallet::table::Table;
use coinswap_wallet::text::{
    chars_of, concat_texts, decimal_text, get_hd_path_from_descriptor, hex_text, key_path_text,
    signed_decimal_text, text_contains, text_starts_with,
};
use coinswap_wallet::types::{bytes_equal, contains_outpoint, KeychainKind, OutPoint, Txid};

#[test]
fn numbers_are_written_in_decimal() {
    assert_eq!(decimal_text(0), "0");
    assert_eq!(decimal_text(1_234_567_890), "1234567890");
    assert_eq!(decimal_text(u64::MAX), u64::MAX.to_string());
    assert_eq!(signed_decimal_text(0), "0");
    assert_eq!(signed_decimal_text(-42), "-42");
    assert_eq!(signed_decimal_text(i32::MIN), i32::MIN.to_string());
    assert_eq!(signed_decimal_text(i32::MAX), i32::MAX.to_string());
}

#[test]
fn bytes_are_written_in_hexadecimal() {
    assert_eq!(hex_text(&vec![]), "");
    assert_eq!(hex_text(&vec![0x00, 0x0f, 0xa5, 0xff]), "000fa5ff");
}

#[test]
fn texts_are_searched_and_joined() {
    assert_eq!(concat_texts("ab", "c"), "abc");
    assert_eq!(concat_texts("", ""), "");
    assert_eq!(chars_of("aé"), vec!['a', 'é']);
    assert!(text_contains("RPC error -27: known", "-27"));
    assert!(!text_contains("RPC error -26", "-27"));
    assert!(text_contains("x", ""));
    assert!(!text_contains("", "x"));
    assert!(text_starts_with("tr([", "tr("));
    assert!(!text_starts_with("wpkh(", "tr("));
    assert!(!text_starts_with("t", "tr("));
}

#[test]
fn descriptor_origin_is_read() {
    let path = get_hd_path_from_descriptor("wpkh([d34db33f/0/17]02ab)#xyz").unwrap();
    assert_eq!(path.fingerprint, "d34db33f");
    assert_eq!((path.branch, path.index), (0, 17));
    let path = get_hd_path_from_descriptor("tr([a/1/-5]k)").unwrap();
    assert_eq!((path.branch, path.index), (1, -5));
    let path = get_hd_path_from_descriptor("tr([a/+1/+5]k)").unwrap();
    assert_eq!((path.branch, path.index), (1, 5));
}

#[test]
fn descriptors_without_a_three_part_origin_are_refused() {
    for text in [
        "",
        "wsh(multi(2,a,b))",
        "wpkh([d34db33f/0]02ab)",
        "wpkh([d34db33f/84'/1'/0'/0/17]02ab)",
        "wpkh([d34db33f/x/17]02ab)",
        "wpkh([d34db33f/0/y]02ab)",
        "wpkh([d34db33f/0/]02ab)",
        "wpkh([d34db33f/0/99999999999]02ab)",
        "wpkh([d34db33f/-1/0]02ab)",
        "]a/0/1[",
        "[a/0/1",
    ] {
        assert!(get_hd_path_from_descriptor(text).is_none(), "{}", text);
    }
}

#[test]
fn key_path_is_written_below_the_account() {
    assert_eq!(key_path_text(0, 17), "m/0/17");
    assert_eq!(key_path_text(u32::MAX, -1), "m/4294967295/-1");
}

#[test]
fn written_paths_are_read_back() {
    for (branch, index) in [(0u32, 0i32), (1, 99), (7, i32::MAX), (u32::MAX, i32::MIN)] {
        let text = format!("wpkh([ff{}]k)", &key_path_text(branch, index)[1..]);
        let path = get_hd_path_from_descriptor(&text).unwrap();
        assert_eq!((path.branch, path.index), (branch, index));
    }
}

#[test]
fn transaction_ids_are_written_backwards() {
    let mut bytes = [0u8; 32];
    bytes[0] = 0xef;
    bytes[1] = 0xbe;
    bytes[31] = 0x12;
    let text = write_txid(&Txid { bytes });
    assert_eq!(text.len(), 64);
    assert!(text.starts_with("12") && text.ends_with("beef"));
}

#[test]
fn transaction_ids_are_written_like_the_bitcoin_library_does() {
    let bytes: [u8; 32] = core::array::from_fn(|i| (7 * i) as u8);
    let raw: bitcoin::Txid = bitcoin::hashes::Hash::from_byte_array(bytes);
    assert_eq!(write_txid(&Txid { bytes }), raw.to_string());
}

#[test]
fn multisig_script_sorts_its_keys() {
    let (a, b) = ([2u8; 33], [3u8; 33]);
    let script = create_multisig_redeemscript(&a, &b);
    let mut expected = vec![0x52, 33];
    expected.extend(a);
    expected.push(33);
    expected.extend(b);
    expected.extend([0x52, 0xae]);
    assert_eq!(script.bytes, expected);
    assert_eq!(create_multisig_redeemscript(&b, &a).bytes, expected);
}

#[test]
fn multisig_keys_are_compared_from_the_front() {
    let (mut a, mut b) = ([2u8; 33], [2u8; 33]);
    a[1] = 9;
    b[2] = 255;
    assert_eq!(create_multisig_redeemscript(&a, &b).bytes[2..35], b);
    assert_eq!(create_multisig_redeemscript(&a, &a).bytes.len(), 71);
}

#[test]
fn branches_are_numbered() {
    assert_eq!(KeychainKind::External.index_num(), 0);
    assert_eq!(KeychainKind::Internal.index_num(), 1);
}

#[test]
fn outpoints_and_bytes_are_compared() {
    let op = |n: u8, vout: u32| OutPoint::new(Txid { bytes: [n; 32] }, vout);
    assert!(contains_outpoint(&vec![op(1, 0), op(2, 7)], &op(2, 7)));
    assert!(!contains_outpoint(&vec![op(1, 0), op(2, 7)], &op(2, 6)));
    assert!(!contains_outpoint(&vec![], &op(0, 0)));
    assert!(bytes_equal(&vec![1, 2], &vec![1, 2]));
    assert!(!bytes_equal(&vec![1, 2], &vec![1, 3]));
    assert!(!bytes_equal(&vec![1, 2], &vec![1]));
}

#[test]
fn table_put_and_take() {
    let mut table: Table<u32, String> = Table::new();
    assert_eq!(table.insert(1, "a".to_string()), None);
    assert_eq!(table.insert(2, "b".to_string()), None);
    assert_eq!(table.insert(1, "c".to_string()), Some("a".to_string()));
    assert_eq!(table.len(), 2);
    assert_eq!(table.get(&1), Some(&"c".to_string()));
    assert_eq!(table.position(&2), Some(1));
    assert!(table.contains_key(&2) && !table.contains_key(&3));
    assert_eq!(table.remove(&1), Some("c".to_string()));
    assert_eq!(table.remove(&1), None);
    assert_eq!(table.get(&1), None);
    assert_eq!(table.get(&2), Some(&"b".to_string()));
    assert!(table.has_distinct_keys());
}

#[test]
fn table_with_a_key_twice_is_told() {
    let table: Table<u32, String> =
        Table { rows: vec![(1, "a".to_string()), (2, "b".to_string()), (1, "c".to_string())] };
    assert!(!table.has_distinct_keys());
}
