use blob_store::engine_store::{
    file_name, is_json_name, parse_u64, replay_order, timestamp_of, EngineMessageStore,
    EngineStoreStream, MessageKind,
};
use std::path::PathBuf;

fn names(list: &[&str]) -> Vec<Vec<u8>> {
    list.iter().map(|name| name.as_bytes().to_vec()).collect()
}

#[test]
fn store_keeps_its_directory() {
    let store = EngineMessageStore::new(PathBuf::from("/tmp/engine"));
    assert_eq!(store.path(), &PathBuf::from("/tmp/engine"));
}

#[test]
fn stream_wrapper_keeps_stream_and_directory() {
    let wrapped = EngineStoreStream::new(vec![1u8, 2, 3], PathBuf::from("messages"));
    assert_eq!(wrapped.store().path(), &PathBuf::from("messages"));
    let (stream, store) = wrapped.into_parts();
    assert_eq!(stream, vec![1u8, 2, 3]);
    assert_eq!(store.path(), &PathBuf::from("messages"));
}

#[test]
fn parse_u64_reads_decimal_text() {
    assert_eq!(parse_u64(b"0"), Some(0));
    assert_eq!(parse_u64(b"007"), Some(7));
    assert_eq!(parse_u64(b"1700000000000"), Some(1_700_000_000_000));
    assert_eq!(parse_u64(b"+42"), Some(42));
    assert_eq!(parse_u64(b"18446744073709551615"), Some(u64::MAX));
}

#[test]
fn parse_u64_rejects_what_is_no_number() {
    assert_eq!(parse_u64(b""), None);
    assert_eq!(parse_u64(b"+"), None);
    assert_eq!(parse_u64(b"-1"), None);
    assert_eq!(parse_u64(b"12a"), None);
    assert_eq!(parse_u64(b" 12"), None);
    assert_eq!(parse_u64(b"1+2"), None);
    assert_eq!(parse_u64(b"18446744073709551616"), None);
    assert_eq!(parse_u64(b"99999999999999999999999"), None);
}

#[test]
fn parse_u64_agrees_with_the_standard_parser() {
    let texts = ["", "+", "++1", "+0", "0", "00", "9", "10", "18446744073709551615",
        "18446744073709551616", "184467440737095516150", "1_0", "1 ", "x", "-0", "+18446744073709551615"];
    for text in texts {
        assert_eq!(parse_u64(text.as_bytes()), text.parse::<u64>().ok(), "{}", text);
    }
}

#[test]
fn json_names_end_in_dot_json() {
    assert!(is_json_name(b"1-fcu-0x00.json"));
    assert!(is_json_name(b".json"));
    assert!(!is_json_name(b"json"));
    assert!(!is_json_name(b"1-fcu-0x00.jsonl"));
    assert!(!is_json_name(b"1-fcu-0x00.JSON"));
    assert!(!is_json_name(b""));
}

#[test]
fn timestamp_is_the_number_before_the_first_dash() {
    assert_eq!(timestamp_of(b"1700000000123-fcu-0xab.json"), Some(1_700_000_000_123));
    assert_eq!(timestamp_of(b"5-new_payload-0xab.json"), Some(5));
    assert_eq!(timestamp_of(b"5-.json"), Some(5));
    assert_eq!(timestamp_of(b"5.json"), None);
    assert_eq!(timestamp_of(b"-5-fcu.json"), None);
    assert_eq!(timestamp_of(b"fcu-5.json"), None);
    assert_eq!(timestamp_of(b"5-fcu-0xab.txt"), None);
    assert_eq!(timestamp_of(b"18446744073709551616-fcu-0xab.json"), None);
}

#[test]
fn replay_order_is_by_timestamp_then_by_listing() {
    let listing = names(&[
        "30-fcu-0x01.json",
        "notes.txt",
        "10-new_payload-0x02.json",
        "30-new_payload-0x03.json",
        "x-fcu-0x04.json",
        "20-fcu-0x05.json",
        "10-fcu-0x06.json",
    ]);
    assert_eq!(replay_order(&listing), vec![2, 6, 5, 0, 3]);
}

#[test]
fn replay_order_of_nothing_queued() {
    assert_eq!(replay_order(&names(&[])), Vec::<usize>::new());
    assert_eq!(replay_order(&names(&["a.json", "1-fcu.yaml"])), Vec::<usize>::new());
}

#[test]
fn file_name_of_a_forkchoice_update() {
    let name = file_name(MessageKind::ForkchoiceUpdated, 1_700_000_000_123, &[0x1f; 32]);
    let text = String::from_utf8(name).expect("ascii");
    assert_eq!(text, format!("1700000000123-fcu-0x{}.json", "1f".repeat(32)));
}

#[test]
fn file_name_of_a_new_payload() {
    let mut hash = [0u8; 32];
    hash[0] = 0xab;
    hash[31] = 0x09;
    let name = file_name(MessageKind::NewPayload, 0, &hash);
    let text = String::from_utf8(name).expect("ascii");
    assert_eq!(text, format!("0-new_payload-0xab{}09.json", "00".repeat(30)));
}

#[test]
fn file_name_matches_the_display_of_the_hash() {
    let mut hash = [0u8; 32];
    for (i, byte) in hash.iter_mut().enumerate() {
        *byte = (i as u8).wrapping_mul(37).wrapping_add(0xc5);
    }
    let name = file_name(MessageKind::ForkchoiceUpdated, u128::MAX, &hash);
    let text = String::from_utf8(name).expect("ascii");
    let expected = format!("{}-fcu-{}.json", u128::MAX, alloy_primitives::B256::from(hash));
    assert_eq!(text, expected);
}

#[test]
fn stored_files_are_queued_under_their_time() {
    let name = file_name(MessageKind::NewPayload, 1_700_000_000_123, &[7; 32]);
    assert_eq!(timestamp_of(&name), Some(1_700_000_000_123));
    let late = file_name(MessageKind::NewPayload, u64::MAX as u128 + 1, &[7; 32]);
    assert_eq!(timestamp_of(&late), None);
}
