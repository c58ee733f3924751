use ledger_storage::key::{key_to_slot, slot_to_key};

#[test]
fn test_slot_to_key() {
    assert_eq!(slot_to_key(0), "0000000000000000");
    assert_eq!(slot_to_key(!0), "ffffffffffffffff");
}

#[test]
fn slot_to_key_is_lowercase_zero_padded() {
    assert_eq!(slot_to_key(1), "0000000000000001");
    assert_eq!(slot_to_key(10), "000000000000000a");
    assert_eq!(slot_to_key(0xdead_beef), "00000000deadbeef");
}

#[test]
fn key_round_trips() {
    for slot in [0u64, 1, 5, 10, 255, 256, 0x1234_5678_9abc_def0, u64::MAX - 1, u64::MAX] {
        assert_eq!(key_to_slot(&slot_to_key(slot)), Some(slot));
    }
}

#[test]
fn key_order_follows_slot_order() {
    let slots = [0u64, 1, 9, 10, 15, 16, 255, 4096, u64::MAX];
    for a in slots {
        for b in slots {
            if a < b {
                assert!(slot_to_key(a) < slot_to_key(b));
            }
        }
    }
}

#[test]
fn complemented_keys_order_in_reverse() {
    let slots = [0u64, 1, 5, 10, 1000, u64::MAX];
    for a in slots {
        for b in slots {
            if a < b {
                assert!(slot_to_key(!b) < slot_to_key(!a));
            }
        }
    }
}

#[test]
fn non_hex_key_is_absent() {
    assert_eq!(key_to_slot("not-a-slot"), None);
    assert_eq!(key_to_slot("000000000000000g"), None);
    assert_eq!(key_to_slot(""), None);
    assert_eq!(key_to_slot("+"), None);
    assert_eq!(key_to_slot("-1"), None);
}

#[test]
fn key_parse_takes_hex_digits_of_either_case_only() {
    assert_eq!(key_to_slot("FF"), Some(255));
    assert_eq!(key_to_slot("+a"), None);
    assert_eq!(key_to_slot("+000000000000000a"), None);
    assert_eq!(key_to_slot("10000000000000000"), None);
    assert_eq!(key_to_slot("0000000000000000ffffffffffffffff"), Some(u64::MAX));
}
