use token_holders::address::normalize_address;
use token_holders::transfer::{decode_transfer, LogError};

fn topic(last: u8) -> Vec<u8> {
    let mut t = vec![0u8; 32];
    t[12] = 0xab;
    t[31] = last;
    t
}

#[test]
fn decode_reads_addresses_and_amount() {
    let topics = vec![vec![0xddu8; 32], topic(1), topic(2)];
    let t = decode_transfer(&topics, &vec![0x01, 0x00]).unwrap();
    assert_eq!(t.from, "AB00000000000000000000000000000000000001");
    assert_eq!(t.to, "AB00000000000000000000000000000000000002");
    assert_eq!(t.amount.to_text(), "256");
    assert!(!t.is_self_transfer());
}

#[test]
fn decode_reads_full_width_amount() {
    let topics = vec![vec![0u8; 32], topic(1), topic(1)];
    let t = decode_transfer(&topics, &vec![0xffu8; 32]).unwrap();
    assert_eq!(
        t.amount.to_text(),
        "115792089237316195423570985008687907853269984665640564039457584007913129639935"
    );
    assert!(t.is_self_transfer());
    let z = decode_transfer(&topics, &vec![]).unwrap();
    assert_eq!(z.amount.to_text(), "0");
}

#[test]
fn decode_errors() {
    assert_eq!(decode_transfer(&vec![vec![0u8; 32], topic(1)], &vec![1]).unwrap_err(), LogError::MissingTopics);
    assert_eq!(decode_transfer(&vec![vec![0u8; 32], topic(1), vec![1, 2]], &vec![1]).unwrap_err(), LogError::BadTopic);
    assert_eq!(decode_transfer(&vec![vec![0u8; 32], topic(1), topic(2)], &vec![1u8; 33]).unwrap_err(), LogError::AmountTooWide);
}

#[test]
fn address_normalization() {
    assert_eq!(
        normalize_address("50327c6c5a14DCaDE707ABad2E27eB517df87AB5").unwrap(),
        "50327c6c5a14dcade707abad2e27eb517df87ab5"
    );
    assert_eq!(
        normalize_address("0x50327C6C5A14DCADE707ABAD2E27EB517DF87AB5").unwrap(),
        "50327c6c5a14dcade707abad2e27eb517df87ab5"
    );
    assert!(normalize_address("50327c6c5a14DCaDE707ABad2E27eB517df87AB").is_none());
    assert!(normalize_address("50327c6c5a14DCaDE707ABad2E27eB517df87ABG").is_none());
    assert!(normalize_address("").is_none());
}
