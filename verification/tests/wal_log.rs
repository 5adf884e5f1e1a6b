use edgevec::persistence::entry::WalEntry;
use edgevec::persistence::wal::{
    WalAppender, WalError, WalIterator, CRC_SIZE, MAX_PAYLOAD_SIZE, WAL_HEADER_SIZE,
};

#[test]
fn test_wal_entry_layout() {
    assert_eq!(core::mem::size_of::<WalEntry>(), 16);
    assert_eq!(core::mem::align_of::<WalEntry>(), 8);
}

#[test]
fn test_wal_constants_verification() {
    assert_eq!(
        WAL_HEADER_SIZE, 16,
        "WAL_HEADER_SIZE must be 16 to match WalEntry layout"
    );
    assert_eq!(CRC_SIZE, 4, "CRC_SIZE must be 4");

    assert_eq!(
        core::mem::size_of::<WalEntry>(),
        WAL_HEADER_SIZE,
        "WalEntry struct size must match WAL_HEADER_SIZE"
    );
}

#[test]
fn test_wal_verify_with_mock() {
    // append 100 entries, then read them all back in order
    let mut appender = WalAppender::new(0);

    let count = 100u64;
    for i in 0..count {
        let payload = (i as u32).to_le_bytes();
        appender.append(0, &payload).expect("append failed");
    }

    let mut iterator = WalIterator::new(appender.log_bytes().clone());

    let mut read_count = 0u64;
    loop {
        match iterator.next_record() {
            None => break,
            Some(result) => {
                let (entry, payload) = result.expect("Entry should be valid");
                assert_eq!(entry.sequence, read_count);
                assert_eq!(entry.entry_type, 0);
                assert_eq!(payload, (read_count as u32).to_le_bytes());
                read_count += 1;
            }
        }
    }
    assert_eq!(read_count, count);
}

#[test]
fn test_wal_corruption_handling() {
    let mut appender = WalAppender::new(0);
    appender.append(0, b"valid_entry").expect("append failed");

    // flip the last CRC byte
    let mut buf = appender.log_bytes().clone();
    let len = buf.len();
    buf[len - 1] ^= 0xFF;

    let mut iterator = WalIterator::new(buf);
    let result = iterator.next_record();

    match result {
        Some(Err(WalError::ChecksumMismatch { .. })) => {}
        res => panic!("Expected ChecksumMismatch, got {:?}", res.is_some()),
    }
}

#[test]
fn test_wal_truncation_handling() {
    let mut appender = WalAppender::new(0);
    appender.append(0, b"valid").expect("append failed");

    // drop the last byte of the CRC
    let mut buf = appender.log_bytes().clone();
    buf.pop();

    let mut iterator = WalIterator::new(buf);
    let result = iterator.next_record();

    match result {
        Some(Err(WalError::Truncated { .. })) => {}
        res => panic!("Expected Truncated error, got {:?}", res.is_some()),
    }
}

#[test]
fn test_payload_size_boundary() {
    // feed only a record header to the reader: an in-cap length fails
    // with Truncated (the payload is missing); over the cap fails with
    // PayloadTooLarge before any payload is read
    let check_size = |size: u32| -> Result<(), WalError> {
        let entry = WalEntry::new(0, 0, size);
        let mut iter = WalIterator::new(entry.as_bytes());
        match iter.next_record() {
            Some(Ok(_)) => Ok(()),
            Some(Err(e)) => Err(e),
            None => Ok(()),
        }
    };

    let res = check_size((MAX_PAYLOAD_SIZE - 1) as u32);
    assert!(matches!(res, Err(WalError::Truncated { .. })));

    let res = check_size(MAX_PAYLOAD_SIZE as u32);
    assert!(matches!(res, Err(WalError::Truncated { .. })));

    let res = check_size((MAX_PAYLOAD_SIZE + 1) as u32);
    assert!(matches!(res, Err(WalError::PayloadTooLarge { .. })));
}

#[test]
fn test_append_rejects_over_cap_payload() {
    // payload of exactly the cap: accepted; one byte more: rejected
    let mut appender = WalAppender::new(0);
    let at_cap = vec![0u8; MAX_PAYLOAD_SIZE];
    assert_eq!(appender.append(1, &at_cap).unwrap(), 0);

    let over_cap = vec![0u8; MAX_PAYLOAD_SIZE + 1];
    assert!(matches!(
        appender.append(1, &over_cap),
        Err(WalError::PayloadTooLarge { .. })
    ));
}

#[test]
fn test_wal_torn_write_scenario() {
    // three records "a", "bb", "ccc"; cut just before the last CRC byte:
    // the first two read back, then the tail reports Truncated
    let mut appender = WalAppender::new(0);
    appender.append(0, b"a").unwrap();
    appender.append(0, b"bb").unwrap();
    appender.append(0, b"ccc").unwrap();

    let mut buf = appender.log_bytes().clone();
    buf.pop();

    let mut iterator = WalIterator::new(buf);

    let (e1, p1) = iterator.next_record().unwrap().unwrap();
    assert_eq!((e1.sequence, p1.as_slice()), (0, b"a".as_slice()));
    let (e2, p2) = iterator.next_record().unwrap().unwrap();
    assert_eq!((e2.sequence, p2.as_slice()), (1, b"bb".as_slice()));
    match iterator.next_record() {
        Some(Err(WalError::Truncated { .. })) => {}
        _ => panic!("Expected Truncated at the torn record"),
    }
}

#[test]
fn test_wal_boundary_cut_is_clean() {
    // cutting exactly at a record boundary is a clean stop, and the
    // recovered prefix equals the written prefix
    let mut appender = WalAppender::new(5);
    appender.append(2, b"xy").unwrap();
    let boundary = appender.log_bytes().len();
    appender.append(2, b"z").unwrap();

    let mut buf = appender.log_bytes().clone();
    buf.truncate(boundary);

    let mut iterator = WalIterator::new(buf);
    let (e1, p1) = iterator.next_record().unwrap().unwrap();
    assert_eq!(e1.sequence, 5);
    assert_eq!(p1, b"xy");
    assert!(iterator.next_record().is_none());
}
