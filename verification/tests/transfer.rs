use hop::common::{FileManifest, FileManifestEntry, TransferCancelReason};
use hop::protocol::Message;
use hop::transfer::{
    account_read, candidate_name, check_read_complete, check_transfer_size, is_storage_full,
    manifest_from_entries, staging_dir, ChunkPlan, ReceivedFile, TransferError, TransferReceiver,
    TransferSender, DEFAULT_CHUNK_BYTES,
};

fn entry(rel: &str, size: u64, is_dir: bool) -> FileManifestEntry {
    FileManifestEntry { rel_path: rel.into(), size, is_dir }
}

fn manifest(entries: Vec<FileManifestEntry>) -> FileManifest {
    manifest_from_entries(entries)
}

fn accept(rx: &mut TransferReceiver, entry_index: u32, offset: u64, len: u64) -> ChunkPlan {
    let plan = rx.on_chunk(entry_index, offset, len).expect("chunk accepted");
    assert!(rx.chunk_written(entry_index, len));
    plan
}

fn receiver() -> TransferReceiver {
    let m = manifest(vec![entry("dir", 0, true), entry("dir/a.txt", 5, false), entry("b.bin", 3, false)]);
    TransferReceiver::start(7, m, "/tmp/in").expect("valid manifest")
}

#[test]
fn start_builds_staging_paths() {
    let rx = receiver();
    assert_eq!(rx.staging(), "/tmp/in/transfer-7");
    assert_eq!(rx.transfer_id(), 7);
    assert_eq!(rx.entry_count(), 3);
    assert!(rx.entry_is_dir(0));
    assert_eq!(rx.entry_path(1), "/tmp/in/transfer-7/dir/a.txt");
    assert_eq!(rx.entry_path(2), "/tmp/in/transfer-7/b.bin");
}

#[test]
fn start_rejects_first_escaping_path() {
    let m = manifest(vec![entry("ok", 1, false), entry("../x", 1, false), entry("/etc", 1, false)]);
    match TransferReceiver::start(1, m, "/tmp/in") {
        Err(TransferError::PathTraversal { rel_path }) => assert_eq!(rel_path, "../x"),
        other => panic!("expected PathTraversal, got {other:?}"),
    }
}

#[test]
fn chunks_in_order_complete_the_transfer() {
    let mut rx = receiver();
    let p = accept(&mut rx, 1, 0, 2);
    assert_eq!(p, ChunkPlan { close_previous: None, open_new: true, path: "/tmp/in/transfer-7/dir/a.txt".into() });
    let p = accept(&mut rx, 1, 2, 3);
    assert_eq!(p.open_new, false);
    assert!(matches!(rx.check_complete(), Err(TransferError::Incomplete { entry_index: 2, missing: 3 })));
    let p = accept(&mut rx, 2, 0, 3);
    assert_eq!(p.close_previous, Some(1));
    assert!(p.open_new);
    rx.check_complete().expect("every byte arrived");
    assert_eq!(
        rx.final_files("/home/u/drop"),
        vec![
            ReceivedFile { path: "/home/u/drop/dir/a.txt".into(), size: 5 },
            ReceivedFile { path: "/home/u/drop/b.bin".into(), size: 3 },
        ]
    );
}

#[test]
fn chunk_is_refused_for_directory_or_missing_entries() {
    let mut rx = receiver();
    assert!(matches!(rx.on_chunk(0, 0, 1), Err(TransferError::UnexpectedChunk { entry_index: 0, total: 3 })));
    assert!(matches!(rx.on_chunk(9, 0, 1), Err(TransferError::UnexpectedChunk { entry_index: 9, total: 3 })));
}

#[test]
fn offset_and_size_are_checked() {
    let mut rx = receiver();
    assert!(matches!(
        rx.on_chunk(1, 1, 1),
        Err(TransferError::OffsetMismatch { entry_index: 1, expected: 0, got: 1 })
    ));
    assert!(matches!(rx.on_chunk(1, 0, 7), Err(TransferError::SizeOverflow { entry_index: 1, overflow: 2 })));
    accept(&mut rx, 1, 0, 5);
}

#[test]
fn earlier_or_premature_entries_are_out_of_order() {
    let mut rx = receiver();
    accept(&mut rx, 1, 0, 2);
    assert!(matches!(
        rx.on_chunk(2, 0, 1),
        Err(TransferError::OutOfOrderChunk { entry_index: 2, last_seen: 1 })
    ));
    accept(&mut rx, 1, 2, 3);
    accept(&mut rx, 2, 0, 1);
    assert!(matches!(
        rx.on_chunk(1, 5, 0),
        Err(TransferError::OutOfOrderChunk { entry_index: 1, last_seen: 2 })
    ));
}

#[test]
fn cancel_reports_open_file() {
    let mut rx = receiver();
    accept(&mut rx, 1, 0, 1);
    assert_eq!(rx.cancel(TransferCancelReason::UserCancelled), Some(1));
    let rx = receiver();
    assert_eq!(rx.cancel(TransferCancelReason::UserCancelled), None);
}

#[test]
fn failed_write_leaves_the_counts_and_a_retry_is_accepted() {
    let mut rx = receiver();
    accept(&mut rx, 1, 0, 2);
    // the bytes of the next chunk never reach the disk: nothing is counted
    let p = rx.on_chunk(1, 2, 3).unwrap();
    assert!(!p.open_new);
    assert_eq!(rx.open_entry(), None);
    assert!(matches!(rx.check_complete(), Err(TransferError::Incomplete { entry_index: 1, missing: 3 })));
    // the same chunk again is accepted and reopens the file
    let p = rx.on_chunk(1, 2, 3).unwrap();
    assert!(p.open_new);
    assert!(rx.chunk_written(1, 3));
    assert_eq!(rx.open_entry(), Some(1));
    assert!(!rx.chunk_written(1, 1), "entry 1 is full");
    assert!(!rx.chunk_written(0, 0), "directories take no bytes");
}

#[test]
fn empty_files_are_listed_for_creation() {
    let m = manifest(vec![entry("d", 0, true), entry("d/e", 0, false), entry("f", 2, false), entry("g", 0, false)]);
    let rx = TransferReceiver::start(3, m, "/in").unwrap();
    assert_eq!(rx.empty_file_paths(), vec!["/in/transfer-3/d/e".to_string(), "/in/transfer-3/g".to_string()]);
    assert!(receiver().empty_file_paths().is_empty());
}

#[test]
fn sender_chunk_message_carries_offset_and_bytes() {
    let s = TransferSender::new(9, 4);
    assert_eq!(
        s.chunk_message(2, 8, vec![1, 2, 3]),
        Message::FileChunk { transfer_id: 9, entry_index: 2, offset: 8, data: vec![1, 2, 3] }
    );
}

#[test]
fn manifest_total_is_the_sum_of_sizes() {
    let m = manifest(vec![entry("a", 10, false), entry("d", 0, true), entry("b", 32, false)]);
    assert_eq!(m.total_bytes, 42);
    assert!(check_transfer_size(&m, 42).is_ok());
    assert!(matches!(check_transfer_size(&m, 41), Err(TransferError::TooLarge { size: 42, max: 41 })));
}

#[test]
fn sender_accounts_reads_against_announced_size() {
    assert_eq!(account_read("/src/a", 0, 4, 10).unwrap(), 4);
    match account_read("/src/a", 8, 4, 10) {
        Err(TransferError::SourceChanged { path, expected, got }) => {
            assert_eq!(path, "/src/a");
            assert_eq!((expected, got), (10, 12));
        },
        other => panic!("expected SourceChanged, got {other:?}"),
    }
    assert!(check_read_complete("/src/a", 10, 10).is_ok());
    assert!(matches!(
        check_read_complete("/src/a", 9, 10),
        Err(TransferError::SourceChanged { expected: 10, got: 9, .. })
    ));
}

#[test]
fn sender_defaults_to_64k_chunks() {
    let s = TransferSender::with_default_chunking(3);
    assert_eq!(s.transfer_id, 3);
    assert_eq!(s.chunk_size, 65536);
    assert_eq!(DEFAULT_CHUNK_BYTES, 65536);
    let s = TransferSender::new(4, 10);
    assert_eq!(s.chunk_size, 10);
}

#[test]
fn cancel_reasons_follow_the_error() {
    let traversal = TransferError::PathTraversal { rel_path: "../x".into() };
    assert_eq!(traversal.cancel_reason(), TransferCancelReason::PathTraversal);
    let full = TransferError::Io { path: "/x".into(), os_error: Some(28), message: "no space".into() };
    assert_eq!(full.cancel_reason(), TransferCancelReason::DiskFull);
    let other = TransferError::Io { path: "/x".into(), os_error: Some(13), message: "denied".into() };
    assert_eq!(other.cancel_reason(), TransferCancelReason::PeerError);
    assert_eq!(TransferError::TooLarge { size: 2, max: 1 }.cancel_reason(), TransferCancelReason::TooLarge);
    assert_eq!(
        TransferError::SourceChanged { path: "/a".into(), expected: 1, got: 2 }.cancel_reason(),
        TransferCancelReason::SizeMismatch
    );
    assert!(is_storage_full(Some(28)));
    assert!(!is_storage_full(None));
}

#[test]
fn staging_and_candidate_names() {
    assert_eq!(staging_dir("/tmp/in/", 12), "/tmp/in/transfer-12");
    assert_eq!(candidate_name("photos", 0), "photos");
    assert_eq!(candidate_name("photos", 3), "photos_3");
}

#[test]
fn sent_directory_is_received_in_full() {
    // a.txt (7 bytes), sub/ (dir), sub/c.md (0 bytes), z.bin (5 bytes), read 3 bytes at a time
    let files: Vec<(&str, u64, bool)> = vec![("a.txt", 7, false), ("sub", 0, true), ("sub/c.md", 0, false), ("z.bin", 5, false)];
    let m = manifest(files.iter().map(|(p, s, d)| entry(p, *s, *d)).collect());
    let mut rx = TransferReceiver::start(42, m, "/in").unwrap();
    let sender = TransferSender::new(42, 3);
    for (index, (path, size, is_dir)) in files.iter().enumerate() {
        if *is_dir {
            continue;
        }
        let mut read = 0u64;
        while read < *size {
            let n = (*size - read).min(sender.chunk_size as u64);
            let msg = sender.chunk_message(index as u32, read, vec![0u8; n as usize]);
            let (entry_index, offset, len) = match msg {
                Message::FileChunk { entry_index, offset, data, .. } => (entry_index, offset, data.len() as u64),
                other => panic!("expected a chunk, got {other:?}"),
            };
            rx.on_chunk(entry_index, offset, len).expect("chunk accepted");
            assert!(rx.chunk_written(entry_index, len));
            read = account_read(path, read, n, *size).unwrap();
        }
        check_read_complete(path, read, *size).unwrap();
    }
    rx.check_complete().expect("every file complete");
    assert_eq!(rx.empty_file_paths(), vec!["/in/transfer-42/sub/c.md".to_string()]);
}
