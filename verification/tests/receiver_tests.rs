use nymx_mail::receiver::{
    chunk_offset, expected_file_len, whole_seconds_between, AfterSave, ChunkSlot, FileTransfer,
    Receiver, Step, CHUNK_SIZE, MAX_RESEND_ATTEMPTS,
};

const SEC: u64 = 1_000_000_000;

fn transfer(tag: &str, total: usize, now: u64) -> FileTransfer<u32, ()> {
    FileTransfer::new("f.txt".to_string(), tag.to_string(), total, 10, (), now)
}

#[test]
fn file_geometry() {
    assert_eq!(CHUNK_SIZE, 65536);
    assert_eq!(expected_file_len(3), 196_608);
    assert_eq!(chunk_offset(0), 0);
    assert_eq!(chunk_offset(2), 131_072);
}

#[test]
fn seconds_between_saturates() {
    assert_eq!(whole_seconds_between(0, 2 * SEC + 999_999_999), 2);
    assert_eq!(whole_seconds_between(5 * SEC, SEC), 0);
}

#[test]
fn new_transfer_is_empty() {
    let t = transfer("t", 2, 7);
    assert!(t.received_chunks.is_empty());
    assert!(t.resend_attempts.is_empty());
    assert_eq!(t.last_activity, 7);
    assert_eq!(t.last_resend_check, 7);
    assert!(t.sender_tag.is_none());
    assert!(!t.is_complete());
}

#[test]
fn chunks_complete_transfer() {
    let mut t = transfer("t", 2, 0);
    assert!(t.accept_chunk(1, Some(9)));
    assert!(!t.accept_chunk(1, Some(10)));
    assert_eq!(t.sender_tag, Some(9));
    t.record_chunk(1, 5);
    assert_eq!(t.last_activity, 5);
    assert!(!t.is_complete());
    assert_eq!(t.get_missing_chunks(), vec![0]);
    assert!(t.accept_chunk(0, None));
    assert!(t.is_complete());
    assert!(t.get_missing_chunks().is_empty());
}

#[test]
fn out_of_range_chunk_counts_toward_completion() {
    let mut t = transfer("t", 1, 0);
    assert!(t.accept_chunk(5, None));
    assert!(t.is_complete());
}

#[test]
fn missing_chunks_ascending() {
    let mut t = transfer("t", 5, 0);
    t.accept_chunk(1, None);
    t.accept_chunk(3, None);
    assert_eq!(t.get_missing_chunks(), vec![0, 2, 4]);
}

#[test]
fn resend_timing() {
    let t = transfer("t", 2, 0);
    assert!(!t.should_check_resend(89 * SEC));
    assert!(t.should_check_resend(90 * SEC));
    let mut t2 = transfer("t", 2, 0);
    t2.record_chunk(0, 60 * SEC);
    assert!(!t2.should_check_resend(100 * SEC));
    assert!(t2.should_check_resend(105 * SEC));
}

#[test]
fn timeouts() {
    let t = transfer("t", 1, 0);
    assert!(!t.is_timed_out(600 * SEC + SEC - 1));
    assert!(t.is_timed_out(601 * SEC));
}

#[test]
fn resend_attempts_are_limited() {
    let mut t = transfer("t", 3, 0);
    t.accept_chunk(1, Some(4));
    assert!(t.can_request_resend(0));
    for round in 1..=MAX_RESEND_ATTEMPTS {
        let r = t.take_resend_requests(round as u64 * 100 * SEC);
        assert_eq!(r, vec![0, 2]);
        assert_eq!(t.last_resend_check, round as u64 * 100 * SEC);
    }
    assert!(!t.can_request_resend(0));
    assert_eq!(t.resend_attempts.get(&0), Some(&3));
    let r = t.take_resend_requests(1000 * SEC);
    assert!(r.is_empty());
    assert_eq!(t.last_resend_check, 300 * SEC);
}

#[test]
fn no_resend_without_reply_handle() {
    let mut t = transfer("t", 3, 0);
    let r = t.take_resend_requests(200 * SEC);
    assert!(r.is_empty());
    assert!(t.resend_attempts.is_empty());
    assert_eq!(t.last_resend_check, 0);
}

#[test]
fn mark_resend_counts() {
    let mut t = transfer("t", 3, 0);
    t.mark_resend_requested(2, 11);
    t.mark_resend_requested(2, 12);
    assert_eq!(t.resend_attempts.get(&2), Some(&2));
    assert_eq!(t.last_resend_check, 12);
}

#[test]
fn receiver_lifecycle() {
    let mut r: Receiver<u32, ()> = Receiver::new();
    assert!(matches!(r.begin_chunk("tagA", 0), ChunkSlot::New));
    let i = r.open_transfer(transfer("tagA", 1, 0));
    assert_eq!(i, 0);
    assert!(matches!(r.begin_chunk("tagA", SEC), ChunkSlot::Existing(0)));
    assert!(r.accept_chunk(0, 0, Some(1)));
    r.record_chunk(0, 0, SEC);
    match r.after_chunk_saved(0, SEC) {
        AfterSave::Complete(t) => assert_eq!(t.app_tag, "tagA"),
        _ => panic!("transfer should be complete"),
    }
    assert_eq!(r.len(), 0);
    assert!(r.is_completed("tagA"));
    assert!(matches!(r.begin_chunk("tagA", 2 * SEC), ChunkSlot::Completed));
    assert_eq!(r.find("tagA"), None);
}

#[test]
fn receiver_drops_quiet_transfers() {
    let mut r: Receiver<u32, ()> = Receiver::new();
    r.open_transfer(transfer("old", 2, 0));
    r.open_transfer(transfer("new", 2, 500 * SEC));
    assert!(matches!(r.begin_chunk("x", 601 * SEC), ChunkSlot::New));
    assert_eq!(r.len(), 1);
    assert_eq!(r.transfer(0).app_tag, "new");
    assert_eq!(r.find("new"), Some(0));
}

#[test]
fn receiver_asks_for_missing_chunks() {
    let mut r: Receiver<u32, ()> = Receiver::new();
    r.open_transfer(transfer("t", 3, 0));
    r.accept_chunk(0, 1, Some(8));
    r.record_chunk(0, 1, 0);
    assert!(matches!(r.after_chunk_saved(0, 10 * SEC), AfterSave::Waiting));
    match r.after_chunk_saved(0, 95 * SEC) {
        AfterSave::Resend(v) => assert_eq!(v, vec![0, 2]),
        _ => panic!("resend round expected"),
    }
    assert_eq!(r.transfer(0).last_resend_check, 95 * SEC);
}

#[test]
fn chunks_reassemble_in_any_order() {
    let data: Vec<u8> = (0..150_000u32).map(|k| (k % 251) as u8).collect();
    let total = 3;
    let mut file = vec![0u8; expected_file_len(total) as usize];
    let mut t = transfer("multi", total, 0);
    for idx in [2usize, 0, 2, 1] {
        let start = idx * CHUNK_SIZE;
        let end = ((idx + 1) * CHUNK_SIZE).min(data.len());
        if t.accept_chunk(idx, None) {
            let offset = chunk_offset(idx) as usize;
            file[offset..offset + (end - start)].copy_from_slice(&data[start..end]);
            t.record_chunk(idx, 0);
        }
    }
    assert!(t.is_complete());
    file.truncate(data.len());
    assert_eq!(file, data);
}

#[test]
fn each_chunk_requested_at_most_three_times() {
    let mut r: Receiver<u32, ()> = Receiver::new();
    r.open_transfer(transfer("t", 4, 0));
    r.accept_chunk(0, 2, Some(7));
    r.record_chunk(0, 2, 0);
    let mut counts = [0usize; 4];
    for step in 1..20u64 {
        if let AfterSave::Resend(v) = r.after_chunk_saved(0, step * 100 * SEC) {
            for i in v {
                counts[i] += 1;
            }
        }
    }
    assert_eq!(counts, [3, 3, 0, 3]);
}

#[test]
fn server_steps_per_message() {
    let mut r: Receiver<u32, ()> = Receiver::new();
    assert!(matches!(r.on_chunk_message(0xFFFF_FFFF, "tag", Some(5), 0), Step::ReplyReady));
    assert_eq!(r.len(), 0);
    assert!(matches!(r.on_chunk_message(1, "tag", None, 0), Step::OpenFile));
    let i = r.file_opened(transfer("tag", 2, 0), 1, None);
    assert_eq!(i, 0);
    assert!(r.transfer(0).received_chunks.contains(&1));
    assert!(matches!(r.chunk_written(i, 1, SEC), AfterSave::Waiting));
    assert_eq!(r.transfer(0).last_activity, SEC);
    assert!(matches!(r.on_chunk_message(1, "tag", Some(9), 2 * SEC), Step::Skip));
    assert_eq!(r.transfer(0).sender_tag, Some(9));
    match r.on_chunk_message(0, "tag", Some(4), 200 * SEC) {
        Step::Write(0) => {}
        _ => panic!("a new chunk of a known transfer is written"),
    }
    assert_eq!(r.transfer(0).sender_tag, Some(9));
    match r.chunk_written(0, 0, 200 * SEC) {
        AfterSave::Complete(t) => assert_eq!(t.app_tag, "tag"),
        _ => panic!("both chunks came"),
    }
    assert!(matches!(r.on_chunk_message(0, "tag", None, 201 * SEC), Step::Skip));
    assert!(r.is_completed("tag"));
}

#[test]
fn chunks_land_in_place_whatever_they_carry() {
    let pieces: Vec<Vec<u8>> = vec![vec![1u8; CHUNK_SIZE], vec![2u8; 10], vec![3u8; 5]];
    let total = pieces.len();
    let mut file = vec![0u8; expected_file_len(total) as usize];
    for idx in [2usize, 0, 1] {
        let offset = chunk_offset(idx) as usize;
        file[offset..offset + pieces[idx].len()].copy_from_slice(&pieces[idx]);
    }
    let size = 2 * CHUNK_SIZE + 3;
    file.truncate(size);
    assert_eq!(file.len(), size);
    assert!(file[..CHUNK_SIZE].iter().all(|&b| b == 1));
    assert!(file[CHUNK_SIZE..CHUNK_SIZE + 10].iter().all(|&b| b == 2));
    assert!(file[CHUNK_SIZE + 10..2 * CHUNK_SIZE].iter().all(|&b| b == 0));
    assert_eq!(&file[2 * CHUNK_SIZE..], &[3u8, 3, 3]);
}
