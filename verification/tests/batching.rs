use b2_backup::batch::{list_file_payload, Batcher};

#[test]
fn every_flush_but_the_last_is_full() {
    let bound = 7;
    let mut b = Batcher::new(bound);
    let mut flushes: Vec<usize> = Vec::new();
    for i in 0..23u32 {
        let item = format!("/f/{}", i).into_bytes();
        if let Some(batch) = b.push(item) {
            flushes.push(batch.len());
        }
    }
    if let Some(last) = b.finish() {
        flushes.push(last.len());
    }
    assert_eq!(flushes, vec![7, 7, 7, 2]);
    for (i, len) in flushes.iter().enumerate() {
        if i + 1 < flushes.len() {
            assert_eq!(*len, bound);
        } else {
            assert!(1 <= *len && *len <= bound);
        }
    }
}

#[test]
fn walk_of_1500_files_at_bound_1000_flushes_twice() {
    let mut b = Batcher::new(1000);
    let mut invocations: Vec<usize> = Vec::new();
    for i in 0..1500u32 {
        let item = format!("/data/file{}", i).into_bytes();
        if let Some(batch) = b.push(item) {
            invocations.push(batch.len());
        }
    }
    if let Some(last) = b.finish() {
        invocations.push(last.len());
    }
    assert_eq!(invocations, vec![1000, 500]);
}

#[test]
fn exact_multiple_leaves_no_final_batch() {
    let mut b = Batcher::new(3);
    let mut flushes = 0;
    for _ in 0..6 {
        if b.push(b"/x".to_vec()).is_some() {
            flushes += 1;
        }
    }
    assert_eq!(flushes, 2);
    assert!(b.finish().is_none());
}

#[test]
fn batch_order_is_kept() {
    let mut b = Batcher::new(2);
    assert!(b.push(b"/one".to_vec()).is_none());
    let batch = b.push(b"/two".to_vec()).unwrap();
    assert_eq!(batch, vec![b"/one".to_vec(), b"/two".to_vec()]);
}

#[test]
fn payload_is_raw_paths_newline_terminated() {
    let items = vec![b"/a b".to_vec(), b"/c\"d".to_vec()];
    let payload = list_file_payload(&items);
    assert_eq!(payload, b"/a b\n/c\"d\n".to_vec());
    assert!(list_file_payload(&Vec::new()).is_empty());
}
