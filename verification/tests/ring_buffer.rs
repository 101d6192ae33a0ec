use agent_shell_core::ringbuf::{RingBuffer, MIN_BUFFER_SIZE};

#[test]
fn basic_write_read() {
    let mut rb = RingBuffer::new(4096);
    rb.write(b"hello");
    let (data, gap, lost) = rb.read(0);
    assert_eq!(data, b"hello");
    assert!(!gap);
    assert_eq!(lost, 0);
}

#[test]
fn incremental_read() {
    let mut rb = RingBuffer::new(4096);
    rb.write(b"hello");
    let (data, _, _) = rb.read(0);
    assert_eq!(data, b"hello");

    rb.write(b" world");
    let (data, _, _) = rb.read(5);
    assert_eq!(data, b" world");
}

#[test]
fn overflow_detects_gap() {
    let mut rb = RingBuffer::new(4096);
    let data = vec![b'x'; 8192];
    rb.write(&data);
    let (_, gap, lost) = rb.read(0);
    assert!(gap);
    assert_eq!(lost, 4096);
}

#[test]
fn recent_cursor_no_gap() {
    let mut rb = RingBuffer::new(4096);
    let data1 = vec![b'a'; 4096];
    rb.write(&data1);
    let data2 = vec![b'b'; 2048];
    rb.write(&data2);

    let (data, gap, _) = rb.read(4096);
    assert!(!gap);
    assert_eq!(data.len(), 2048);
    assert!(data.iter().all(|&b| b == b'b'));
}

#[test]
fn overflow_flag() {
    let mut rb = RingBuffer::new(4096);
    rb.write(&vec![b'x'; 5000]);
    let (overflowed, _) = rb.take_overflow();
    assert!(overflowed);

    let (overflowed, _) = rb.take_overflow();
    assert!(!overflowed);
}

#[test]
fn empty_read() {
    let rb = RingBuffer::new(4096);
    let (data, gap, lost) = rb.read(0);
    assert!(data.is_empty());
    assert!(!gap);
    assert_eq!(lost, 0);
}

#[test]
fn read_at_write_cursor() {
    let mut rb = RingBuffer::new(4096);
    rb.write(b"hello");
    let (data, _, _) = rb.read(5);
    assert!(data.is_empty());
}

#[test]
fn incremental_cursor_reads_only_new_data() {
    let mut rb = RingBuffer::new(4096);
    rb.write(b"first");
    let cursor_after_first = rb.write_cursor();
    rb.write(b"second");
    let cursor_after_second = rb.write_cursor();

    let (data, gap, _) = rb.read(cursor_after_first);
    assert_eq!(data, b"second");
    assert!(!gap);

    let (data, _, _) = rb.read(cursor_after_second);
    assert!(data.is_empty());
}

#[test]
fn fast_path_then_slow_path() {
    let cap = MIN_BUFFER_SIZE;
    let mut rb = RingBuffer::new(cap);

    let fill = vec![b'a'; cap];
    rb.write(&fill);
    assert_eq!(rb.write_cursor(), cap as u64);

    rb.write(b"IJKL");
    assert_eq!(rb.write_cursor(), (cap + 4) as u64);

    let (data, gap, lost) = rb.read(0);
    assert!(gap, "expected gap after overflow");
    assert_eq!(lost, 4, "expected 4 lost bytes");
    assert_eq!(data.len(), cap, "should get capacity bytes back");
    assert_eq!(&data[cap - 4..], b"IJKL");
}

#[test]
fn write_larger_than_capacity() {
    let cap = MIN_BUFFER_SIZE;
    let mut rb = RingBuffer::new(cap);
    let data: Vec<u8> = (0..cap * 2).map(|i| (i % 256) as u8).collect();
    rb.write(&data);
    let (out, gap, lost) = rb.read(0);
    assert!(gap, "expected gap");
    assert_eq!(lost, cap as u64, "expected cap bytes lost");
    assert_eq!(out.len(), cap, "should get cap bytes back");
    assert_eq!(out, &data[cap..]);
}

#[test]
fn capacity_is_clamped_to_minimum() {
    let rb = RingBuffer::new(10);
    assert_eq!(rb.capacity(), MIN_BUFFER_SIZE);
    let rb = RingBuffer::new(10_000);
    assert_eq!(rb.capacity(), 10_000);
}

#[test]
fn write_reports_bytes_lost() {
    let mut rb = RingBuffer::new(4096);
    assert_eq!(rb.write(&vec![b'a'; 4000]), 0);
    assert_eq!(rb.write(&vec![b'b'; 200]), 104);
    assert_eq!(rb.take_overflow(), (true, 104));
    assert_eq!(rb.take_overflow(), (false, 0));
}

#[test]
fn read_returns_exactly_the_last_write() {
    // A read from the cursor a write started at gives back that write.
    let mut rb = RingBuffer::new(4096);
    rb.write(b"abc");
    let before = rb.write_cursor();
    rb.write(b"defgh");
    let (data, gap, lost) = rb.read(before);
    assert_eq!(data, b"defgh");
    assert!(!gap);
    assert_eq!(lost, 0);
}

#[test]
fn reads_compose() {
    // Reading from c1 equals reading c1..c2 followed by reading from c2.
    let mut rb = RingBuffer::new(4096);
    rb.write(b"0123456789");
    let (all, _, _) = rb.read(2);
    let (tail, _, _) = rb.read(6);
    assert_eq!(all[..4], *b"2345");
    assert_eq!(&all[4..], &tail[..]);
}

#[test]
fn gap_accounts_for_every_byte() {
    // Lost bytes plus returned bytes cover everything from the cursor on.
    let mut rb = RingBuffer::new(4096);
    rb.write(&vec![b'z'; 5000]);
    let (data, gap, lost) = rb.read(100);
    assert!(gap);
    assert_eq!(lost as usize + data.len(), 5000 - 100);
}
