use kernel_engineering::msgq::{Message, MsgQueue, MAX_MSG_SIZE, MAX_QUEUE_DEPTH};
use kernel_engineering::pipe::{Pipe, PIPE_BUF};

fn msg(priority: u32, tag: u8) -> Message {
    Message { priority, data: vec![tag] }
}

#[test]
fn pipe_reads_back_what_was_written() {
    let mut p = Pipe::new();
    assert!(p.is_empty());
    assert_eq!(p.write(b"hello"), 5);
    assert_eq!(p.write(b" world"), 6);
    assert_eq!(p.available(), 11);
    let mut buf = [0u8; 16];
    assert_eq!(p.read(&mut buf), 11);
    assert_eq!(&buf[..11], b"hello world");
    assert_eq!(&buf[11..], &[0u8; 5]);
    assert!(p.is_empty());
}

#[test]
fn pipe_partial_read_keeps_the_rest_in_order() {
    let mut p = Pipe::default();
    p.write(b"abcdef");
    let mut buf = [9u8; 4];
    assert_eq!(p.read(&mut buf), 4);
    assert_eq!(&buf, b"abcd");
    let mut buf2 = [9u8; 4];
    assert_eq!(p.read(&mut buf2), 2);
    assert_eq!(&buf2, &[b'e', b'f', 9, 9]);
    assert_eq!(p.read(&mut buf2), 0);
}

#[test]
fn pipe_write_stops_when_full() {
    let mut p = Pipe::new();
    let data = vec![7u8; PIPE_BUF - 10];
    assert_eq!(p.write(&data), PIPE_BUF - 10);
    assert_eq!(p.write(&[1u8; 20]), 10);
    assert_eq!(p.available(), PIPE_BUF);
    assert_eq!(p.write(b"x"), 0);
}

#[test]
fn pipe_wraps_around_the_ring() {
    let mut p = Pipe::new();
    let mut sink = vec![0u8; PIPE_BUF - 3];
    p.write(&vec![0u8; PIPE_BUF - 3]);
    assert_eq!(p.read(&mut sink), PIPE_BUF - 3);
    // the next bytes straddle the end of the ring
    assert_eq!(p.write(b"123456"), 6);
    let mut buf = [0u8; 6];
    assert_eq!(p.read(&mut buf), 6);
    assert_eq!(&buf, b"123456");
}

#[test]
fn queue_orders_by_priority_then_arrival() {
    let mut q = MsgQueue::new(8);
    q.send(msg(1, b'a')).unwrap();
    q.send(msg(5, b'b')).unwrap();
    q.send(msg(1, b'c')).unwrap();
    q.send(msg(5, b'd')).unwrap();
    q.send(msg(3, b'e')).unwrap();
    assert_eq!(q.len(), 5);
    let order: Vec<u8> = std::iter::from_fn(|| q.recv()).map(|m| m.data[0]).collect();
    assert_eq!(order, b"bdeac".to_vec());
    assert!(q.is_empty());
    assert!(q.recv().is_none());
}

#[test]
fn queue_refuses_when_full() {
    let mut q = MsgQueue::new(2);
    q.send(msg(0, 1)).unwrap();
    q.send(msg(0, 2)).unwrap();
    assert_eq!(q.send(msg(9, 3)), Err("queue full"));
    assert_eq!(q.len(), 2);
    assert_eq!(q.recv().unwrap().data, vec![1]);
}

#[test]
fn queue_refuses_large_message() {
    let mut q = MsgQueue::new(4);
    let big = Message { priority: 0, data: vec![0; MAX_MSG_SIZE + 1] };
    assert_eq!(q.send(big), Err("message too large"));
    let fits = Message { priority: 0, data: vec![0; MAX_MSG_SIZE] };
    assert_eq!(q.send(fits), Ok(()));
}

#[test]
fn queue_capacity_is_capped() {
    let mut q = MsgQueue::new(1000);
    for i in 0..MAX_QUEUE_DEPTH {
        q.send(msg(i as u32, 0)).unwrap();
    }
    assert_eq!(q.send(msg(0, 0)), Err("queue full"));
    assert_eq!(q.recv().unwrap().priority, (MAX_QUEUE_DEPTH - 1) as u32);
}

#[test]
fn zero_capacity_queue_is_always_full() {
    let mut q = MsgQueue::new(0);
    assert_eq!(q.send(msg(0, 0)), Err("queue full"));
}
