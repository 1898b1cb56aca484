use kernel_core::mailbox::Mailbox;
use kernel_core::mailbox::MailboxRingBuffer;
use kernel_core::mailbox::MAILBOX_BUFFER_SIZE;
use kernel_core::mailbox::MAX_MAIL_LENGTH;

#[test]
fn ring_buffer_delivers_in_fifo_order() {
    let mut ring = MailboxRingBuffer::new();
    ring.write_mail(&vec![1u8, 2, 3]);
    ring.write_mail(&vec![4u8]);
    assert_eq!(ring.read_mail(), vec![1u8, 2, 3]);
    assert_eq!(ring.read_mail(), vec![4u8]);
}

#[test]
fn ring_buffer_wraps_around() {
    let mut ring = MailboxRingBuffer::new();
    for round in 0..3u8 {
        for i in 0..MAILBOX_BUFFER_SIZE as u8 {
            ring.write_mail(&vec![round, i]);
        }
        for i in 0..MAILBOX_BUFFER_SIZE as u8 {
            assert_eq!(ring.read_mail(), vec![round, i]);
        }
    }
}

#[test]
fn mailbox_round_trip_returns_same_bytes() {
    let mut mb = Mailbox::new();
    let msg = vec![9u8, 8, 7, 6, 5, 4, 3, 2, 1, 0];
    assert_eq!(mb.write_message(&msg), 10);
    let (n, out) = mb.read_message(20);
    assert_eq!(n, 10);
    assert_eq!(out, msg);
    let (n2, out2) = mb.read_message(20);
    assert_eq!(n2, -1);
    assert!(out2.is_empty());
}

#[test]
fn mailbox_truncates_to_transfer_cap() {
    let mut mb = Mailbox::new();
    let long: Vec<u8> = (0..300).map(|i| (i % 251) as u8).collect();
    assert_eq!(mb.write_message(&long), MAX_MAIL_LENGTH as isize);
    let (n, out) = mb.read_message(400);
    assert_eq!(n, MAX_MAIL_LENGTH as isize);
    assert_eq!(out, long[..MAX_MAIL_LENGTH].to_vec());
}

#[test]
fn mailbox_read_respects_buffer_length() {
    let mut mb = Mailbox::new();
    mb.write_message(&vec![1u8, 2, 3, 4, 5, 6, 7, 8, 9, 10]);
    let (n, out) = mb.read_message(4);
    assert_eq!(n, 4);
    assert_eq!(out, vec![1u8, 2, 3, 4]);
}

#[test]
fn mailbox_fills_at_sixteen_and_empties_again() {
    let mut mb = Mailbox::new();
    for i in 0..MAILBOX_BUFFER_SIZE as u8 {
        assert!(!mb.is_full());
        assert_eq!(mb.write_message(&vec![i]), 1);
    }
    assert!(mb.is_full());
    assert_eq!(mb.write_message(&vec![99u8]), -1);
    for i in 0..MAILBOX_BUFFER_SIZE as u8 {
        let (n, out) = mb.read_message(8);
        assert_eq!(n, 1);
        assert_eq!(out, vec![i]);
    }
    assert!(mb.is_empty());
    let (n, _) = mb.read_message(8);
    assert_eq!(n, -1);
}

#[test]
fn mailbox_write_empty_message() {
    let mut mb = Mailbox::new();
    assert_eq!(mb.write_message(&Vec::new()), 0);
    assert!(!mb.is_empty());
    let (n, out) = mb.read_message(8);
    assert_eq!(n, 0);
    assert!(out.is_empty());
    assert!(mb.is_empty());
}
