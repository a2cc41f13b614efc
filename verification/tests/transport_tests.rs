use atmega_uploader::transport::{
    eq_ignore_ascii_case, port_in_list, read_exactly_step, DataBuffer, ReadStep, READ_ATTEMPTS,
};

#[test]
fn buffer_is_fifo() {
    let mut buf = DataBuffer::new();
    assert_eq!(buf.len(), 0);
    buf.feed(&vec![1, 2, 3]);
    buf.feed(&vec![4, 5]);
    assert_eq!(buf.len(), 5);
    let taken = buf.take_exact(4).unwrap();
    assert_eq!(taken, vec![1, 2, 3, 4]);
    assert_eq!(buf.len(), 1);
    assert_eq!(buf.take_exact(1).unwrap(), vec![5]);
}

#[test]
fn partial_arrivals_equal_one_full_arrival() {
    // The same bytes split differently across arrivals satisfy a request
    // identically and leave the same surplus.
    let mut split = DataBuffer::new();
    split.feed(&vec![10, 20]);
    split.feed(&vec![30]);
    split.feed(&vec![40, 50, 60]);
    let mut whole = DataBuffer::new();
    whole.feed(&vec![10, 20, 30, 40, 50, 60]);
    assert_eq!(split.take_exact(4).unwrap(), whole.take_exact(4).unwrap());
    assert_eq!(split.take_exact(2).unwrap(), vec![50, 60]);
    assert_eq!(whole.take_exact(2).unwrap(), vec![50, 60]);
}

#[test]
fn short_buffer_fails_and_keeps_partial_bytes() {
    let mut buf = DataBuffer::new();
    buf.feed(&vec![9, 8]);
    assert!(buf.take_exact(3).is_none());
    // The partial bytes stay buffered for the next call.
    assert_eq!(buf.len(), 2);
    buf.feed(&vec![7]);
    assert_eq!(buf.take_exact(3).unwrap(), vec![9, 8, 7]);
}

#[test]
fn clear_empties_the_buffer() {
    let mut buf = DataBuffer::new();
    buf.feed(&vec![1, 2, 3]);
    buf.clear();
    assert_eq!(buf.len(), 0);
    assert!(buf.take_exact(1).is_none());
}

#[test]
fn take_zero_always_succeeds() {
    let mut buf = DataBuffer::new();
    assert_eq!(buf.take_exact(0).unwrap(), Vec::<u8>::new());
}

#[test]
fn read_step_finishes_when_enough_is_buffered() {
    assert_eq!(read_exactly_step(0, 4, 4), ReadStep::Finish);
    assert_eq!(read_exactly_step(READ_ATTEMPTS, 9, 4), ReadStep::Finish);
}

#[test]
fn read_step_retries_up_to_the_attempt_bound() {
    assert_eq!(read_exactly_step(0, 0, 4), ReadStep::Retry);
    assert_eq!(read_exactly_step(READ_ATTEMPTS - 1, 3, 4), ReadStep::Retry);
    assert_eq!(read_exactly_step(READ_ATTEMPTS, 3, 4), ReadStep::GiveUp);
}

#[test]
fn port_names_compare_case_insensitively() {
    assert!(eq_ignore_ascii_case(&b"COM3".to_vec(), &b"com3".to_vec()));
    assert!(eq_ignore_ascii_case(&b"/dev/ttyUSB0".to_vec(), &b"/DEV/TTYusb0".to_vec()));
    assert!(!eq_ignore_ascii_case(&b"COM3".to_vec(), &b"COM4".to_vec()));
    assert!(!eq_ignore_ascii_case(&b"COM3".to_vec(), &b"COM33".to_vec()));
}

#[test]
fn requested_port_found_among_available() {
    let ports = vec![b"COM1".to_vec(), b"COM3".to_vec()];
    assert!(port_in_list(&b"com3".to_vec(), &ports));
    assert!(!port_in_list(&b"com7".to_vec(), &ports));
    assert!(!port_in_list(&b"com3".to_vec(), &Vec::new()));
}
