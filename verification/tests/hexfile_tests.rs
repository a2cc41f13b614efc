use atmega_uploader::errors::ErrorKind;
use atmega_uploader::hexfile::{parse_hexfile, checksum_ok, decode_line, Hexfile, RT_DATARECORD, RT_EOF, RT_STARTSEGMENTADDRESSRECORD};

fn line(s: &str) -> Vec<u8> {
    s.as_bytes().to_vec()
}

// Two 16-byte data records of zeros at 0x0000 and 0x0010, and the end marker.
const DATA_0000: &str = ":1000000000000000000000000000000000000000F0";
const DATA_0010: &str = ":1000100000000000000000000000000000000000E0";
const EOF_LINE: &str = ":00000001FF";

#[test]
fn checksum_accepts_zero_sum() {
    // 0x10 + 0xF0 = 0x100, divisible by 256.
    assert!(checksum_ok(&vec![0x10, 0xF0]));
    assert!(checksum_ok(&vec![]));
    assert!(checksum_ok(&vec![0x00, 0x00, 0x00, 0x01, 0xFF]));
}

#[test]
fn checksum_rejects_nonzero_sum() {
    assert!(!checksum_ok(&vec![0x10, 0xF1]));
    assert!(!checksum_ok(&vec![0x01]));
}

#[test]
fn checksum_rejects_single_byte_mutation() {
    let good = vec![0x04, 0x00, 0x00, 0x00, 0xAA, 0xBB, 0xCC, 0xDD, 0xEE];
    assert!(checksum_ok(&good));
    for i in 0..good.len() {
        let mut bad = good.clone();
        bad[i] = bad[i].wrapping_add(1);
        assert!(!checksum_ok(&bad), "mutation at byte {i} must be rejected");
    }
}

#[test]
fn decode_line_decodes_all_pairs() {
    let (bytes, errs) = decode_line(&line(":00000001FF"), 0);
    assert_eq!(bytes, vec![0x00, 0x00, 0x00, 0x01, 0xFF]);
    assert!(errs.is_empty());
}

#[test]
fn decode_line_mixed_case_and_lone_trailing_char() {
    // A lone trailing character forms no pair and is ignored.
    let (bytes, errs) = decode_line(&line(":aAbB9"), 3);
    assert_eq!(bytes, vec![0xAA, 0xBB]);
    assert!(errs.is_empty());
}

#[test]
fn decode_line_reports_every_bad_pair() {
    // Pair 1 ("ZZ") and pair 3 ("G0") are not hex digit pairs.
    let (_, errs) = decode_line(&line(":00ZZ00G0"), 7);
    assert_eq!(errs, vec![(7, 1), (7, 3)]);
}

#[test]
fn decode_line_empty_input() {
    let (bytes, errs) = decode_line(&line(""), 0);
    assert!(bytes.is_empty());
    assert!(errs.is_empty());
}

#[test]
fn parse_accepts_valid_image() {
    let lines = vec![line(DATA_0000), line(DATA_0010), line(EOF_LINE)];
    let h = parse_hexfile(&lines, 0x3800).unwrap();
    assert!(h.parse_complete);
    assert!(h.ok_to_upload);
    assert!(h.eof_reached);
    assert_eq!(h.num_checksum_errors, 0);
    assert!(h.byte_errors.is_empty());
    assert_eq!(h.addr_min, Some(0x0000));
    assert_eq!(h.addr_max, Some(0x0010));
    assert_eq!(h.lines.len(), 3);
    // Order-preserving: stored records match file line order, end marker included.
    assert_eq!(h.lines[0].text, line(DATA_0000));
    assert_eq!(h.lines[0].rtype, RT_DATARECORD);
    assert_eq!(h.lines[0].bytecount, 0x10);
    assert_eq!(h.lines[1].text, line(DATA_0010));
    assert_eq!(h.lines[1].address, 0x0010);
    assert_eq!(h.lines[2].rtype, RT_EOF);
}

#[test]
fn parse_refuses_image_reaching_bootloader() {
    // Highest data address 0x0010 is not below a bootloader start of 0x0010.
    let lines = vec![line(DATA_0000), line(DATA_0010), line(EOF_LINE)];
    let h = parse_hexfile(&lines, 0x0010).unwrap();
    assert!(h.parse_complete);
    assert!(!h.ok_to_upload);
}

#[test]
fn parse_without_end_marker_is_not_safe() {
    let lines = vec![line(DATA_0000)];
    let h = parse_hexfile(&lines, 0x3800).unwrap();
    assert!(!h.eof_reached);
    assert!(!h.ok_to_upload);
}

#[test]
fn parse_reports_first_byte_error_and_remaining_count() {
    let lines = vec![line(":00ZZ00G0"), line(":0QFF"), line(EOF_LINE)];
    let err = parse_hexfile(&lines, 0x3800).unwrap_err();
    // Bad pairs: line 0 at bytes 1 and 3, line 1 at byte 0 => first is (0, 1),
    // and two more follow.
    assert_eq!(err.kind, ErrorKind::HexfileByte(0, 1, 2));
}

#[test]
fn parse_reports_checksum_failure() {
    let mut bad = line(DATA_0010);
    let last = bad.len() - 1;
    bad[last] = b'1'; // 0xE0 -> 0xE1
    let lines = vec![line(DATA_0000), bad, line(EOF_LINE)];
    let err = parse_hexfile(&lines, 0x3800).unwrap_err();
    assert_eq!(err.kind, ErrorKind::HexfileChecksum);
    assert_eq!(err.source, None);
}

#[test]
fn length_contradicting_byte_count_is_a_byte_error() {
    // Byte count field claims 0x10 data bytes but only four pairs follow the
    // header: the error is reported at the line's end position.
    let short = ":1000000000000000";
    let lines = vec![line(short), line(EOF_LINE)];
    let err = parse_hexfile(&lines, 0x3800).unwrap_err();
    assert_eq!(err.kind, ErrorKind::HexfileByte(0, 8, 0));
}

#[test]
fn image_tallies_checksum_error_and_keeps_extent() {
    // One good data record, one with a flipped hex digit, one end marker.
    let mut flipped = line(DATA_0010);
    flipped[12] = b'1'; // one data nibble changed, checksum now stale
    let mut h = Hexfile::new();
    h.process_line(&line(DATA_0000), 0);
    h.process_line(&flipped, 1);
    h.process_line(&line(EOF_LINE), 2);
    assert_eq!(h.num_checksum_errors, 1);
    assert!(h.byte_errors.is_empty());
    assert_eq!(h.addr_min, Some(0x0000));
    assert_eq!(h.addr_max, Some(0x0000)); // the bad record contributes no extent
    assert!(h.eof_reached);
    assert!(!h.ok_to_upload);
    assert_eq!(h.lines.len(), 2); // the bad record is not stored
}

#[test]
fn lines_after_end_marker_are_counted() {
    let mut h = Hexfile::new();
    h.process_line(&line(EOF_LINE), 0);
    h.process_line(&line(DATA_0000), 1);
    h.process_line(&line(DATA_0010), 2);
    assert!(h.eof_reached);
    assert_eq!(h.lines_after_eof, 2);
    // Lines after the end marker are still decoded and stored.
    assert_eq!(h.lines.len(), 3);
}

#[test]
fn start_segment_address_is_extracted() {
    // Byte count 4, type 3, payload 00 00 12 34.
    let ssa_line = ":0400000300001234B3";
    let lines = vec![line(ssa_line), line(EOF_LINE)];
    let h = parse_hexfile(&lines, 0x3800).unwrap();
    assert_eq!(h.ssa, Some(0x1234));
    assert_eq!(h.lines.len(), 2);
    assert_eq!(h.lines[0].rtype, RT_STARTSEGMENTADDRESSRECORD);
    // No data record: no extent, not safe to flash.
    assert_eq!(h.addr_max, None);
    assert!(!h.ok_to_upload);
}

#[test]
fn unknown_record_type_is_stored_uninterpreted() {
    // Byte count 0, type 5, valid checksum.
    let lines = vec![line(":00000005FB"), line(EOF_LINE)];
    let h = parse_hexfile(&lines, 0x3800).unwrap();
    assert_eq!(h.lines.len(), 2);
    assert_eq!(h.lines[0].rtype, 0x05);
    assert_eq!(h.addr_max, None);
}

#[test]
fn record_fields_decode_header() {
    let lines = vec![line(":040010001122334442"), line(EOF_LINE)];
    let h = parse_hexfile(&lines, 0x3800).unwrap();
    let r = &h.lines[0];
    assert_eq!(r.bytecount, 4);
    assert_eq!(r.address, 0x0010);
    assert_eq!(r.rtype, 0);
    assert_eq!(r.bytes, vec![0x04, 0x00, 0x10, 0x00, 0x11, 0x22, 0x33, 0x44, 0x42]);
}
