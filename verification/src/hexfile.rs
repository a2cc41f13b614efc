use vstd::prelude::*;
use vstd::arithmetic::div_mod::{lemma_add_mod_noop, lemma_small_mod, lemma_sub_mod_noop};

use crate::errors::{ErrorKind, UploaderError};

verus! {

/// Record type of a data record.
pub const RT_DATARECORD: u8 = 0x0;
/// Record type of the end-of-file marker.
pub const RT_EOF: u8 = 0x1;
/// Record type of a start-segment-address record.
pub const RT_STARTSEGMENTADDRESSRECORD: u8 = 0x3;

// ---------------------------------------------------------------------------
// Decoding one textual line: hex digit pairs after the leading marker.
// ---------------------------------------------------------------------------

/// Whether a byte is an ASCII hexadecimal digit.
pub open spec fn is_hex_digit(c: u8) -> bool {
    (48 <= c <= 57) || (97 <= c <= 102) || (65 <= c <= 70)
}

/// The value of an ASCII hexadecimal digit (0 for anything else).
pub open spec fn hex_digit_value(c: u8) -> u8 {
    if 48 <= c <= 57 {
        (c - 48) as u8
    } else if 97 <= c <= 102 {
        (c - 87) as u8
    } else if 65 <= c <= 70 {
        (c - 55) as u8
    } else {
        0
    }
}

/// How many two-character groups follow the leading marker of a line.
pub open spec fn num_pairs(line: Seq<u8>) -> nat {
    if line.len() >= 1 {
        ((line.len() - 1) / 2) as nat
    } else {
        0
    }
}

/// Whether the `i`-th two-character group of a line is a hex digit pair.
pub open spec fn pair_ok(line: Seq<u8>, i: int) -> bool {
    is_hex_digit(line[2 * i + 1]) && is_hex_digit(line[2 * i + 2])
}

/// The byte encoded by the `i`-th two-character group of a line.
pub open spec fn pair_value(line: Seq<u8>, i: int) -> u8 {
    (hex_digit_value(line[2 * i + 1]) as int * 16 + hex_digit_value(line[2 * i + 2]) as int) as u8
}

/// Every two-character group of a line decoded to one byte.
pub open spec fn decoded_bytes(line: Seq<u8>) -> Seq<u8> {
    Seq::new(num_pairs(line), |i: int| pair_value(line, i))
}

/// Whether every two-character group of a line is a hex digit pair.
pub open spec fn all_pairs_ok(line: Seq<u8>) -> bool {
    forall|i: int| 0 <= i < num_pairs(line) ==> pair_ok(line, i)
}

/// The byte-decode failures of one line, as (line number, byte index) pairs
/// in byte-index order, considering only the first `k` groups.
pub open spec fn bad_pairs_upto(line: Seq<u8>, linenum: usize, k: nat) -> Seq<(usize, usize)>
    decreases k,
{
    if k == 0 {
        Seq::empty()
    } else {
        let prev = bad_pairs_upto(line, linenum, (k - 1) as nat);
        if pair_ok(line, k - 1) {
            prev
        } else {
            prev.push((linenum, (k - 1) as usize))
        }
    }
}

/// The byte-decode failures of one line, as (line number, byte index) pairs.
pub open spec fn line_byte_errors(line: Seq<u8>, linenum: usize) -> Seq<(usize, usize)> {
    bad_pairs_upto(line, linenum, num_pairs(line))
}

/// A line's decoded length matches its own byte-count field: one byte count,
/// two address bytes, one type byte, `bytecount` data bytes, one checksum.
pub open spec fn line_struct_ok(line: Seq<u8>) -> bool {
    num_pairs(line) >= 5 && num_pairs(line) == pair_value(line, 0) + 5
}

/// The unsigned sum of a sequence of bytes.
pub open spec fn byte_sum(s: Seq<u8>) -> nat
    decreases s.len(),
{
    if s.len() == 0 {
        0
    } else {
        (byte_sum(s.drop_last()) + s.last()) as nat
    }
}

/// A line's decoded bytes pass checksum validation: their sum is divisible
/// by 256.
pub open spec fn spec_checksum_ok(s: Seq<u8>) -> bool {
    byte_sum(s) % 256 == 0
}

/// The 16-bit big-endian address stored in a line's second and third bytes.
pub open spec fn line_address(line: Seq<u8>) -> u16 {
    (pair_value(line, 1) as int * 256 + pair_value(line, 2) as int) as u16
}

// ---------------------------------------------------------------------------
// Executable decoding
// ---------------------------------------------------------------------------

/// The value of one ASCII character as a hex digit, and whether it is one.
fn hex_val(c: u8) -> (r: (u8, bool))
    ensures
        r.1 == is_hex_digit(c),
        r.0 == hex_digit_value(c),
{
    if 48 <= c && c <= 57 {
        (c - 48, true)
    } else if 97 <= c && c <= 102 {
        (c - 87, true)
    } else if 65 <= c && c <= 70 {
        (c - 55, true)
    } else {
        (0, false)
    }
}

/// Decode every two-character group of a line after the leading marker.
/// Returns the decoded bytes together with the positions that were not hex
/// digit pairs, tagged with the given line number; decoding never stops at
/// a bad group.
pub fn decode_line(line: &Vec<u8>, linenum: usize) -> (r: (Vec<u8>, Vec<(usize, usize)>))
    ensures
        r.0@ == decoded_bytes(line@),
        r.1@ == line_byte_errors(line@, linenum),
{
    let n: usize = if line.len() >= 1 {
        (line.len() - 1) / 2
    } else {
        0
    };
    let mut bytes: Vec<u8> = Vec::new();
    let mut errs: Vec<(usize, usize)> = Vec::new();
    let mut i: usize = 0;
    while i < n
        invariant
            n == num_pairs(line@),
            line@.len() <= usize::MAX,
            n == 0 || 2 * (n as int) + 1 <= line@.len(),
            i <= n,
            bytes@ == decoded_bytes(line@).take(i as int),
            errs@ == bad_pairs_upto(line@, linenum, i as nat),
        decreases n - i,
    {
        let (a, ok1) = hex_val(line[2 * i + 1]);
        let (b, ok2) = hex_val(line[2 * i + 2]);
        bytes.push(a * 16 + b);
        if !(ok1 && ok2) {
            errs.push((linenum, i));
        }
        i = i + 1;
        proof {
            assert(bytes@ =~= decoded_bytes(line@).take(i as int));
        }
    }
    proof {
        assert(bytes@ =~= decoded_bytes(line@));
    }
    (bytes, errs)
}

/// Checksum validation: whether the sum of the given bytes is divisible
/// by 256. For any line whose byte sum modulo 256 is zero this accepts;
/// for any other it rejects.
pub fn checksum_ok(bytes: &Vec<u8>) -> (r: bool)
    ensures
        r == spec_checksum_ok(bytes@),
{
    let mut acc: u32 = 0;
    let mut i: usize = 0;
    while i < bytes.len()
        invariant
            i <= bytes@.len(),
            acc == byte_sum(bytes@.take(i as int)) % 256,
            acc < 256,
        decreases bytes@.len() - i,
    {
        let b = bytes[i];
        proof {
            assert(bytes@.take(i + 1 as int).drop_last() =~= bytes@.take(i as int));
            assert(byte_sum(bytes@.take(i + 1 as int))
                == byte_sum(bytes@.take(i as int)) + b);
            lemma_add_mod_noop(byte_sum(bytes@.take(i as int)) as int, b as int, 256);
            lemma_small_mod(b as nat, 256);
        }
        acc = (acc + b as u32) % 256;
        i = i + 1;
    }
    proof {
        assert(bytes@.take(i as int) =~= bytes@);
    }
    acc == 0
}

// ---------------------------------------------------------------------------
// Checksum laws
// ---------------------------------------------------------------------------

/// Replacing one byte of a sequence moves its sum by exactly the difference
/// of the two bytes.
pub proof fn lemma_byte_sum_update(s: Seq<u8>, i: int, v: u8)
    requires
        0 <= i < s.len(),
    ensures
        byte_sum(s.update(i, v)) + s[i] == byte_sum(s) + v,
    decreases s.len(),
{
    if i == s.len() - 1 {
        assert(s.update(i, v).drop_last() =~= s.drop_last());
        assert(s.update(i, v).last() == v);
    } else {
        lemma_byte_sum_update(s.drop_last(), i, v);
        assert(s.update(i, v).drop_last() =~= s.drop_last().update(i, v));
        assert(s.update(i, v).last() == s.last());
    }
}

/// Mutating a single byte of a checksum-valid sequence always invalidates
/// it: no one-byte change can compensate modulo 256.
pub proof fn lemma_single_byte_mutation_rejected(s: Seq<u8>, i: int, v: u8)
    requires
        0 <= i < s.len(),
        v != s[i],
        spec_checksum_ok(s),
    ensures
        !spec_checksum_ok(s.update(i, v)),
{
    lemma_byte_sum_update(s, i, v);
    let s1 = byte_sum(s) as int;
    let s2 = byte_sum(s.update(i, v)) as int;
    assert(s2 == s1 + v - s[i]);
    if spec_checksum_ok(s.update(i, v)) {
        lemma_sub_mod_noop(s2, s1, 256);
        assert((s2 - s1) % 256 == 0);
        let d = v - s[i];
        assert(-256 < d < 256 && d != 0);
        if d > 0 {
            lemma_small_mod(d as nat, 256);
        } else {
            assert(d % 256 == ((d + 256) % 256)) by {
                vstd::arithmetic::div_mod::lemma_mod_add_multiples_vanish(d, 256);
            }
            lemma_small_mod((d + 256) as nat, 256);
        }
        assert(false);
    }
}

// ---------------------------------------------------------------------------
// Records and the image aggregate
// ---------------------------------------------------------------------------

/// One decoded line: its source text, 16-bit address, byte count, record
/// type, and every decoded byte including the trailing checksum byte.
#[derive(Debug)]
pub struct HexRecord {
    pub text: Vec<u8>,
    pub address: u16,
    pub bytecount: u8,
    pub rtype: u8,
    pub bytes: Vec<u8>,
}

/// The mathematical content of one decoded line.
#[verifier::ext_equal]
pub ghost struct RecordModel {
    pub text: Seq<u8>,
    pub address: u16,
    pub bytecount: u8,
    pub rtype: u8,
    pub bytes: Seq<u8>,
}

impl View for HexRecord {
    type V = RecordModel;

    open spec fn view(&self) -> RecordModel {
        RecordModel {
            text: self.text@,
            address: self.address,
            bytecount: self.bytecount,
            rtype: self.rtype,
            bytes: self.bytes@,
        }
    }
}

/// The record a well-formed line decodes to.
pub open spec fn record_of_line(line: Seq<u8>) -> RecordModel {
    RecordModel {
        text: line,
        address: line_address(line),
        bytecount: pair_value(line, 0),
        rtype: pair_value(line, 3),
        bytes: decoded_bytes(line),
    }
}

/// A record as stored in an image: decoded from its own well-formed,
/// checksum-valid source text.
pub open spec fn record_wf(r: RecordModel) -> bool {
    &&& all_pairs_ok(r.text)
    &&& line_struct_ok(r.text)
    &&& spec_checksum_ok(decoded_bytes(r.text))
    &&& r == record_of_line(r.text)
}

/// The 32-bit big-endian start segment address stored in payload bytes 4-7.
pub open spec fn line_ssa(line: Seq<u8>) -> u32 {
    (pair_value(line, 4) as int * 0x1000000 + pair_value(line, 5) as int * 0x10000
        + pair_value(line, 6) as int * 0x100 + pair_value(line, 7) as int) as u32
}

/// The state accumulated by one pass over a file's lines.
#[verifier::ext_equal]
pub ghost struct ScanModel {
    pub eof_reached: bool,
    pub lines_after_eof: nat,
    pub num_checksum_errors: nat,
    pub byte_errors: Seq<(usize, usize)>,
    pub ssa: Option<u32>,
    pub records: Seq<RecordModel>,
    pub addr_min: Option<u16>,
    pub addr_max: Option<u16>,
}

/// The scan state before any line has been seen.
pub open spec fn scan_init() -> ScanModel {
    ScanModel {
        eof_reached: false,
        lines_after_eof: 0,
        num_checksum_errors: 0,
        byte_errors: Seq::empty(),
        ssa: None,
        records: Seq::empty(),
        addr_min: None,
        addr_max: None,
    }
}

/// How one line changes the scan state. A line after the end marker is
/// counted; a line with byte-decode failures contributes those failures and
/// nothing else; a line whose length contradicts its byte-count field
/// contributes one failure at its end position; a line failing checksum
/// validation is counted and not stored; every other line is stored in file
/// order, data records extending the address extent and start-segment
/// records with at least four payload bytes setting the start address.
pub open spec fn scan_step(st: ScanModel, line: Seq<u8>, linenum: usize) -> ScanModel {
    let st0 = ScanModel {
        lines_after_eof: if st.eof_reached {
            st.lines_after_eof + 1
        } else {
            st.lines_after_eof
        },
        ..st
    };
    let errs = line_byte_errors(line, linenum);
    if errs.len() > 0 {
        ScanModel { byte_errors: st0.byte_errors + errs, ..st0 }
    } else if !line_struct_ok(line) {
        ScanModel {
            byte_errors: st0.byte_errors.push((linenum, num_pairs(line) as usize)),
            ..st0
        }
    } else {
        let rec = record_of_line(line);
        let st1 = if rec.rtype == RT_EOF {
            ScanModel { eof_reached: true, ..st0 }
        } else {
            st0
        };
        if !spec_checksum_ok(rec.bytes) {
            ScanModel { num_checksum_errors: st1.num_checksum_errors + 1, ..st1 }
        } else {
            let st2 = if rec.rtype == RT_DATARECORD {
                ScanModel {
                    addr_min: Some(
                        match st1.addr_min {
                            Some(m) => if rec.address < m {
                                rec.address
                            } else {
                                m
                            },
                            None => rec.address,
                        },
                    ),
                    addr_max: Some(
                        match st1.addr_max {
                            Some(m) => if rec.address > m {
                                rec.address
                            } else {
                                m
                            },
                            None => rec.address,
                        },
                    ),
                    ..st1
                }
            } else if rec.rtype == RT_STARTSEGMENTADDRESSRECORD && rec.bytecount >= 4 {
                ScanModel { ssa: Some(line_ssa(line)), ..st1 }
            } else {
                st1
            };
            ScanModel { records: st2.records.push(rec), ..st2 }
        }
    }
}

/// The scan state after the first `n` lines of a file.
pub open spec fn scan_prefix(lines: Seq<Seq<u8>>, n: nat) -> ScanModel
    decreases n,
{
    if n == 0 {
        scan_init()
    } else {
        scan_step(scan_prefix(lines, (n - 1) as nat), lines[n - 1], (n - 1) as usize)
    }
}

/// The scan state after every line of a file.
pub open spec fn scan(lines: Seq<Seq<u8>>) -> ScanModel {
    scan_prefix(lines, lines.len())
}

/// The aggregate of all successfully decoded records of one file, with its
/// error tallies, address extent and upload-safety decision.
#[derive(Debug)]
pub struct Hexfile {
    pub parse_complete: bool,
    pub ok_to_upload: bool,
    pub eof_reached: bool,
    pub lines_after_eof: usize,
    pub num_checksum_errors: usize,
    pub byte_errors: Vec<(usize, usize)>,
    pub ssa: Option<u32>,
    pub lines: Vec<HexRecord>,
    pub addr_min: Option<u16>,
    pub addr_max: Option<u16>,
}

impl View for Hexfile {
    type V = ScanModel;

    open spec fn view(&self) -> ScanModel {
        ScanModel {
            eof_reached: self.eof_reached,
            lines_after_eof: self.lines_after_eof as nat,
            num_checksum_errors: self.num_checksum_errors as nat,
            byte_errors: self.byte_errors@,
            ssa: self.ssa,
            records: self.lines@.map_values(|r: HexRecord| r@),
            addr_min: self.addr_min,
            addr_max: self.addr_max,
        }
    }
}

impl Hexfile {
    /// An empty image: nothing scanned yet, not safe to flash.
    pub fn new() -> (r: Self)
        ensures
            r@ == scan_init(),
            !r.parse_complete,
            !r.ok_to_upload,
    {
        let r = Hexfile {
            eof_reached: false,
            lines_after_eof: 0,
            num_checksum_errors: 0,
            byte_errors: vec![],
            parse_complete: false,
            ok_to_upload: false,
            lines: vec![],
            ssa: None,
            addr_max: None,
            addr_min: None,
        };
        proof {
            assert(r@ =~= scan_init());
        }
        r
    }

    /// Feed one line of the file into the aggregate, exactly as `scan_step`
    /// describes.
    pub fn process_line(&mut self, line: &Vec<u8>, linenum: usize)
        requires
            old(self).lines_after_eof < usize::MAX,
            old(self).num_checksum_errors < usize::MAX,
        ensures
            final(self)@ == scan_step(old(self)@, line@, linenum),
            final(self).parse_complete == old(self).parse_complete,
            final(self).ok_to_upload == old(self).ok_to_upload,
    {
        if self.eof_reached {
            self.lines_after_eof = self.lines_after_eof + 1;
        }
        let (bytes, mut errs) = decode_line(line, linenum);
        if errs.len() > 0 {
            self.byte_errors.append(&mut errs);
            proof {
                assert(self@ =~= scan_step(old(self)@, line@, linenum));
            }
        } else if !(bytes.len() >= 5 && bytes.len() == bytes[0] as usize + 5) {
            self.byte_errors.push((linenum, bytes.len()));
            proof {
                assert(!line_struct_ok(line@));
                assert(self@ =~= scan_step(old(self)@, line@, linenum));
            }
        } else {
            let bytecount = bytes[0];
            let rtype = bytes[3];
            let address = (bytes[1] as u16) * 256 + (bytes[2] as u16);
            proof {
                assert(line_struct_ok(line@));
                assert(record_of_line(line@).bytecount == bytecount);
                assert(record_of_line(line@).rtype == rtype);
                assert(record_of_line(line@).address == address);
            }
            if rtype == RT_EOF {
                self.eof_reached = true;
            }
            if !checksum_ok(&bytes) {
                self.num_checksum_errors = self.num_checksum_errors + 1;
                proof {
                    assert(self@ =~= scan_step(old(self)@, line@, linenum));
                }
            } else {
                if rtype == RT_DATARECORD {
                    self.addr_max = Some(
                        match self.addr_max {
                            Some(m) => if address > m {
                                address
                            } else {
                                m
                            },
                            None => address,
                        },
                    );
                    self.addr_min = Some(
                        match self.addr_min {
                            Some(m) => if address < m {
                                address
                            } else {
                                m
                            },
                            None => address,
                        },
                    );
                } else if rtype == RT_STARTSEGMENTADDRESSRECORD && bytecount >= 4 {
                    let ssa = (bytes[4] as u32) * 0x1000000 + (bytes[5] as u32) * 0x10000
                        + (bytes[6] as u32) * 0x100 + (bytes[7] as u32);
                    self.ssa = Some(ssa);
                    proof {
                        assert(ssa == line_ssa(line@));
                    }
                }
                let text = copy_bytes(line);
                self.lines.push(HexRecord { text, address, bytecount, rtype, bytes });
                proof {
                    assert(self.lines@.map_values(|r: HexRecord| r@)
                        =~= old(self).lines@.map_values(|r: HexRecord| r@).push(
                        record_of_line(line@)));
                    assert(self@ =~= scan_step(old(self)@, line@, linenum));
                }
            }
        }
    }
}

/// An image may be flashed only when an end marker was seen, nothing failed
/// to decode or checksum, and the highest data-record address stays below
/// the bootloader's reserved section.
pub open spec fn spec_safe_to_flash(m: ScanModel, bootloader_ssa: u16) -> bool {
    &&& m.eof_reached
    &&& m.byte_errors.len() == 0
    &&& m.num_checksum_errors == 0
    &&& match m.addr_max {
        Some(am) => am < bootloader_ssa,
        None => false,
    }
}

/// The counters a scan accumulates never exceed the number of lines seen.
pub proof fn lemma_scan_counters(lines: Seq<Seq<u8>>, n: nat)
    requires
        n <= lines.len(),
    ensures
        scan_prefix(lines, n).lines_after_eof <= n,
        scan_prefix(lines, n).num_checksum_errors <= n,
        scan_prefix(lines, n).records.len() <= n,
    decreases n,
{
    if n > 0 {
        lemma_scan_counters(lines, (n - 1) as nat);
    }
}

/// Scan a whole file's lines into an image and decide whether it may be
/// flashed. Fails on the first byte-decode failure (carrying its position
/// and the count of further ones) or, failing that, on any checksum error;
/// otherwise the image is returned, safe to flash exactly when an end
/// marker was seen and the data extent stays below the bootloader start.
pub fn parse_hexfile(file_lines: &Vec<Vec<u8>>, bootloader_ssa: u16) -> (r: Result<
    Hexfile,
    UploaderError,
>)
    ensures
        ({
            let m = scan(file_lines.deep_view());
            match r {
                Ok(h) => {
                    &&& m.byte_errors.len() == 0
                    &&& m.num_checksum_errors == 0
                    &&& h@ == m
                    &&& h.parse_complete
                    &&& h.ok_to_upload == spec_safe_to_flash(m, bootloader_ssa)
                    &&& forall|i: int|
                        0 <= i < m.records.len() ==> record_wf(#[trigger] m.records[i])
                },
                Err(e) => {
                    &&& e.source is None
                    &&& if m.byte_errors.len() > 0 {
                        e.kind == ErrorKind::HexfileByte(
                            m.byte_errors[0].0,
                            m.byte_errors[0].1,
                            (m.byte_errors.len() - 1) as usize,
                        )
                    } else {
                        &&& m.num_checksum_errors > 0
                        &&& e.kind == ErrorKind::HexfileChecksum
                    }
                },
            }
        }),
{
    let ghost ls = file_lines.deep_view();
    let mut h = Hexfile::new();
    let mut i: usize = 0;
    while i < file_lines.len()
        invariant
            i <= file_lines@.len(),
            ls == file_lines.deep_view(),
            ls.len() == file_lines@.len(),
            h@ == scan_prefix(ls, i as nat),
            !h.parse_complete,
            !h.ok_to_upload,
        decreases file_lines@.len() - i,
    {
        proof {
            lemma_scan_counters(ls, i as nat);
            assert(file_lines@[i as int].deep_view() =~= file_lines@[i as int]@);
            assert(ls[i as int] == file_lines@[i as int]@);
        }
        h.process_line(&file_lines[i], i);
        i = i + 1;
    }
    proof {
        assert(h@ == scan(ls));
        lemma_scan_records_wf(ls, ls.len());
    }
    if h.byte_errors.len() > 0 {
        let (first_line, first_byte) = h.byte_errors[0];
        let remaining = h.byte_errors.len() - 1;
        return Err(UploaderError::from(ErrorKind::HexfileByte(first_line, first_byte, remaining)));
    }
    if h.num_checksum_errors > 0 {
        return Err(UploaderError::from(ErrorKind::HexfileChecksum));
    }
    if h.eof_reached {
        if let Some(am) = h.addr_max {
            if am < bootloader_ssa {
                h.ok_to_upload = true;
            }
        }
    }
    h.parse_complete = true;
    Ok(h)
}

// ---------------------------------------------------------------------------
// Image laws
// ---------------------------------------------------------------------------

/// A line that decodes cleanly end to end: every group a hex digit pair,
/// length consistent with its byte-count field, checksum valid.
pub open spec fn line_valid(line: Seq<u8>) -> bool {
    all_pairs_ok(line) && line_struct_ok(line) && spec_checksum_ok(decoded_bytes(line))
}

/// The record type field of a line.
pub open spec fn line_rtype(line: Seq<u8>) -> u8 {
    pair_value(line, 3)
}

/// Whether a line is a data record.
pub open spec fn is_data_line(line: Seq<u8>) -> bool {
    line_rtype(line) == RT_DATARECORD
}

proof fn lemma_bad_pairs_all_ok(line: Seq<u8>, linenum: usize, k: nat)
    requires
        forall|i: int| 0 <= i < k ==> pair_ok(line, i),
    ensures
        bad_pairs_upto(line, linenum, k).len() == 0,
    decreases k,
{
    if k > 0 {
        lemma_bad_pairs_all_ok(line, linenum, (k - 1) as nat);
    }
}

proof fn lemma_scan_valid(lines: Seq<Seq<u8>>, n: nat)
    requires
        n <= lines.len(),
        forall|i: int| 0 <= i < n ==> #[trigger] line_valid(lines[i]),
    ensures
        scan_prefix(lines, n).byte_errors.len() == 0,
        scan_prefix(lines, n).num_checksum_errors == 0,
        scan_prefix(lines, n).records == Seq::new(n, |i: int| record_of_line(lines[i])),
        scan_prefix(lines, n).eof_reached == (exists|i: int|
            0 <= i < n && #[trigger] line_rtype(lines[i]) == RT_EOF),
        (scan_prefix(lines, n).addr_max is Some) == (exists|i: int|
            0 <= i < n && #[trigger] is_data_line(lines[i])),
        forall|i: int|
            0 <= i < n && #[trigger] is_data_line(lines[i])
                ==> (scan_prefix(lines, n).addr_max matches Some(am) && line_address(lines[i])
                <= am),
        (scan_prefix(lines, n).addr_max matches Some(am) ==> exists|i: int|
            0 <= i < n && #[trigger] is_data_line(lines[i]) && line_address(lines[i]) == am),
    decreases n,
{
    if n > 0 {
        let k = (n - 1) as nat;
        lemma_scan_valid(lines, k);
        let line = lines[n - 1];
        let m0 = scan_prefix(lines, k);
        let m = scan_prefix(lines, n);
        assert(line_valid(line));
        lemma_bad_pairs_all_ok(line, (n - 1) as usize, num_pairs(line));
        assert(m == scan_step(m0, line, (n - 1) as usize));
        assert(m.records =~= Seq::new(n, |i: int| record_of_line(lines[i])));
        if line_rtype(line) == RT_EOF {
            assert(exists|i: int| 0 <= i < n && #[trigger] line_rtype(lines[i]) == RT_EOF);
        }
        if is_data_line(line) {
            assert(exists|i: int| 0 <= i < n && #[trigger] is_data_line(lines[i]));
            assert(m.addr_max is Some);
            let am = m.addr_max->Some_0;
            assert(line_address(line) <= am);
            if m0.addr_max is Some && m0.addr_max->Some_0 >= line_address(line) {
                assert(am == m0.addr_max->Some_0);
            } else {
                assert(am == line_address(line));
            }
        }
    }
}

/// Every record an image stores decodes from its own well-formed,
/// checksum-valid source line.
pub proof fn lemma_scan_records_wf(lines: Seq<Seq<u8>>, n: nat)
    requires
        n <= lines.len(),
    ensures
        forall|i: int|
            0 <= i < scan_prefix(lines, n).records.len() ==> record_wf(
                #[trigger] scan_prefix(lines, n).records[i],
            ),
    decreases n,
{
    if n > 0 {
        let k = (n - 1) as nat;
        lemma_scan_records_wf(lines, k);
        let line = lines[n - 1];
        let m0 = scan_prefix(lines, k);
        let m = scan_prefix(lines, n);
        if m.records.len() > m0.records.len() {
            let rec = record_of_line(line);
            assert(m.records =~= m0.records.push(rec));
            assert(line_byte_errors(line, (n - 1) as usize).len() == 0);
            assert(forall|i: int|
                0 <= i < num_pairs(line) ==> pair_ok(line, i)) by {
                lemma_bad_pairs_nonempty(line, (n - 1) as usize, num_pairs(line));
            }
            assert(record_wf(rec));
        }
    }
}

proof fn lemma_bad_pairs_nonempty(line: Seq<u8>, linenum: usize, k: nat)
    requires
        bad_pairs_upto(line, linenum, k).len() == 0,
    ensures
        forall|i: int| 0 <= i < k ==> pair_ok(line, i),
    decreases k,
{
    if k > 0 {
        lemma_bad_pairs_nonempty(line, linenum, (k - 1) as nat);
    }
}

/// Decoding is order-preserving: when every line is well-formed and
/// checksum-valid, the image stores exactly one record per line, in file
/// order, whatever the record types.
pub proof fn lemma_order_preserving(lines: Seq<Seq<u8>>)
    requires
        forall|i: int| 0 <= i < lines.len() ==> #[trigger] line_valid(lines[i]),
    ensures
        scan(lines).records.len() == lines.len(),
        forall|i: int|
            0 <= i < lines.len() ==> #[trigger] scan(lines).records[i] == record_of_line(lines[i]),
{
    lemma_scan_valid(lines, lines.len());
}

/// A file of well-formed, checksum-valid records with an end marker whose
/// data records all lie below the bootloader start is safe to flash.
pub proof fn lemma_valid_image_safe(lines: Seq<Seq<u8>>, bootloader_ssa: u16)
    requires
        forall|i: int| 0 <= i < lines.len() ==> #[trigger] line_valid(lines[i]),
        exists|i: int| 0 <= i < lines.len() && #[trigger] line_rtype(lines[i]) == RT_EOF,
        exists|i: int| 0 <= i < lines.len() && #[trigger] is_data_line(lines[i]),
        forall|i: int|
            0 <= i < lines.len() && #[trigger] is_data_line(lines[i]) ==> line_address(lines[i])
                < bootloader_ssa,
    ensures
        spec_safe_to_flash(scan(lines), bootloader_ssa),
{
    lemma_scan_valid(lines, lines.len());
}

/// A data record whose address reaches into or past the bootloader section
/// makes the image unsafe to flash.
pub proof fn lemma_data_at_bootloader_unsafe(lines: Seq<Seq<u8>>, bootloader_ssa: u16, i: int)
    requires
        forall|j: int| 0 <= j < lines.len() ==> #[trigger] line_valid(lines[j]),
        0 <= i < lines.len(),
        is_data_line(lines[i]),
        line_address(lines[i]) >= bootloader_ssa,
    ensures
        !spec_safe_to_flash(scan(lines), bootloader_ssa),
{
    lemma_scan_valid(lines, lines.len());
}

/// An owned copy of a byte vector.
fn copy_bytes(v: &Vec<u8>) -> (r: Vec<u8>)
    ensures
        r@ == v@,
{
    let mut r: Vec<u8> = Vec::new();
    let mut i: usize = 0;
    while i < v.len()
        invariant
            i <= v@.len(),
            r@ == v@.take(i as int),
        decreases v@.len() - i,
    {
        r.push(v[i]);
        i = i + 1;
        proof {
            assert(r@ =~= v@.take(i as int));
        }
    }
    proof {
        assert(r@ =~= v@);
    }
    r
}

} // verus!
