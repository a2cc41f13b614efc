use vstd::prelude::*;

use crate::errors::{ErrorKind, UploaderError};
use crate::hexfile::{HexRecord, RT_DATARECORD};

verus! {

/// Command code requesting bootloader information.
pub const BL_COM_CMD_INFO: char = 'i';
/// Command code requesting the fuse and lock bytes.
pub const BL_COM_CMD_READFUSES: char = 'f';
/// Command code starting a firmware upload.
pub const BL_COM_CMD_UPLOAD: char = 'u';
/// Command code requesting a memory read-back for verification.
pub const BL_COM_CMD_VERIFY: char = 'v';
/// Command code asking the bootloader to quit.
pub const BL_COM_CMD_QUIT: char = 'q';

/// The bits of a reply byte that carry its status class.
pub const BL_COM_REPLY_STATUSMASK: u8 = 0x70;
/// Status class: the command was accepted.
pub const BL_COM_REPLY_OK: u8 = 0x70;
/// Status class: the device did not recognise the command.
pub const BL_COM_REPLY_UNKNOWNCMD: u8 = 0x60;
/// Status class: the bootloader is quitting.
pub const BL_COM_REPLY_QUITTING: u8 = 0x50;
/// Status class: the command is not implemented.
pub const BL_COM_REPLY_NOTIMPLEMENTEDYET: u8 = 0x40;
/// Status class: an upload error.
pub const BL_COM_REPLY_UPLOADERROR: u8 = 0x30;

/// The status class carried by a reply byte.
pub open spec fn reply_status(reply: u8) -> u8 {
    reply & BL_COM_REPLY_STATUSMASK
}

/// Whether a reply byte's status class equals the given status.
pub fn is_status(reply: u8, status: u8) -> (r: bool)
    ensures
        r == (reply_status(reply) == status),
{
    (reply & BL_COM_REPLY_STATUSMASK) == status
}

/// Gate one protocol stage on the reply its command drew: accepts exactly
/// the replies of the expected status class, and any other is a fatal
/// protocol error naming the offending command and the raw status byte.
pub fn check_status(status: u8, code: char, expected: u8) -> (r: Result<(), UploaderError>)
    ensures
        r is Ok <==> reply_status(status) == expected,
        r matches Err(e) ==> (e.kind == ErrorKind::BootloaderCMDResponse(status, code)
            && e.source is None),
{
    if is_status(status, expected) {
        Ok(())
    } else {
        Err(UploaderError::from(ErrorKind::BootloaderCMDResponse(status, code)))
    }
}

/// The device's reported boot-section start address and version string,
/// obtained once at session start.
pub struct BootloaderInfo {
    pub ssa: u16,
    pub version: String,
}

impl BootloaderInfo {
    /// Bootloader information before the device has reported anything.
    pub fn new() -> (r: Self)
        ensures
            r.ssa == 0,
            r.version@ == Seq::<char>::empty(),
    {
        let r = BootloaderInfo { ssa: 0, version: String::new() };
        proof {
            assert(r.version@ =~= Seq::<char>::empty());
        }
        r
    }
}

/// Decode the little-endian 16-bit boot-section start address from the
/// length-prefixed reply of the info command; any other length than two
/// bytes cannot form it and is rejected.
pub fn decode_boot_start(bytes: &Vec<u8>) -> (r: Result<u16, UploaderError>)
    ensures
        bytes@.len() == 2 ==> (r matches Ok(v) && v == bytes@[0] + 256 * bytes@[1]),
        bytes@.len() != 2 ==> (r matches Err(e) && e.kind == ErrorKind::U32Parse
            && e.source is None),
{
    if bytes.len() == 2 {
        Ok(bytes[0] as u16 + 256 * (bytes[1] as u16))
    } else {
        Err(UploaderError::from(ErrorKind::U32Parse))
    }
}

// ---------------------------------------------------------------------------
// Upload: per-line header/body exchange, aborting on the first bad reply
// ---------------------------------------------------------------------------

/// The first nine characters of a record's source line: the marker, byte
/// count, address and type fields, sent ahead of the rest.
pub fn upload_header_bytes(rec: &HexRecord) -> (r: Vec<u8>)
    requires
        rec.text@.len() >= 9,
    ensures
        r@ == rec.text@.take(9),
{
    let mut r: Vec<u8> = Vec::new();
    let mut i: usize = 0;
    while i < 9
        invariant
            i <= 9,
            rec.text@.len() >= 9,
            r@ == rec.text@.take(i as int),
        decreases 9 - i,
    {
        r.push(rec.text[i]);
        i = i + 1;
        proof {
            assert(r@ =~= rec.text@.take(i as int));
        }
    }
    r
}

/// The remainder of a record's source line after its nine header
/// characters: payload and checksum, sent once the header was acknowledged.
pub fn upload_body_bytes(rec: &HexRecord) -> (r: Vec<u8>)
    requires
        rec.text@.len() >= 9,
    ensures
        r@ == rec.text@.skip(9),
{
    let mut r: Vec<u8> = Vec::new();
    let mut i: usize = 9;
    while i < rec.text.len()
        invariant
            9 <= i <= rec.text@.len(),
            r@ == rec.text@.subrange(9, i as int),
        decreases rec.text@.len() - i,
    {
        r.push(rec.text[i]);
        i = i + 1;
        proof {
            assert(r@ =~= rec.text@.subrange(9, i as int));
        }
    }
    proof {
        assert(r@ =~= rec.text@.skip(9));
    }
    r
}

/// What the upload stage does next.
#[derive(Debug, PartialEq, Eq, Clone, Copy)]
pub enum UploadAction {
    /// Send the header characters of this line, then await one reply byte.
    SendHeader(usize),
    /// Send the body characters of this line, then await one reply byte.
    SendBody(usize),
    /// Every line was acknowledged.
    Succeeded,
    /// A reply was not OK: uploading stopped there.
    Failed,
}

/// The upload stage over an image's stored lines: walks them in file order,
/// sending each line's header and, only once that is acknowledged, its
/// body; the first non-OK reply at either step stops the upload for good.
pub struct UploadRun {
    pub num_lines: usize,
    pub next_line: usize,
    pub awaiting_body: bool,
    pub num_errors: usize,
}

impl UploadRun {
    /// The states the upload walk can be in.
    pub open spec fn wf(&self) -> bool {
        &&& self.next_line <= self.num_lines
        &&& (self.awaiting_body ==> self.next_line < self.num_lines)
        &&& self.num_errors <= 1
        &&& (self.num_errors == 1 ==> !self.awaiting_body)
    }

    /// What the walk does next in a given state.
    pub open spec fn spec_action(&self) -> UploadAction {
        if self.num_errors > 0 {
            UploadAction::Failed
        } else if self.awaiting_body {
            UploadAction::SendBody(self.next_line)
        } else if self.next_line == self.num_lines {
            UploadAction::Succeeded
        } else {
            UploadAction::SendHeader(self.next_line)
        }
    }

    /// Start an upload over an image with this many stored lines.
    pub fn new(num_lines: usize) -> (r: Self)
        ensures
            r.wf(),
            r.num_lines == num_lines,
            r.next_line == 0,
            !r.awaiting_body,
            r.num_errors == 0,
    {
        UploadRun { num_lines, next_line: 0, awaiting_body: false, num_errors: 0 }
    }

    /// What to do next: send a header, send a body, or stop.
    pub fn action(&self) -> (a: UploadAction)
        ensures
            a == self.spec_action(),
    {
        if self.num_errors > 0 {
            UploadAction::Failed
        } else if self.awaiting_body {
            UploadAction::SendBody(self.next_line)
        } else if self.next_line == self.num_lines {
            UploadAction::Succeeded
        } else {
            UploadAction::SendHeader(self.next_line)
        }
    }

    /// Account for the one-byte reply to the header or body just sent: an
    /// OK header reply clears the line's body for sending, an OK body reply
    /// moves to the next line, and anything else records the error and
    /// stops the walk.
    pub fn on_reply(&mut self, reply: u8)
        requires
            old(self).wf(),
            (old(self).spec_action() matches UploadAction::SendHeader(_)) || (
            old(self).spec_action() matches UploadAction::SendBody(_)),
        ensures
            final(self).wf(),
            final(self).num_lines == old(self).num_lines,
            reply_status(reply) == BL_COM_REPLY_OK ==> ({
                &&& final(self).num_errors == 0
                &&& if old(self).awaiting_body {
                    final(self).next_line == old(self).next_line + 1 && !final(self).awaiting_body
                } else {
                    final(self).next_line == old(self).next_line && final(self).awaiting_body
                }
            }),
            reply_status(reply) != BL_COM_REPLY_OK ==> ({
                &&& final(self).num_errors == 1
                &&& final(self).next_line == old(self).next_line
                &&& final(self).spec_action() == UploadAction::Failed
            }),
    {
        if is_status(reply, BL_COM_REPLY_OK) {
            if self.awaiting_body {
                self.awaiting_body = false;
                self.next_line = self.next_line + 1;
            } else {
                self.awaiting_body = true;
            }
        } else {
            self.awaiting_body = false;
            self.num_errors = 1;
        }
    }
}

// ---------------------------------------------------------------------------
// Verify: per-record read-back, exhaustive over all data records
// ---------------------------------------------------------------------------

/// How many of the bytes read back from device memory differ from the
/// corresponding payload bytes of a record (payload starts after the
/// four-byte header of the decoded line).
pub open spec fn spec_mismatches(mem: Seq<u8>, rec_bytes: Seq<u8>) -> nat
    decreases mem.len(),
{
    if mem.len() == 0 {
        0
    } else {
        (spec_mismatches(mem.drop_last(), rec_bytes) + if mem.last() != rec_bytes[4 + mem.len()
            - 1] {
            1nat
        } else {
            0nat
        }) as nat
    }
}

/// Compare bytes read back from device memory against a record's payload,
/// counting every mismatched position; the comparison never stops early.
pub fn count_mismatches(mem: &Vec<u8>, rec: &HexRecord) -> (n: usize)
    requires
        mem@.len() + 4 <= rec.bytes@.len(),
    ensures
        n == spec_mismatches(mem@, rec.bytes@),
        n <= mem@.len(),
{
    let rec_len = rec.bytes.len();
    let mut n: usize = 0;
    let mut i: usize = 0;
    while i < mem.len()
        invariant
            i <= mem@.len(),
            mem@.len() + 4 <= rec.bytes@.len(),
            rec.bytes@.len() == rec_len,
            n <= i,
            n == spec_mismatches(mem@.take(i as int), rec.bytes@),
        decreases mem@.len() - i,
    {
        if mem[i] != rec.bytes[i + 4] {
            n = n + 1;
        }
        i = i + 1;
        proof {
            assert(mem@.take(i as int).drop_last() =~= mem@.take(i - 1));
            assert(mem@.take(i as int).last() == mem@[i - 1]);
        }
    }
    proof {
        assert(mem@.take(i as int) =~= mem@);
    }
    n
}

/// The index of the first data record at or after `from` in an image's
/// stored lines, if any: the verify stage visits exactly these, in order.
pub fn next_data_record(records: &Vec<HexRecord>, from: usize) -> (r: Option<usize>)
    ensures
        r matches Some(j) ==> (from <= j < records@.len() && records@[j as int].rtype
            == RT_DATARECORD && forall|k: int|
            from <= k < j ==> records@[k].rtype != RT_DATARECORD),
        r is None ==> forall|k: int|
            from <= k < records@.len() ==> records@[k].rtype != RT_DATARECORD,
{
    let mut i: usize = from;
    while i < records.len()
        invariant
            from <= i,
            forall|k: int| from <= k < i ==> records@[k].rtype != RT_DATARECORD,
        decreases records@.len() - i,
    {
        if records[i].rtype == RT_DATARECORD {
            return Some(i);
        }
        i = i + 1;
    }
    None
}

/// The bytes sent to request one record's read-back: the 16-bit big-endian
/// address followed by the byte count.
pub fn verify_request_bytes(rec: &HexRecord) -> (r: Vec<u8>)
    ensures
        r@.len() == 3,
        r@[0] == rec.address / 256,
        r@[1] == (rec.address % 256) as u8,
        r@[2] == rec.bytecount,
{
    let mut r: Vec<u8> = Vec::new();
    r.push((rec.address / 256) as u8);
    r.push((rec.address % 256) as u8);
    r.push(rec.bytecount);
    r
}

/// The verify stage: walks every data record of the image in file order,
/// tallying mismatched bytes without ever stopping early on a mismatch.
pub struct VerifyRun {
    pub next_record: usize,
    pub num_mismatches: usize,
}

impl VerifyRun {
    /// Start a verification walk at the first record.
    pub fn new() -> (r: Self)
        ensures
            r.next_record == 0,
            r.num_mismatches == 0,
    {
        VerifyRun { next_record: 0, num_mismatches: 0 }
    }

    /// Account for the memory bytes read back for the data record at index
    /// `idx`: every mismatch against its payload is added to the tally, and
    /// the walk moves past the record — it never stops on a mismatch.
    pub fn record_result(&mut self, records: &Vec<HexRecord>, idx: usize, mem: &Vec<u8>)
        requires
            idx < records@.len(),
            mem@.len() + 4 <= records@[idx as int].bytes@.len(),
            old(self).num_mismatches + mem@.len() <= usize::MAX,
            idx < usize::MAX,
        ensures
            final(self).num_mismatches == old(self).num_mismatches + spec_mismatches(
                mem@,
                records@[idx as int].bytes@,
            ),
            final(self).next_record == idx + 1,
    {
        let n = count_mismatches(mem, &records[idx]);
        self.num_mismatches = self.num_mismatches + n;
        self.next_record = idx + 1;
    }
}

} // verus!
