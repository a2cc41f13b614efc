use vstd::prelude::*;

verus! {

/// The failure classes of the uploader: connection, transport, protocol,
/// file and hex-format errors.
#[derive(Debug, PartialEq, Eq)]
pub enum ErrorKind {
    IO,
    PortNotFound,
    PortConnection,
    SerialWrite,
    SerialRead,
    /// An unexpected status byte, together with the command code that
    /// produced it.
    BootloaderCMDResponse(u8, char),
    /// A byte-decode failure: the first offending line, the first offending
    /// byte index on it, and how many further such failures were found.
    HexfileByte(usize, usize, usize),
    HexfileChecksum,
    HexfileLineParse,
    FileOpen,
    U32Parse,
    StringDecoding,
}

/// An error of the uploader: a kind plus an optional description of the
/// underlying cause.
#[derive(Debug, PartialEq, Eq)]
pub struct UploaderError {
    pub kind: ErrorKind,
    pub source: Option<String>,
}

impl UploaderError {
    /// An error of the given kind with no underlying cause.
    pub fn from(kind: ErrorKind) -> (r: Self)
        ensures
            r.kind == kind,
            r.source is None,
    {
        UploaderError { kind, source: None }
    }

    /// An error of the given kind, recording a description of its cause.
    pub fn new(kind: ErrorKind, src: String) -> (r: Self)
        ensures
            r.kind == kind,
            r.source == Some(src),
    {
        UploaderError { kind, source: Some(src) }
    }
}

} // verus!
