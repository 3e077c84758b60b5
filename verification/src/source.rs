//! Source classification: maps an input descriptor to a byte-stream kind
//! plus ownership and transferability, and materializes compressed inputs.
//!
//! The host hands the engine plain values: literal bytes, a file path, a
//! caller-owned descriptor number, or the marker for a callback-only stream.
//! Classification happens once at build time; the host performs the actual
//! opening and reading and feeds the engine bytes.

use vstd::prelude::*;
use crate::errors::SourceError;

verus! {

/// Who owns the underlying OS resource. The engine may close an `Owned`
/// source when it finishes; a `Borrowed` source outlives the engine and its
/// close is a no-op by construction.
#[derive(Debug, Clone, Copy, PartialEq, Eq, Structural)]
pub enum Ownership {
    Owned,
    Borrowed,
}

/// The concrete stream kind a descriptor resolves to.
#[derive(Debug, Clone, Copy, PartialEq, Eq, Structural)]
pub enum SourceKind {
    /// A cursor over caller-supplied bytes.
    InMemory,
    /// A file opened by path.
    PlainFile,
    /// A file opened by path whose name marks it as gzip-compressed; its
    /// bytes are fully materialized through the decompressor.
    CompressedFile,
    /// A caller-owned OS descriptor the engine must never close.
    ForgottenHandle,
    /// A host object reachable only through a bounded read call; confined to
    /// the thread that owns it.
    CallbackStream,
}

/// An opaque input handle, as plain values.
#[derive(Debug)]
pub enum SourceDescriptor {
    /// Literal in-memory text or bytes.
    InMemoryBytes { data: Vec<u8> },
    /// A filesystem path, as bytes.
    FilePath { path: Vec<u8> },
    /// A caller-owned OS descriptor number; the caller retains its
    /// lifecycle.
    BorrowedDescriptor { fd: i32 },
    /// A host object exposing only a bounded read operation.
    CallbackStream,
}

/// What classification decided: the stream kind, whether the stream may move
/// to a worker thread, and who owns the OS resource.
#[derive(Debug, Clone, Copy, PartialEq, Eq, Structural)]
pub struct SourceInfo {
    pub kind: SourceKind,
    pub transferable: bool,
    pub ownership: Ownership,
}

/// Whether a path's name marks it as gzip-compressed: it ends in `.gz`.
pub open spec fn is_gz_path(path: Seq<u8>) -> bool {
    path.len() >= 3 && path[path.len() - 3] == 46 && path[path.len() - 2] == 103 && path[
        path.len() - 1] == 122
}

/// What classification yields for each descriptor kind.
pub open spec fn spec_resolve(desc: &SourceDescriptor) -> Result<SourceInfo, SourceError> {
    match desc {
        SourceDescriptor::InMemoryBytes { .. } => Ok(
            SourceInfo {
                kind: SourceKind::InMemory,
                transferable: true,
                ownership: Ownership::Owned,
            },
        ),
        SourceDescriptor::FilePath { path } => Ok(
            SourceInfo {
                kind: if is_gz_path(path@) {
                    SourceKind::CompressedFile
                } else {
                    SourceKind::PlainFile
                },
                transferable: true,
                ownership: Ownership::Owned,
            },
        ),
        SourceDescriptor::BorrowedDescriptor { fd } => if *fd < 0 {
            Err(SourceError::InvalidHandle(*fd))
        } else {
            Ok(
                SourceInfo {
                    kind: SourceKind::ForgottenHandle,
                    transferable: true,
                    ownership: Ownership::Borrowed,
                },
            )
        },
        SourceDescriptor::CallbackStream => Ok(
            SourceInfo {
                kind: SourceKind::CallbackStream,
                transferable: false,
                ownership: Ownership::Borrowed,
            },
        ),
    }
}

/// Classifies an input descriptor.
///
/// In-memory bytes and files are transferable and owned; a caller-owned
/// descriptor is transferable but borrowed (never closed here); a
/// callback-only stream stays on the calling thread and is owned by the
/// host, so it is never closed here either. A negative descriptor number is
/// refused.
pub fn resolve_source(desc: &SourceDescriptor) -> (r: Result<SourceInfo, SourceError>)
    ensures
        r == spec_resolve(desc),
{
    match desc {
        SourceDescriptor::InMemoryBytes { .. } => Ok(
            SourceInfo {
                kind: SourceKind::InMemory,
                transferable: true,
                ownership: Ownership::Owned,
            },
        ),
        SourceDescriptor::FilePath { path } => {
            let n = path.len();
            let gz = n >= 3 && path[n - 3] == 46 && path[n - 2] == 103 && path[n - 1] == 122;
            Ok(
                SourceInfo {
                    kind: if gz {
                        SourceKind::CompressedFile
                    } else {
                        SourceKind::PlainFile
                    },
                    transferable: true,
                    ownership: Ownership::Owned,
                },
            )
        },
        SourceDescriptor::BorrowedDescriptor { fd } => {
            if *fd < 0 {
                Err(SourceError::InvalidHandle(*fd))
            } else {
                Ok(
                    SourceInfo {
                        kind: SourceKind::ForgottenHandle,
                        transferable: true,
                        ownership: Ownership::Borrowed,
                    },
                )
            }
        },
        SourceDescriptor::CallbackStream => Ok(
            SourceInfo {
                kind: SourceKind::CallbackStream,
                transferable: false,
                ownership: Ownership::Borrowed,
            },
        ),
    }
}

/// Whether disposing an engine over this source should close the underlying
/// OS resource: only when the engine owns it.
pub open spec fn spec_should_close(o: Ownership) -> bool {
    o is Owned
}

/// What the gzip decompressor yields for a complete compressed buffer: a
/// function of the bytes alone (`None` for data it rejects).
pub uninterp spec fn gunzip(b: Seq<u8>) -> Option<Seq<u8>>;

/// Relies on `flate2::read::GzDecoder`: decompressing a complete in-memory
/// gzip buffer is a function of the bytes alone; rejected data reports an
/// error.
#[verifier::external_body]
fn gunzip_bytes(data: &Vec<u8>) -> (r: Option<Vec<u8>>)
    ensures
        match r {
            Some(out) => gunzip(data@) == Some(out@),
            None => gunzip(data@) is None,
        },
{
    let mut decoder = flate2::read::GzDecoder::new(data.as_slice());
    let mut out: Vec<u8> = Vec::new();
    match std::io::Read::read_to_end(&mut decoder, &mut out) {
        Ok(_) => Some(out),
        Err(_) => None,
    }
}

/// Fully materializes a compressed input's bytes, as the resolver does for a
/// compressed source that must be driven as a plain buffer.
pub fn materialize_compressed(data: &Vec<u8>) -> (r: Result<Vec<u8>, SourceError>)
    ensures
        r is Ok <==> gunzip(data@) is Some,
        match r {
            Ok(out) => gunzip(data@) == Some(out@),
            Err(e) => e == SourceError::Open,
        },
{
    match gunzip_bytes(data) {
        Some(out) => Ok(out),
        _ => Err(SourceError::Open),
    }
}

} // verus!
