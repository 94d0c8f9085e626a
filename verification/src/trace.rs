//! The recorded trace: one record per store, flush or fence.
//!
//! Every record starts with a header of seventeen bytes: one byte for the
//! kind (0 store, 1 flush, 2 fence), the address as eight bytes, least
//! significant first, and a length in the same form. A store carries as many
//! payload bytes behind its header as its length says. A fence carries an
//! address and a length too, and both are ignored.

use vstd::prelude::*;
use vstd::slice::slice_subrange;
use vstd::slice::slice_to_vec;

verus! {

/// The number of bytes in a record's header.
pub const HEADER_LEN: usize = 17;

/// The kind byte of a store.
pub const KIND_WRITE: u8 = 0;

/// The kind byte of a flush.
pub const KIND_FLUSH: u8 = 1;

/// The kind byte of a fence.
pub const KIND_FENCE: u8 = 2;

/// One operation of the traced program.
#[derive(Clone, Debug, PartialEq, Eq)]
pub enum TraceOp {
    /// A store of `data` at `addr`.
    Write { addr: u64, data: Vec<u8> },
    /// A flush of `len` bytes at `addr`.
    Flush { addr: u64, len: u64 },
    /// A fence.
    Fence,
}

/// What a `TraceOp` stands for.
pub enum OpView {
    Write { addr: int, data: Seq<u8> },
    Flush { addr: int, len: int },
    Fence,
}

impl View for TraceOp {
    type V = OpView;

    open spec fn view(&self) -> OpView {
        match *self {
            TraceOp::Write { addr, data } => OpView::Write { addr: addr as int, data: data@ },
            TraceOp::Flush { addr, len } => OpView::Flush { addr: addr as int, len: len as int },
            TraceOp::Fence => OpView::Fence,
        }
    }
}

/// Why a record could not be decoded. `offset` is where the record starts.
#[derive(Clone, Copy, Debug, PartialEq, Eq, Structural)]
pub enum DecodeError {
    /// The trace ends inside the record's header or payload.
    Truncated { offset: usize },
    /// The kind byte names no operation.
    UnknownKind { offset: usize, kind: u8 },
}

/// The value of eight bytes, least significant first.
pub open spec fn le_u64(b: Seq<u8>) -> int
    recommends
        b.len() == 8,
{
    b[0] as int + b[1] as int * 0x100 + b[2] as int * 0x1_0000 + b[3] as int * 0x100_0000 + b[4] as int
        * 0x1_0000_0000 + b[5] as int * 0x100_0000_0000 + b[6] as int * 0x1_0000_0000_0000 + b[7] as int
        * 0x100_0000_0000_0000
}

/// One decoded record and the offset of the record behind it.
pub struct Decoded {
    pub outcome: Result<OpView, DecodeError>,
    pub next: int,
}

/// The record that starts at `pos`. A record that the trace cuts short
/// swallows the rest of the trace; one of an unknown kind is taken to have no
/// payload.
pub open spec fn decode_at(trace: Seq<u8>, pos: int) -> Decoded
    recommends
        0 <= pos < trace.len(),
{
    if trace.len() - pos < HEADER_LEN {
        Decoded { outcome: Err(DecodeError::Truncated { offset: pos as usize }), next: trace.len() as int }
    } else {
        let kind = trace[pos];
        let addr = le_u64(trace.subrange(pos + 1, pos + 9));
        let len = le_u64(trace.subrange(pos + 9, pos + 17));
        let body = pos + HEADER_LEN;
        if kind == KIND_WRITE {
            if len > trace.len() - body {
                Decoded {
                    outcome: Err(DecodeError::Truncated { offset: pos as usize }),
                    next: trace.len() as int,
                }
            } else {
                Decoded {
                    outcome: Ok(OpView::Write { addr, data: trace.subrange(body, body + len) }),
                    next: body + len,
                }
            }
        } else if kind == KIND_FLUSH {
            Decoded { outcome: Ok(OpView::Flush { addr, len }), next: body }
        } else if kind == KIND_FENCE {
            Decoded { outcome: Ok(OpView::Fence), next: body }
        } else {
            Decoded {
                outcome: Err(DecodeError::UnknownKind { offset: pos as usize, kind }),
                next: body,
            }
        }
    }
}

/// Every record takes up at least one byte and ends inside the trace.
pub proof fn lemma_decode_advances(trace: Seq<u8>, pos: int)
    requires
        0 <= pos < trace.len(),
    ensures
        pos < decode_at(trace, pos).next <= trace.len(),
{
}

/// Reads eight bytes at `at` as a number, least significant byte first.
fn read_u64_le(trace: &[u8], at: usize) -> (v: u64)
    requires
        at + 8 <= trace@.len(),
    ensures
        v == le_u64(trace@.subrange(at as int, at + 8)),
{
    let ghost b = trace@.subrange(at as int, at + 8);
    let b0: u64 = trace[at] as u64;
    let b1: u64 = trace[at + 1] as u64;
    let b2: u64 = trace[at + 2] as u64;
    let b3: u64 = trace[at + 3] as u64;
    let b4: u64 = trace[at + 4] as u64;
    let b5: u64 = trace[at + 5] as u64;
    let b6: u64 = trace[at + 6] as u64;
    let b7: u64 = trace[at + 7] as u64;
    assert(b0 == b[0] && b1 == b[1] && b2 == b[2] && b3 == b[3] && b4 == b[4] && b5 == b[5] && b6
        == b[6] && b7 == b[7]);
    b0 + b1 * 0x100 + b2 * 0x1_0000 + b3 * 0x100_0000 + b4 * 0x1_0000_0000 + b5 * 0x100_0000_0000
        + b6 * 0x1_0000_0000_0000 + b7 * 0x100_0000_0000_0000
}

/// Decodes the record that starts at `pos` and says where the next one
/// starts. `None` at or past the end of the trace.
pub fn decode_record(trace: &[u8], pos: usize) -> (result: Option<
    (Result<TraceOp, DecodeError>, usize),
>)
    ensures
        result is Some <==> pos < trace@.len(),
        result is Some ==> {
            let (outcome, next) = result->Some_0;
            let spec = decode_at(trace@, pos as int);
            &&& next == spec.next
            &&& pos < next <= trace@.len()
            &&& match outcome {
                Ok(op) => spec.outcome == Ok::<OpView, DecodeError>(op@),
                Err(e) => spec.outcome == Err::<OpView, DecodeError>(e),
            }
        },
{
    let n: usize = trace.len();
    if pos >= n {
        return None;
    }
    proof {
        lemma_decode_advances(trace@, pos as int);
    }
    if n - pos < HEADER_LEN {
        return Some((Err(DecodeError::Truncated { offset: pos }), n));
    }
    let kind: u8 = trace[pos];
    let addr: u64 = read_u64_le(trace, pos + 1);
    let len: u64 = read_u64_le(trace, pos + 9);
    let body: usize = pos + HEADER_LEN;
    if kind == KIND_WRITE {
        if len > (n - body) as u64 {
            Some((Err(DecodeError::Truncated { offset: pos }), n))
        } else {
            let size: usize = len as usize;
            let data = slice_to_vec(slice_subrange(trace, body, body + size));
            Some((Ok(TraceOp::Write { addr, data }), body + size))
        }
    } else if kind == KIND_FLUSH {
        Some((Ok(TraceOp::Flush { addr, len }), body))
    } else if kind == KIND_FENCE {
        Some((Ok(TraceOp::Fence), body))
    } else {
        Some((Err(DecodeError::UnknownKind { offset: pos, kind }), body))
    }
}

} // verus!
