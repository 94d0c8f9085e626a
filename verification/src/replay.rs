//! Replaying a trace against the model, one record at a time.

use vstd::prelude::*;
use crate::model::PersistentMemoryModel;
use crate::pmem::ModelView;
use crate::trace::{decode_at, decode_record, lemma_decode_advances, DecodeError, OpView, TraceOp};

verus! {

/// What one fence found: its number among the fences of the trace, counted
/// from zero, and the lines that were pending when it came.
#[derive(Clone, Debug, PartialEq, Eq)]
pub struct FenceRecord {
    pub id: usize,
    pub lines: Vec<usize>,
}

/// What a `FenceRecord` stands for.
pub struct FenceView {
    pub id: int,
    pub lines: Seq<usize>,
}

impl View for FenceRecord {
    type V = FenceView;

    open spec fn view(&self) -> FenceView {
        FenceView { id: self.id as int, lines: self.lines@ }
    }
}

/// One record that was applied: the operation and, for a fence, its record.
#[derive(Clone, Debug, PartialEq, Eq)]
pub struct ReplayEntry {
    pub op: TraceOp,
    pub fence: Option<FenceRecord>,
}

/// What a `ReplayEntry` stands for.
pub struct EntryView {
    pub op: OpView,
    pub fence: Option<FenceView>,
}

impl View for ReplayEntry {
    type V = EntryView;

    open spec fn view(&self) -> EntryView {
        EntryView {
            op: self.op@,
            fence: match self.fence {
                Some(record) => Some(record@),
                None => None,
            },
        }
    }
}

/// Why a record was not applied. The model is as it was before the record.
#[derive(Clone, Copy, Debug, PartialEq, Eq, Structural)]
pub enum ReplayError {
    /// The record could not be decoded.
    Decode(DecodeError),
    /// The record at `offset` addresses bytes outside the region.
    OutOfBounds { offset: usize, addr: u64, len: u64 },
}

/// What one step reports, in the terms of the contracts.
pub open spec fn result_view(r: Result<ReplayEntry, ReplayError>) -> Result<EntryView, ReplayError> {
    match r {
        Ok(entry) => Ok(entry@),
        Err(e) => Err(e),
    }
}

/// What a replayer stands for: the trace, how far it was read, how many
/// fences were seen, and which of them found pending lines.
#[verifier::ext_equal]
pub struct ReplayerView {
    pub trace: Seq<u8>,
    pub cursor: int,
    pub fences: int,
    pub with_writes: Seq<usize>,
}

impl ReplayerView {
    /// A replayer that has read nothing of `trace` yet.
    pub open spec fn at_start(trace: Seq<u8>) -> ReplayerView {
        ReplayerView { trace, cursor: 0, fences: 0, with_writes: Seq::empty() }
    }
}

/// The outcome of one step.
pub struct StepOut {
    pub replayer: ReplayerView,
    pub model: ModelView,
    pub result: Result<EntryView, ReplayError>,
}

/// Decodes the record under the cursor and applies it to the model. A record
/// that cannot be decoded or that addresses bytes outside the region moves
/// the cursor on and leaves the model alone.
pub open spec fn step(r: ReplayerView, m: ModelView) -> StepOut {
    let d = decode_at(r.trace, r.cursor);
    let moved = ReplayerView { cursor: d.next, ..r };
    match d.outcome {
        Err(e) => StepOut { replayer: moved, model: m, result: Err(ReplayError::Decode(e)) },
        Ok(OpView::Write { addr, data }) => if addr + data.len() <= m.len() {
            StepOut {
                replayer: moved,
                model: m.write(addr, data),
                result: Ok(EntryView { op: OpView::Write { addr, data }, fence: None }),
            }
        } else {
            StepOut {
                replayer: moved,
                model: m,
                result: Err(
                    ReplayError::OutOfBounds {
                        offset: r.cursor as usize,
                        addr: addr as u64,
                        len: data.len() as u64,
                    },
                ),
            }
        },
        Ok(OpView::Flush { addr, len }) => if addr + len <= m.len() {
            StepOut {
                replayer: moved,
                model: m.flush(addr, len),
                result: Ok(EntryView { op: OpView::Flush { addr, len }, fence: None }),
            }
        } else {
            StepOut {
                replayer: moved,
                model: m,
                result: Err(
                    ReplayError::OutOfBounds {
                        offset: r.cursor as usize,
                        addr: addr as u64,
                        len: len as u64,
                    },
                ),
            }
        },
        Ok(OpView::Fence) => {
            let lines = m.pending_lines();
            StepOut {
                replayer: ReplayerView {
                    cursor: d.next,
                    fences: r.fences + 1,
                    with_writes: if lines.len() > 0 {
                        r.with_writes.push(r.fences as usize)
                    } else {
                        r.with_writes
                    },
                    ..r
                },
                model: m.fence(),
                result: Ok(
                    EntryView { op: OpView::Fence, fence: Some(FenceView { id: r.fences, lines }) },
                ),
            }
        },
    }
}

/// The outcome of a run to the end of the trace.
pub struct RunOut {
    pub replayer: ReplayerView,
    pub model: ModelView,
    pub results: Seq<Result<EntryView, ReplayError>>,
}

/// Steps until the cursor reaches the end of the trace, and collects what
/// each step reports. An error ends nothing.
pub open spec fn run(r: ReplayerView, m: ModelView) -> RunOut
    decreases r.trace.len() - r.cursor,
    via run_decreases
{
    if 0 <= r.cursor < r.trace.len() {
        let s = step(r, m);
        let rest = run(s.replayer, s.model);
        RunOut { replayer: rest.replayer, model: rest.model, results: seq![s.result] + rest.results }
    } else {
        RunOut { replayer: r, model: m, results: Seq::empty() }
    }
}

#[via_fn]
proof fn run_decreases(r: ReplayerView, m: ModelView) {
    if 0 <= r.cursor < r.trace.len() {
        lemma_decode_advances(r.trace, r.cursor);
    }
}

/// Replaying an empty trace against a fresh model reports nothing and
/// changes nothing: every line is still `Clean` and the content is what the
/// model was created with.
pub proof fn law_empty_trace(content: Seq<u8>, line_size: nat)
    requires
        line_size > 0,
    ensures
        ({
            let fresh = ModelView::fresh(content, line_size);
            let after = run(ReplayerView::at_start(Seq::empty()), fresh);
            &&& after.results.len() == 0
            &&& after.model == fresh
            &&& after.model.durable == content
            &&& after.model.latest == content
            &&& forall|l: int|
                0 <= l < after.model.states.len() ==> #[trigger] after.model.states[l]
                    == crate::pmem::LineState::Clean
        }),
{
}

/// Whatever record a step applies, the model stays well formed and every
/// line stays as it is or makes one of the moves the model allows.
pub proof fn law_step_line_moves(r: ReplayerView, m: ModelView, line: int)
    requires
        m.wf(),
        0 <= r.cursor < r.trace.len(),
        0 <= line < m.states.len(),
    ensures
        step(r, m).model.wf(),
        step(r, m).model.states.len() == m.states.len(),
        m.states[line].may_become(step(r, m).model.states[line]),
{
    match decode_at(r.trace, r.cursor).outcome {
        Ok(OpView::Write { addr, data }) => {
            if addr + data.len() <= m.len() {
                crate::pmem::lemma_write_wf(m, addr, data);
            }
        },
        Ok(OpView::Flush { addr, len }) => {
            crate::pmem::lemma_flush_wf(m, addr, len);
        },
        Ok(OpView::Fence) => {
            crate::pmem::lemma_fence_wf(m);
        },
        Err(_) => {},
    }
}

/// A step moves the cursor forward, keeps the trace, and counts at most one
/// fence.
pub proof fn lemma_step_advances(r: ReplayerView, m: ModelView)
    requires
        0 <= r.cursor < r.trace.len(),
    ensures
        step(r, m).replayer.trace == r.trace,
        r.cursor < step(r, m).replayer.cursor <= r.trace.len(),
        r.fences <= step(r, m).replayer.fences <= r.fences + 1,
{
    lemma_decode_advances(r.trace, r.cursor);
}

/// Reads a trace record by record and applies each to a model that the
/// caller owns. It keeps nothing but the trace, a cursor into it and the
/// count of fences.
#[derive(Debug)]
pub struct MemoryReplayer {
    trace: Vec<u8>,
    cursor: usize,
    fences: usize,
    with_writes: Vec<usize>,
}

impl View for MemoryReplayer {
    type V = ReplayerView;

    closed spec fn view(&self) -> ReplayerView {
        ReplayerView {
            trace: self.trace@,
            cursor: self.cursor as int,
            fences: self.fences as int,
            with_writes: self.with_writes@,
        }
    }
}

impl MemoryReplayer {
    /// What every replayer satisfies from `new` on.
    pub open spec fn inv(&self) -> bool {
        0 <= self@.fences <= self@.cursor <= self@.trace.len()
    }

    /// A replayer at the start of `trace`.
    pub fn new(trace: Vec<u8>) -> (replayer: MemoryReplayer)
        ensures
            replayer.inv(),
            replayer@ == ReplayerView::at_start(trace@),
    {
        MemoryReplayer { trace, cursor: 0, fences: 0, with_writes: Vec::new() }
    }

    /// The offset of the next record.
    pub fn cursor(&self) -> (pos: usize)
        ensures
            pos == self@.cursor,
    {
        self.cursor
    }

    /// The number of fences applied so far. The next fence gets this number.
    pub fn fence_count(&self) -> (n: usize)
        ensures
            n == self@.fences,
    {
        self.fences
    }

    /// The numbers of the fences that found pending lines, in trace order.
    pub fn fences_with_writes(&self) -> (ids: &[usize])
        ensures
            ids@ == self@.with_writes,
    {
        self.with_writes.as_slice()
    }

    /// Whether records are left.
    pub fn is_done(&self) -> (done: bool)
        ensures
            done == (self@.cursor >= self@.trace.len()),
    {
        self.cursor >= self.trace.len()
    }

    /// Whether the record under the cursor is a fence.
    pub fn next_is_fence(&self) -> (fence: bool)
        ensures
            fence == (self@.cursor < self@.trace.len() && decode_at(
                self@.trace,
                self@.cursor,
            ).outcome == Ok::<OpView, DecodeError>(OpView::Fence)),
    {
        let n: usize = self.trace.len();
        self.cursor < n && n - self.cursor >= crate::trace::HEADER_LEN && self.trace[self.cursor]
            == crate::trace::KIND_FENCE
    }

    /// Applies the record under the cursor. `None` at the end of the trace.
    pub fn next_entry(&mut self, model: &mut PersistentMemoryModel) -> (result: Option<
        Result<ReplayEntry, ReplayError>,
    >)
        requires
            old(self).inv(),
            old(model).inv(),
        ensures
            final(self).inv(),
            final(model).inv(),
            final(model).spec_granularity() == old(model).spec_granularity(),
            result is Some <==> old(self)@.cursor < old(self)@.trace.len(),
            result is None ==> final(self)@ == old(self)@ && final(model)@ == old(model)@,
            result is Some ==> {
                let s = step(old(self)@, old(model)@);
                &&& final(self)@ == s.replayer
                &&& final(model)@ == s.model
                &&& result_view(result->Some_0) == s.result
            },
    {
        let offset: usize = self.cursor;
        let decoded = decode_record(self.trace.as_slice(), offset);
        match decoded {
            None => None,
            Some((outcome, next)) => {
                self.cursor = next;
                proof {
                    lemma_step_advances(old(self)@, old(model)@);
                }
                let result = match outcome {
                    Err(e) => Some(Err(ReplayError::Decode(e))),
                    Ok(TraceOp::Write { addr, data }) => {
                        let len: u64 = data.len() as u64;
                        if addr > usize::MAX as u64 {
                            Some(Err(ReplayError::OutOfBounds { offset, addr, len }))
                        } else {
                            match model.write(addr as usize, data.as_slice()) {
                                Ok(()) => Some(
                                    Ok(ReplayEntry { op: TraceOp::Write { addr, data }, fence: None }),
                                ),
                                Err(_) => Some(Err(ReplayError::OutOfBounds { offset, addr, len })),
                            }
                        }
                    },
                    Ok(TraceOp::Flush { addr, len }) => {
                        if addr > usize::MAX as u64 || len > usize::MAX as u64 {
                            Some(Err(ReplayError::OutOfBounds { offset, addr, len }))
                        } else {
                            match model.flush(addr as usize, len as usize) {
                                Ok(()) => Some(
                                    Ok(ReplayEntry { op: TraceOp::Flush { addr, len }, fence: None }),
                                ),
                                Err(_) => Some(Err(ReplayError::OutOfBounds { offset, addr, len })),
                            }
                        }
                    },
                    Ok(TraceOp::Fence) => {
                        let id: usize = self.fences;
                        let lines = model.fence();
                        self.fences = id + 1;
                        if lines.len() > 0 {
                            self.with_writes.push(id);
                        }
                        Some(
                            Ok(
                                ReplayEntry {
                                    op: TraceOp::Fence,
                                    fence: Some(FenceRecord { id, lines }),
                                },
                            ),
                        )
                    },
                };
                result
            },
        }
    }

    /// Applies every record that is left and reports each outcome in trace
    /// order. A record in error is reported and the replay goes on behind it.
    pub fn process_trace(&mut self, model: &mut PersistentMemoryModel) -> (results: Vec<
        Result<ReplayEntry, ReplayError>,
    >)
        requires
            old(self).inv(),
            old(model).inv(),
        ensures
            final(self).inv(),
            final(model).inv(),
            final(model).spec_granularity() == old(model).spec_granularity(),
            final(self)@ == run(old(self)@, old(model)@).replayer,
            final(model)@ == run(old(self)@, old(model)@).model,
            results@.map_values(|r: Result<ReplayEntry, ReplayError>| result_view(r)) == run(
                old(self)@,
                old(model)@,
            ).results,
    {
        let mut results: Vec<Result<ReplayEntry, ReplayError>> = Vec::new();
        let ghost whole = run(old(self)@, old(model)@);
        assert(whole.results =~= results@.map_values(
            |r: Result<ReplayEntry, ReplayError>| result_view(r),
        ) + whole.results);
        while !self.is_done()
            invariant
                self.inv(),
                model.inv(),
                model.spec_granularity() == old(model).spec_granularity(),
                whole == run(old(self)@, old(model)@),
                whole.replayer == run(self@, model@).replayer,
                whole.model == run(self@, model@).model,
                whole.results == results@.map_values(
                    |r: Result<ReplayEntry, ReplayError>| result_view(r),
                ) + run(self@, model@).results,
            decreases self@.trace.len() - self@.cursor,
        {
            let ghost before = self@;
            let ghost model_before = model@;
            let ghost done = results@.map_values(|r: Result<ReplayEntry, ReplayError>| result_view(r));
            proof {
                lemma_step_advances(before, model_before);
            }
            match self.next_entry(model) {
                None => {},
                Some(r) => {
                    results.push(r);
                    assert(results@.map_values(|r: Result<ReplayEntry, ReplayError>| result_view(r))
                        =~= done.push(result_view(r)));
                },
            }
        }
        assert(whole.results =~= results@.map_values(
            |r: Result<ReplayEntry, ReplayError>| result_view(r),
        ));
        results
    }
}

} // verus!
