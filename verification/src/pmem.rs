//! The x86-style persistency model: a region with a durability state per line.

use vstd::prelude::*;
use vstd::arithmetic::div_mod::{
    lemma_fundamental_div_mod, lemma_fundamental_div_mod_converse, lemma_mod_bound,
};
use vstd::arithmetic::mul::lemma_mul_inequality;
use crate::image::overlay;

verus! {

/// The unit at which durability is tracked.
#[derive(Clone, Copy, Debug, PartialEq, Eq, Structural)]
pub enum LineGranularity {
    /// Eight bytes, the largest store that x86 makes durable atomically.
    Word,
    /// Sixty-four bytes, one cache line.
    CacheLine,
}

impl LineGranularity {
    /// The number of bytes in one line.
    pub open spec fn bytes(self) -> nat {
        match self {
            LineGranularity::Word => 8,
            LineGranularity::CacheLine => 64,
        }
    }

    /// The number of bytes in one line.
    pub fn line_size(self) -> (n: usize)
        ensures
            n == self.bytes(),
    {
        match self {
            LineGranularity::Word => 8,
            LineGranularity::CacheLine => 64,
        }
    }
}

/// How far one line has come on its way to durability.
#[derive(Clone, Copy, Debug, PartialEq, Eq, Structural)]
pub enum LineState {
    /// Nothing was written since the region was created.
    Clean,
    /// Written since the last flush.
    Dirty,
    /// Flushed, with no fence seen since.
    Flushed,
    /// Durable as of the last fence that covered it.
    Persisted,
}

impl LineState {
    /// A line is pending while it holds a write that no fence has made durable.
    pub open spec fn is_pending(self) -> bool {
        self == LineState::Dirty || self == LineState::Flushed
    }

    /// The only moves a line makes: it stays, a write makes it `Dirty`, a
    /// flush takes `Dirty` to `Flushed`, a fence takes `Flushed` to `Persisted`.
    pub open spec fn may_become(self, next: LineState) -> bool {
        ||| next == self
        ||| next == LineState::Dirty
        ||| (self == LineState::Dirty && next == LineState::Flushed)
        ||| (self == LineState::Flushed && next == LineState::Persisted)
    }
}

/// Whether line `line` shares a byte with the range of `len` bytes at `addr`.
pub open spec fn covers(line_size: nat, line: int, addr: int, len: int) -> bool {
    len > 0 && line * line_size < addr + len && addr < (line + 1) * line_size
}

/// The pending lines among the first `n`, in ascending order.
pub open spec fn pending_upto(states: Seq<LineState>, n: int) -> Seq<usize>
    decreases n,
{
    if n <= 0 {
        Seq::empty()
    } else if states[n - 1].is_pending() {
        pending_upto(states, n - 1).push((n - 1) as usize)
    } else {
        pending_upto(states, n - 1)
    }
}

/// `base`, with the bytes of every line that `chosen` picks taken from `latest`.
pub open spec fn with_lines(
    base: Seq<u8>,
    latest: Seq<u8>,
    line_size: nat,
    chosen: spec_fn(int) -> bool,
) -> Seq<u8> {
    Seq::new(
        base.len(),
        |i: int|
            if chosen(i / line_size as int) {
                latest[i]
            } else {
                base[i]
            },
    )
}

/// What the model stands for: the durable bytes, the bytes as the program last
/// wrote them, and the state of every line.
#[verifier::ext_equal]
pub struct ModelView {
    /// What would survive a power failure for certain.
    pub durable: Seq<u8>,
    /// What a load would return: every write applied.
    pub latest: Seq<u8>,
    /// One state per line.
    pub states: Seq<LineState>,
    /// Bytes per line.
    pub line_size: nat,
}

impl ModelView {
    /// The region is a positive whole number of lines, and a line that is not
    /// pending holds the same bytes in both views.
    pub open spec fn wf(self) -> bool {
        &&& self.line_size > 0
        &&& self.states.len() > 0
        &&& self.durable.len() == self.states.len() * self.line_size
        &&& self.latest.len() == self.durable.len()
        &&& forall|i: int|
            0 <= i < self.durable.len() ==> #[trigger] self.latest[i] == self.durable[i]
                || self.states[i / self.line_size as int].is_pending()
    }

    /// The region's length in bytes.
    pub open spec fn len(self) -> nat {
        self.durable.len()
    }

    /// The lines that are `Dirty` or `Flushed`, in ascending order.
    pub open spec fn pending_lines(self) -> Seq<usize> {
        pending_upto(self.states, self.states.len() as int)
    }

    /// A freshly created model over `content`.
    pub open spec fn fresh(content: Seq<u8>, line_size: nat) -> ModelView {
        ModelView {
            durable: content,
            latest: content,
            states: Seq::new(content.len() / line_size, |l: int| LineState::Clean),
            line_size,
        }
    }

    /// After a store of `data` at `addr`: the program sees the new bytes, and
    /// every line the store touches is `Dirty`.
    pub open spec fn write(self, addr: int, data: Seq<u8>) -> ModelView {
        ModelView {
            latest: overlay(self.latest, addr, data),
            states: Seq::new(
                self.states.len(),
                |l: int|
                    if covers(self.line_size, l, addr, data.len() as int) {
                        LineState::Dirty
                    } else {
                        self.states[l]
                    },
            ),
            ..self
        }
    }

    /// After a flush of `len` bytes at `addr`: the `Dirty` lines it touches are
    /// `Flushed`.
    pub open spec fn flush(self, addr: int, len: int) -> ModelView {
        ModelView {
            states: Seq::new(
                self.states.len(),
                |l: int|
                    if covers(self.line_size, l, addr, len) && self.states[l] == LineState::Dirty {
                        LineState::Flushed
                    } else {
                        self.states[l]
                    },
            ),
            ..self
        }
    }

    /// After a fence: every `Flushed` line is `Persisted` and its bytes are
    /// durable.
    pub open spec fn fence(self) -> ModelView {
        ModelView {
            durable: with_lines(
                self.durable,
                self.latest,
                self.line_size,
                |l: int| self.states[l] == LineState::Flushed,
            ),
            states: Seq::new(
                self.states.len(),
                |l: int|
                    if self.states[l] == LineState::Flushed {
                        LineState::Persisted
                    } else {
                        self.states[l]
                    },
            ),
            ..self
        }
    }

    /// After every line was forced to `Persisted`: all that was written is
    /// durable.
    pub open spec fn persist_all(self) -> ModelView {
        ModelView {
            durable: self.latest,
            states: Seq::new(self.states.len(), |l: int| LineState::Persisted),
            ..self
        }
    }
}

/// A byte lies in the line whose bounds enclose it.
pub proof fn lemma_byte_in_line(line_size: nat, line: int, i: int)
    requires
        line_size > 0,
        line * line_size <= i < (line + 1) * line_size,
    ensures
        i / line_size as int == line,
{
    let d = line_size as int;
    assert((line + 1) * d == line * d + d) by (nonlinear_arith);
    lemma_fundamental_div_mod_converse(i, d, line, i - line * d);
}

/// The line of a byte encloses it.
pub proof fn lemma_line_of_byte(line_size: nat, i: int)
    requires
        line_size > 0,
        0 <= i,
    ensures
        0 <= i / line_size as int,
        (i / line_size as int) * line_size <= i < (i / line_size as int + 1) * line_size,
{
    let d = line_size as int;
    lemma_fundamental_div_mod(i, d);
    lemma_mod_bound(i, d);
    assert((i / d + 1) * d == (i / d) * d + d) by (nonlinear_arith);
    assert(0 <= i / d) by (nonlinear_arith)
        requires
            d > 0,
            0 <= i,
            i < (i / d) * d + d,
    ;
}

/// Lines in an order keep that order when scaled to byte offsets.
pub proof fn lemma_line_order(line_size: nat, a: int, b: int)
    requires
        a <= b,
    ensures
        a * line_size <= b * line_size,
{
    lemma_mul_inequality(a, b, line_size as int);
}

/// A byte inside a range lies in a line that the range covers.
pub proof fn lemma_byte_covered(line_size: nat, addr: int, len: int, i: int)
    requires
        line_size > 0,
        0 <= addr <= i < addr + len,
    ensures
        covers(line_size, i / line_size as int, addr, len),
{
    lemma_line_of_byte(line_size, i);
}

/// A range covers the lines from that of its first byte to that of its last,
/// and no other.
pub proof fn lemma_covered_lines(line_size: nat, addr: int, len: int, line: int)
    requires
        line_size > 0,
        0 <= addr,
        len > 0,
    ensures
        covers(line_size, line, addr, len) <==> addr / line_size as int <= line <= (addr + len - 1)
            / line_size as int,
{
    let first = addr / line_size as int;
    let last = (addr + len - 1) / line_size as int;
    lemma_line_of_byte(line_size, addr);
    lemma_line_of_byte(line_size, addr + len - 1);
    if line < first {
        lemma_line_order(line_size, line + 1, first);
    } else if line > last {
        lemma_line_order(line_size, last + 1, line);
    } else {
        lemma_line_order(line_size, line, last);
        lemma_line_order(line_size, first + 1, line + 1);
    }
}

/// Every byte of a well-formed region lies in one of its lines.
pub proof fn lemma_line_in_region(m: ModelView, i: int)
    requires
        m.wf(),
        0 <= i < m.len(),
    ensures
        0 <= i / (m.line_size as int) < m.states.len(),
{
    lemma_line_of_byte(m.line_size, i);
    let line = i / m.line_size as int;
    if line >= m.states.len() {
        lemma_line_order(m.line_size, m.states.len() as int, line);
    }
}

/// A store inside the region keeps the model well formed.
pub proof fn lemma_write_wf(m: ModelView, addr: int, data: Seq<u8>)
    requires
        m.wf(),
        0 <= addr,
        addr + data.len() <= m.len(),
    ensures
        m.write(addr, data).wf(),
{
    let after = m.write(addr, data);
    assert forall|i: int| 0 <= i < after.durable.len() implies #[trigger] after.latest[i]
        == after.durable[i] || after.states[i / after.line_size as int].is_pending() by {
        lemma_line_in_region(m, i);
        if addr <= i < addr + data.len() {
            lemma_byte_covered(m.line_size, addr, data.len() as int, i);
        }
    }
}

/// A flush keeps the model well formed.
pub proof fn lemma_flush_wf(m: ModelView, addr: int, len: int)
    requires
        m.wf(),
    ensures
        m.flush(addr, len).wf(),
{
    let after = m.flush(addr, len);
    assert forall|i: int| 0 <= i < after.durable.len() implies #[trigger] after.latest[i]
        == after.durable[i] || after.states[i / after.line_size as int].is_pending() by {
        lemma_line_in_region(m, i);
    }
}

/// A fence keeps the model well formed.
pub proof fn lemma_fence_wf(m: ModelView)
    requires
        m.wf(),
    ensures
        m.fence().wf(),
{
    let after = m.fence();
    assert forall|i: int| 0 <= i < after.durable.len() implies #[trigger] after.latest[i]
        == after.durable[i] || after.states[i / after.line_size as int].is_pending() by {
        lemma_line_in_region(m, i);
    }
}

/// What `pending_upto` holds: exactly the pending lines below `n`, each once,
/// in ascending order.
pub proof fn lemma_pending_upto(states: Seq<LineState>, n: int)
    requires
        0 <= n <= states.len(),
        states.len() <= usize::MAX,
    ensures
        pending_upto(states, n).len() <= n,
        forall|k: int|
            0 <= k < pending_upto(states, n).len() ==> {
                let l = #[trigger] pending_upto(states, n)[k];
                0 <= l < n && states[l as int].is_pending()
            },
        forall|j: int, k: int|
            0 <= j < k < pending_upto(states, n).len() ==> pending_upto(states, n)[j]
                < pending_upto(states, n)[k],
        forall|l: int|
            0 <= l < n && #[trigger] states[l].is_pending() ==> pending_upto(states, n).contains(
                l as usize,
            ),
    decreases n,
{
    if n > 0 {
        lemma_pending_upto(states, n - 1);
        let prev = pending_upto(states, n - 1);
        let cur = pending_upto(states, n);
        if states[n - 1].is_pending() {
            assert forall|l: int| 0 <= l < n && #[trigger] states[l].is_pending() implies cur.contains(
                l as usize,
            ) by {
                if l < n - 1 {
                    let k = choose|k: int| 0 <= k < prev.len() && prev[k] == l as usize;
                    assert(cur[k] == l as usize);
                } else {
                    assert(cur[prev.len() as int] == l as usize);
                }
            }
        }
    }
}

/// A line moves only along `Clean`, `Dirty`, `Flushed`, `Persisted`, one step
/// at a time, and only a store sends it back: a store leaves every line it
/// touches `Dirty` and no other line changed; a flush changes a line only from
/// `Dirty` to `Flushed`; a fence changes a line only from `Flushed` to
/// `Persisted`.
pub proof fn law_line_moves(m: ModelView, addr: int, data: Seq<u8>, len: int, line: int)
    requires
        m.wf(),
        0 <= line < m.states.len(),
    ensures
        m.write(addr, data).states[line] == if covers(m.line_size, line, addr, data.len() as int) {
            LineState::Dirty
        } else {
            m.states[line]
        },
        m.flush(addr, len).states[line] == m.states[line] || (m.states[line] == LineState::Dirty
            && m.flush(addr, len).states[line] == LineState::Flushed),
        m.fence().states[line] == m.states[line] || (m.states[line] == LineState::Flushed
            && m.fence().states[line] == LineState::Persisted),
        m.states[line].may_become(m.write(addr, data).states[line]),
        m.states[line].may_become(m.flush(addr, len).states[line]),
        m.states[line].may_become(m.fence().states[line]),
{
}

/// The fence record holds a line exactly when the line was `Dirty` or
/// `Flushed` just before the fence. Of these the `Flushed` ones are
/// `Persisted` afterwards and the `Dirty` ones are still `Dirty`; a line
/// outside the record keeps its state.
pub proof fn law_fence_record(m: ModelView, line: int)
    requires
        m.wf(),
        m.states.len() <= usize::MAX,
        0 <= line < m.states.len(),
    ensures
        m.pending_lines().contains(line as usize) <==> m.states[line].is_pending(),
        m.states[line] == LineState::Flushed ==> m.fence().states[line] == LineState::Persisted,
        m.states[line] == LineState::Dirty ==> m.fence().states[line] == LineState::Dirty,
        !m.pending_lines().contains(line as usize) ==> m.fence().states[line] == m.states[line],
{
    lemma_pending_upto(m.states, m.states.len() as int);
    let record = m.pending_lines();
    if record.contains(line as usize) {
        let k = choose|k: int| 0 <= k < record.len() && record[k] == line as usize;
        assert(m.states[record[k] as int].is_pending());
    }
}

/// A model with no pending line has an empty fence record, and the other way
/// round.
pub proof fn lemma_no_pending(m: ModelView)
    requires
        m.states.len() <= usize::MAX,
    ensures
        m.pending_lines().len() == 0 <==> forall|l: int|
            0 <= l < m.states.len() ==> !(#[trigger] m.states[l]).is_pending(),
{
    lemma_pending_upto(m.states, m.states.len() as int);
    let p = m.pending_lines();
    if p.len() > 0 {
        assert(m.states[p[0] as int].is_pending());
    }
}

/// A store into a fresh model, a flush of the same range and a fence leave
/// no line pending, and the durable bytes are the first content with the
/// stored bytes laid over it.
pub proof fn law_write_flush_fence(content: Seq<u8>, line_size: nat, addr: int, data: Seq<u8>)
    requires
        ModelView::fresh(content, line_size).wf(),
        content.len() <= usize::MAX,
        0 <= addr,
        addr + data.len() <= content.len(),
    ensures
        ({
            let after = ModelView::fresh(content, line_size).write(addr, data).flush(
                addr,
                data.len() as int,
            ).fence();
            &&& after.wf()
            &&& after.pending_lines().len() == 0
            &&& after.durable == overlay(content, addr, data)
            &&& after.durable.subrange(addr, addr + data.len()) == data
        }),
{
    let fresh = ModelView::fresh(content, line_size);
    let after = fresh.write(addr, data).flush(addr, data.len() as int).fence();
    assert(after.states.len() <= content.len()) by (nonlinear_arith)
        requires
            content.len() == after.states.len() * line_size,
            line_size > 0,
    ;
    assert forall|l: int| 0 <= l < after.states.len() implies !(#[trigger] after.states[l]).is_pending() by {}
    lemma_no_pending(after);
    assert forall|i: int| 0 <= i < content.len() implies after.durable[i] == overlay(
        content,
        addr,
        data,
    )[i] by {
        lemma_line_of_byte(line_size, i);
        let line = i / line_size as int;
        if line >= fresh.states.len() {
            lemma_line_order(line_size, fresh.states.len() as int, line);
        }
        if addr <= i < addr + data.len() {
            lemma_byte_covered(line_size, addr, data.len() as int, i);
        }
    }
    assert forall|i: int| 0 <= i < after.durable.len() implies #[trigger] after.latest[i]
        == after.durable[i] || after.states[i / after.line_size as int].is_pending() by {}
}

} // verus!
