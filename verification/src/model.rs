//! The executable persistency model and its operations.

use vstd::prelude::*;
use vstd::slice::slice_subrange;
use vstd::slice::slice_to_vec;
use crate::image::{overlay, MemoryImage, PmemError};
use crate::pmem::{
    covers, lemma_byte_covered, lemma_byte_in_line, lemma_covered_lines, lemma_fence_wf,
    lemma_flush_wf, lemma_line_in_region, lemma_line_order, lemma_write_wf, pending_upto,
    LineGranularity, LineState, ModelView,
};

verus! {

/// One region under x86 persistency rules. A store is visible to the program
/// at once, but reaches the durable bytes only when its line is flushed and
/// then fenced, or when every line is forced out.
#[derive(Debug)]
pub struct PersistentMemoryModel {
    image: MemoryImage,
    latest: Vec<u8>,
    states: Vec<LineState>,
    granularity: LineGranularity,
}

impl View for PersistentMemoryModel {
    type V = ModelView;

    closed spec fn view(&self) -> ModelView {
        ModelView {
            durable: self.image@,
            latest: self.latest@,
            states: self.states@,
            line_size: self.granularity.bytes(),
        }
    }
}

impl PersistentMemoryModel {
    /// What every model satisfies from `new` on.
    pub open spec fn inv(&self) -> bool {
        &&& self@.wf()
        &&& self@.len() <= usize::MAX
        &&& self@.line_size == self.spec_granularity().bytes()
    }

    /// The granularity the model was created with.
    pub closed spec fn spec_granularity(&self) -> LineGranularity {
        self.granularity
    }

    /// Wraps `image`. Refused when the image is empty or not a whole number
    /// of lines long.
    pub fn new(image: MemoryImage, granularity: LineGranularity) -> (result: Result<
        PersistentMemoryModel,
        PmemError,
    >)
        ensures
            result is Ok <==> image@.len() > 0 && image@.len() % granularity.bytes() == 0,
            result is Ok ==> {
                let model = result->Ok_0;
                &&& model.inv()
                &&& model.spec_granularity() == granularity
                &&& model@ == ModelView::fresh(image@, granularity.bytes())
            },
            result is Err ==> result->Err_0 == PmemError::InvalidLength,
    {
        let ls: usize = granularity.line_size();
        let n: usize = image.len();
        if n == 0 || n % ls != 0 {
            return Err(PmemError::InvalidLength);
        }
        let lines: usize = n / ls;
        let latest = slice_to_vec(image.as_slice());
        let mut states: Vec<LineState> = Vec::new();
        let mut l: usize = 0;
        while l < lines
            invariant
                l <= lines,
                states@ == Seq::new(l as nat, |k: int| LineState::Clean),
            decreases lines - l,
        {
            states.push(LineState::Clean);
            l += 1;
        }
        proof {
            vstd::arithmetic::div_mod::lemma_fundamental_div_mod(n as int, ls as int);
            assert(ls as int * (n as int / ls as int) == (n as int / ls as int) * ls as int)
                by (nonlinear_arith);
        }
        let model = PersistentMemoryModel { image, latest, states, granularity };
        Ok(model)
    }

    /// The region's length in bytes.
    pub fn len(&self) -> (n: usize)
        ensures
            n == self@.len(),
    {
        self.image.len()
    }

    /// The granularity the model was created with.
    pub fn granularity(&self) -> (g: LineGranularity)
        ensures
            g == self.spec_granularity(),
    {
        self.granularity
    }

    /// The number of lines.
    pub fn line_count(&self) -> (n: usize)
        ensures
            n == self@.states.len(),
    {
        self.states.len()
    }

    /// The state of line `line`, or `None` past the last line.
    pub fn line_state(&self, line: usize) -> (state: Option<LineState>)
        ensures
            state == if line < self@.states.len() {
                Some(self@.states[line as int])
            } else {
                None
            },
    {
        if line < self.states.len() {
            Some(self.states[line])
        } else {
            None
        }
    }

    /// The durable bytes: what a crash at this moment is certain to leave.
    /// Borrowed, so a caller that keeps it as a crash image copies it.
    pub fn content(&self) -> (bytes: &[u8])
        ensures
            bytes@ == self@.durable,
    {
        self.image.as_slice()
    }

    /// The bytes as the traced program sees them, every store applied.
    pub fn latest_content(&self) -> (bytes: &[u8])
        ensures
            bytes@ == self@.latest,
    {
        self.latest.as_slice()
    }

    /// Gives up the model and hands out its durable bytes.
    pub fn into_image(self) -> (image: MemoryImage)
        ensures
            image@ == self@.durable,
    {
        self.image
    }

    /// The first and the last line that a range inside the region covers.
    fn covered_lines(&self, addr: usize, len: usize) -> (span: (usize, usize))
        requires
            self.inv(),
            len > 0,
            addr + len <= self@.len(),
        ensures
            span.0 <= span.1 < self@.states.len() <= usize::MAX,
            forall|k: int|
                span.0 <= k <= span.1 <==> covers(self@.line_size, k, addr as int, len as int),
    {
        let ls: usize = self.granularity.line_size();
        let first: usize = addr / ls;
        let last: usize = (addr + len - 1) / ls;
        proof {
            lemma_line_in_region(self@, addr + len - 1);
            assert forall|k: int| first <= k <= last <==> covers(
                self@.line_size,
                k,
                addr as int,
                len as int,
            ) by {
                lemma_covered_lines(ls as nat, addr as int, len as int, k);
            }
            lemma_byte_covered(ls as nat, addr as int, len as int, addr as int);
        }
        (first, last)
    }

    /// A store. Refused, with nothing changed, when the range leaves the
    /// region.
    pub fn write(&mut self, addr: usize, data: &[u8]) -> (result: Result<(), PmemError>)
        requires
            old(self).inv(),
        ensures
            final(self).inv(),
            final(self).spec_granularity() == old(self).spec_granularity(),
            result is Ok <==> addr + data@.len() <= old(self)@.len(),
            result is Ok ==> final(self)@ == old(self)@.write(addr as int, data@),
            result is Err ==> final(self)@ == old(self)@ && result->Err_0 == PmemError::OutOfRange,
    {
        let n: usize = self.latest.len();
        let m: usize = data.len();
        if m > n || addr > n - m {
            return Err(PmemError::OutOfRange);
        }
        if m > 0 {
            let (first, last) = self.covered_lines(addr, m);
            let mut l: usize = first;
            while l <= last
                invariant
                    first <= l <= last + 1,
                    last < self.states@.len() <= usize::MAX,
                    self.states@.len() == old(self).states@.len(),
                    self.latest == old(self).latest,
                    self.image == old(self).image,
                    self.granularity == old(self).granularity,
                    forall|k: int|
                        0 <= k < self.states@.len() ==> #[trigger] self.states@[k] == if first <= k
                            < l {
                            LineState::Dirty
                        } else {
                            old(self).states@[k]
                        },
                decreases last + 1 - l,
            {
                self.states[l] = LineState::Dirty;
                l += 1;
            }
        }
        let mut i: usize = 0;
        while i < m
            invariant
                i <= m,
                m == data@.len(),
                addr + m <= n,
                n == self.latest@.len(),
                self.states@ == old(self)@.write(addr as int, data@).states,
                self.image == old(self).image,
                self.granularity == old(self).granularity,
                self.latest@ == overlay(old(self).latest@, addr as int, data@.take(i as int)),
            decreases m - i,
        {
            self.latest[addr + i] = data[i];
            i += 1;
        }
        proof {
            assert(data@.take(m as int) =~= data@);
            lemma_write_wf(old(self)@, addr as int, data@);
        }
        Ok(())
    }

    /// A flush of `len` bytes at `addr`. Refused, with nothing changed, when
    /// the range leaves the region. Lines that are not `Dirty` stay as they
    /// are.
    pub fn flush(&mut self, addr: usize, len: usize) -> (result: Result<(), PmemError>)
        requires
            old(self).inv(),
        ensures
            final(self).inv(),
            final(self).spec_granularity() == old(self).spec_granularity(),
            result is Ok <==> addr + len <= old(self)@.len(),
            result is Ok ==> final(self)@ == old(self)@.flush(addr as int, len as int),
            result is Err ==> final(self)@ == old(self)@ && result->Err_0 == PmemError::OutOfRange,
    {
        let n: usize = self.latest.len();
        if len > n || addr > n - len {
            return Err(PmemError::OutOfRange);
        }
        if len > 0 {
            let (first, last) = self.covered_lines(addr, len);
            let mut l: usize = first;
            while l <= last
                invariant
                    first <= l <= last + 1,
                    last < self.states@.len() <= usize::MAX,
                    self.states@.len() == old(self).states@.len(),
                    self.latest == old(self).latest,
                    self.image == old(self).image,
                    self.granularity == old(self).granularity,
                    forall|k: int|
                        0 <= k < self.states@.len() ==> #[trigger] self.states@[k] == if first <= k
                            < l && old(self).states@[k] == LineState::Dirty {
                            LineState::Flushed
                        } else {
                            old(self).states@[k]
                        },
                decreases last + 1 - l,
            {
                if self.states[l] == LineState::Dirty {
                    self.states[l] = LineState::Flushed;
                }
                l += 1;
            }
        }
        proof {
            assert(self.states@ =~= old(self)@.flush(addr as int, len as int).states);
            lemma_flush_wf(old(self)@, addr as int, len as int);
        }
        Ok(())
    }

    /// The lines that hold a write which is not durable yet, in ascending
    /// order. Changes nothing.
    pub fn unpersisted_lines(&self) -> (lines: Vec<usize>)
        ensures
            lines@ == self@.pending_lines(),
    {
        let n: usize = self.states.len();
        let mut lines: Vec<usize> = Vec::new();
        let mut l: usize = 0;
        while l < n
            invariant
                l <= n,
                n == self.states@.len(),
                lines@ == pending_upto(self.states@, l as int),
            decreases n - l,
        {
            match self.states[l] {
                LineState::Dirty | LineState::Flushed => {
                    lines.push(l);
                },
                _ => {},
            }
            l += 1;
        }
        lines
    }

    /// A fence. Every `Flushed` line becomes `Persisted` and its bytes become
    /// durable; `Dirty` lines are left alone. Returns the fence record: the
    /// lines that were pending just before, in ascending order.
    pub fn fence(&mut self) -> (record: Vec<usize>)
        requires
            old(self).inv(),
        ensures
            final(self).inv(),
            final(self).spec_granularity() == old(self).spec_granularity(),
            record@ == old(self)@.pending_lines(),
            final(self)@ == old(self)@.fence(),
    {
        let ls: usize = self.granularity.line_size();
        let n: usize = self.states.len();
        let mut record: Vec<usize> = Vec::new();
        let mut l: usize = 0;
        while l < n
            invariant
                l <= n,
                ls == self.granularity.bytes(),
                ls > 0,
                n == self.states@.len(),
                n * ls == self.latest@.len(),
                n * ls <= usize::MAX,
                self.image@.len() == self.latest@.len(),
                self.latest == old(self).latest,
                self.granularity == old(self).granularity,
                self.states@.len() == old(self).states@.len(),
                self.image@.len() == old(self).image@.len(),
                record@ == pending_upto(old(self).states@, l as int),
                forall|k: int|
                    0 <= k < n ==> #[trigger] self.states@[k] == if k < l && old(self).states@[k]
                        == LineState::Flushed {
                        LineState::Persisted
                    } else {
                        old(self).states@[k]
                    },
                forall|b: int|
                    0 <= b < self.image@.len() ==> #[trigger] self.image@[b] == if b < l * ls
                        && old(self).states@[b / ls as int] == LineState::Flushed {
                        self.latest@[b]
                    } else {
                        old(self).image@[b]
                    },
            decreases n - l,
        {
            proof {
                lemma_line_order(ls as nat, l + 1, n as int);
                lemma_line_order(ls as nat, 0, l as int);
            }
            let start: usize = l * ls;
            match self.states[l] {
                LineState::Dirty => {
                    record.push(l);
                },
                LineState::Flushed => {
                    record.push(l);
                    let line = slice_subrange(self.latest.as_slice(), start, start + ls);
                    let _ = self.image.write(start, line);
                    self.states[l] = LineState::Persisted;
                },
                _ => {},
            }
            proof {
                assert forall|b: int| 0 <= b < self.image@.len() implies #[trigger] self.image@[b]
                    == if b < (l + 1) * ls && old(self).states@[b / ls as int]
                    == LineState::Flushed {
                    self.latest@[b]
                } else {
                    old(self).image@[b]
                } by {
                    if start <= b < start + ls {
                        lemma_byte_in_line(ls as nat, l as int, b);
                    }
                }
            }
            l += 1;
        }
        proof {
            assert(self@.states =~= old(self)@.fence().states);
            lemma_fence_wf(old(self)@);
        }
        record
    }

    /// Forces every line to `Persisted`: all that was written becomes durable.
    pub fn persist_all(&mut self)
        requires
            old(self).inv(),
        ensures
            final(self).inv(),
            final(self).spec_granularity() == old(self).spec_granularity(),
            final(self)@ == old(self)@.persist_all(),
    {
        let n: usize = self.states.len();
        let mut l: usize = 0;
        while l < n
            invariant
                l <= n,
                n == self.states@.len(),
                self.latest == old(self).latest,
                self.image == old(self).image,
                self.granularity == old(self).granularity,
                forall|k: int| 0 <= k < l ==> #[trigger] self.states@[k] == LineState::Persisted,
            decreases n - l,
        {
            self.states[l] = LineState::Persisted;
            l += 1;
        }
        let _ = self.image.write(0, self.latest.as_slice());
    }
}

} // verus!
