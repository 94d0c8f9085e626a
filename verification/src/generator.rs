//! The pipeline of one test: trace, replay, extract.
//!
//! The stages run in this order and no other. Launching the traced program
//! and fingerprinting an image are done by the caller, who reports here what
//! came of them.

use vstd::prelude::*;
use crate::crash::{candidates, crash_images, images_view, CrashImage, ImageView};
use crate::image::{MemoryImage, PmemError};
use crate::model::PersistentMemoryModel;
use crate::pmem::{LineGranularity, ModelView};
use crate::replay::{
    lemma_step_advances, run, step, MemoryReplayer, ReplayError, ReplayerView,
};
use crate::semantic::{distinct, fold_one, ImageId, SemanticStates, StateView};
use crate::trace::{decode_at, lemma_decode_advances, DecodeError, OpView};

verus! {

/// How far a test has come.
#[derive(Clone, Copy, Debug, PartialEq, Eq, Structural)]
pub enum Stage {
    Created,
    Traced,
    Replayed,
    StatesExtracted,
    Failed,
}

impl Stage {
    /// The order of the stages: a test stays where it is, moves one stage
    /// on, or fails.
    pub open spec fn may_become(self, next: Stage) -> bool {
        ||| next == self
        ||| next == Stage::Failed
        ||| (self == Stage::Created && next == Stage::Traced)
        ||| (self == Stage::Traced && next == Stage::Replayed)
        ||| (self == Stage::Replayed && next == Stage::StatesExtracted)
    }
}

/// What is to be done with a test's coverage file.
#[derive(Clone, Copy, Debug, PartialEq, Eq, Structural)]
pub enum CoverageStep {
    /// Add it to the shared coverage.
    Merge,
    /// There is none: the test was traced without coverage.
    Nothing,
}

/// Why a stage failed or a call was refused.
#[derive(Clone, Copy, Debug, PartialEq, Eq, Structural)]
pub enum GeneratorError {
    /// The region's length does not fit its granularity.
    Config(PmemError),
    /// The call does not belong to the stage the test is in.
    WrongStage { found: Stage },
    /// The traced program could not be launched.
    TracerFailed,
    /// The traced program ran and left no trace.
    NoTrace,
    /// A record of the trace could not be applied.
    Replay(ReplayError),
    /// There is not one extraction outcome per crash image.
    OutcomeCount { expected: usize, given: usize },
    /// `failed` images could not be fingerprinted; `first` is the first of them.
    Extraction { failed: usize, first: usize },
}

/// What a replay with image generation comes to.
pub struct Collected {
    pub images: Seq<ImageView>,
    pub error: Option<ReplayError>,
    pub replayer: ReplayerView,
    pub model: ModelView,
}

/// Replays from the cursor on. Before each fence the candidate images for it
/// are taken from the model as it stands. The first record in error ends the
/// replay.
pub open spec fn collect(r: ReplayerView, m: ModelView) -> Collected
    decreases r.trace.len() - r.cursor,
    via collect_decreases
{
    if 0 <= r.cursor < r.trace.len() {
        let here = if decode_at(r.trace, r.cursor).outcome == Ok::<OpView, DecodeError>(
            OpView::Fence,
        ) {
            candidates(m, r.fences)
        } else {
            Seq::empty()
        };
        let s = step(r, m);
        match s.result {
            Err(e) => Collected { images: here, error: Some(e), replayer: s.replayer, model: s.model },
            Ok(_) => {
                let rest = collect(s.replayer, s.model);
                Collected { images: here + rest.images, ..rest }
            },
        }
    } else {
        Collected { images: Seq::empty(), error: None, replayer: r, model: m }
    }
}

#[via_fn]
proof fn collect_decreases(r: ReplayerView, m: ModelView) {
    if 0 <= r.cursor < r.trace.len() {
        lemma_decode_advances(r.trace, r.cursor);
    }
}

/// A fresh model over `len` zero bytes.
pub open spec fn blank(len: nat, granularity: LineGranularity) -> ModelView {
    ModelView::fresh(Seq::new(len, |i: int| 0u8), granularity.bytes())
}

/// A replay that meets no error ends with the same model and the same
/// replayer whether images are taken on the way or not, and every record
/// was applied.
pub proof fn law_collect_follows_run(r: ReplayerView, m: ModelView)
    requires
        collect(r, m).error is None,
    ensures
        collect(r, m).model == run(r, m).model,
        collect(r, m).replayer == run(r, m).replayer,
        forall|i: int| 0 <= i < run(r, m).results.len() ==> (#[trigger] run(r, m).results[i]) is Ok,
    decreases r.trace.len() - r.cursor,
{
    if 0 <= r.cursor < r.trace.len() {
        lemma_step_advances(r, m);
        let s = step(r, m);
        law_collect_follows_run(s.replayer, s.model);
    }
}

/// What a list of extraction outcomes stands for.
pub open spec fn outcomes_view(outcomes: Seq<Option<Vec<u8>>>) -> Seq<Option<Seq<u8>>> {
    outcomes.map_values(
        |o: Option<Vec<u8>>|
            match o {
                Some(fingerprint) => Some(fingerprint@),
                None => None,
            },
    )
}

/// The states after the first `n` outcomes were folded in, in the order of
/// the images. An image without a fingerprint is passed over.
pub open spec fn fold_outcomes(
    states: Seq<StateView>,
    images: Seq<ImageView>,
    outcomes: Seq<Option<Seq<u8>>>,
    n: int,
) -> Seq<StateView>
    decreases n,
{
    if n <= 0 {
        states
    } else {
        let before = fold_outcomes(states, images, outcomes, n - 1);
        match outcomes[n - 1] {
            Some(fingerprint) => fold_one(
                before,
                fingerprint,
                ImageId { fence_id: images[n - 1].fence_id as usize, image: (n - 1) as usize },
            ),
            None => before,
        }
    }
}

/// The images among the first `n` that have no fingerprint, in ascending
/// order.
pub open spec fn failures(outcomes: Seq<Option<Seq<u8>>>, n: int) -> Seq<usize>
    decreases n,
{
    if n <= 0 {
        Seq::empty()
    } else if outcomes[n - 1] is None {
        failures(outcomes, n - 1).push((n - 1) as usize)
    } else {
        failures(outcomes, n - 1)
    }
}

/// What a generator stands for.
#[verifier::ext_equal]
pub struct GeneratorView {
    pub pmem_len: nat,
    pub granularity: LineGranularity,
    pub stage: Stage,
    pub images: Seq<ImageView>,
    pub states: Seq<StateView>,
}

/// One test's crash images and semantic states, and the stage it is in.
#[derive(Debug)]
pub struct HeuristicCrashImageGenerator {
    pmem_len: usize,
    granularity: LineGranularity,
    stage: Stage,
    crash_images: Vec<CrashImage>,
    semantic_states: SemanticStates,
}

impl View for HeuristicCrashImageGenerator {
    type V = GeneratorView;

    closed spec fn view(&self) -> GeneratorView {
        GeneratorView {
            pmem_len: self.pmem_len as nat,
            granularity: self.granularity,
            stage: self.stage,
            images: images_view(self.crash_images@),
            states: self.semantic_states@,
        }
    }
}

impl HeuristicCrashImageGenerator {
    /// What every generator satisfies from `new` on: the region is a
    /// positive whole number of lines, images exist only once the trace was
    /// replayed, and no fingerprint occurs twice among the states.
    pub open spec fn inv(&self) -> bool {
        &&& self@.pmem_len > 0
        &&& self@.pmem_len % self@.granularity.bytes() == 0
        &&& distinct(self@.states)
        &&& (self@.stage == Stage::Created || self@.stage == Stage::Traced) ==> self@.images.len()
            == 0
        &&& (self@.stage == Stage::Created || self@.stage == Stage::Traced || self@.stage
            == Stage::Replayed) ==> self@.states.len() == 0
    }

    /// A test over a region of `pmem_len` bytes. Refused when the length is
    /// zero or not a whole number of lines.
    pub fn new(pmem_len: usize, granularity: LineGranularity) -> (result: Result<
        HeuristicCrashImageGenerator,
        GeneratorError,
    >)
        ensures
            result is Ok <==> pmem_len > 0 && pmem_len as nat % granularity.bytes() == 0,
            result is Ok ==> result->Ok_0.inv() && result->Ok_0@ == (GeneratorView {
                pmem_len: pmem_len as nat,
                granularity,
                stage: Stage::Created,
                images: Seq::empty(),
                states: Seq::empty(),
            }),
            result is Err ==> result->Err_0 == GeneratorError::Config(PmemError::InvalidLength),
    {
        if pmem_len == 0 || pmem_len % granularity.line_size() != 0 {
            return Err(GeneratorError::Config(PmemError::InvalidLength));
        }
        let generator = HeuristicCrashImageGenerator {
            pmem_len,
            granularity,
            stage: Stage::Created,
            crash_images: Vec::new(),
            semantic_states: SemanticStates::new(),
        };
        Ok(generator)
    }

    /// The stage the test is in.
    pub fn stage(&self) -> (stage: Stage)
        ensures
            stage == self@.stage,
    {
        self.stage
    }

    /// The crash images, in the order of their fences.
    pub fn crash_images(&self) -> (images: &[CrashImage])
        ensures
            images_view(images@) == self@.images,
    {
        self.crash_images.as_slice()
    }

    /// The semantic states found so far.
    pub fn semantic_states(&self) -> (states: &SemanticStates)
        ensures
            states@ == self@.states,
    {
        &self.semantic_states
    }

    /// What to do about the coverage file of this test. That there is none
    /// is no error.
    pub fn merge_cov_files(&self, file_present: bool) -> (step: CoverageStep)
        ensures
            step == if file_present {
                CoverageStep::Merge
            } else {
                CoverageStep::Nothing
            },
    {
        if file_present {
            CoverageStep::Merge
        } else {
            CoverageStep::Nothing
        }
    }

    /// Marks the test as failed, whatever stage it is in.
    pub fn fail(&mut self)
        requires
            old(self).inv(),
        ensures
            final(self).inv(),
            old(self)@.stage.may_become(final(self)@.stage),
            final(self)@ == (GeneratorView { stage: Stage::Failed, ..old(self)@ }),
    {
        self.stage = Stage::Failed;
    }

    /// Takes note of how tracing ended: `None` when the traced program could
    /// not be launched, else the length of the trace it left. Only a
    /// non-empty trace takes the test to `Traced`; otherwise the test has
    /// failed. Refused, with nothing changed, unless the test is `Created`.
    pub fn trace_pre_failure(&mut self, trace_len: Option<usize>) -> (result: Result<
        (),
        GeneratorError,
    >)
        requires
            old(self).inv(),
        ensures
            final(self).inv(),
            old(self)@.stage.may_become(final(self)@.stage),
            result == if old(self)@.stage != Stage::Created {
                Err::<(), GeneratorError>(GeneratorError::WrongStage { found: old(self)@.stage })
            } else {
                match trace_len {
                    None => Err(GeneratorError::TracerFailed),
                    Some(n) => if n == 0 {
                        Err(GeneratorError::NoTrace)
                    } else {
                        Ok(())
                    },
                }
            },
            final(self)@ == (GeneratorView {
                stage: if old(self)@.stage != Stage::Created {
                    old(self)@.stage
                } else if result is Ok {
                    Stage::Traced
                } else {
                    Stage::Failed
                },
                ..old(self)@
            }),
    {
        if self.stage != Stage::Created {
            return Err(GeneratorError::WrongStage { found: self.stage });
        }
        match trace_len {
            None => {
                self.stage = Stage::Failed;
                Err(GeneratorError::TracerFailed)
            },
            Some(n) => {
                if n == 0 {
                    self.stage = Stage::Failed;
                    Err(GeneratorError::NoTrace)
                } else {
                    self.stage = Stage::Traced;
                    Ok(())
                }
            },
        }
    }

    /// Replays `trace` against a fresh model of zero bytes and keeps the
    /// candidate crash images of every fence that finds pending lines.
    /// Returns the number of such fences. The first record that cannot be
    /// applied fails the test, and no image is kept. Refused, with nothing
    /// changed, unless the test is `Traced`.
    pub fn replay(&mut self, trace: Vec<u8>) -> (result: Result<usize, GeneratorError>)
        requires
            old(self).inv(),
        ensures
            final(self).inv(),
            old(self)@.stage.may_become(final(self)@.stage),
            old(self)@.stage != Stage::Traced ==> final(self)@ == old(self)@ && result == Err::<
                usize,
                GeneratorError,
            >(GeneratorError::WrongStage { found: old(self)@.stage }),
            old(self)@.stage == Stage::Traced ==> {
                let c = collect(
                    ReplayerView::at_start(trace@),
                    blank(old(self)@.pmem_len, old(self)@.granularity),
                );
                match c.error {
                    Some(e) => {
                        &&& result == Err::<usize, GeneratorError>(GeneratorError::Replay(e))
                        &&& final(self)@ == (GeneratorView { stage: Stage::Failed, ..old(self)@ })
                    },
                    None => {
                        &&& result == Ok::<usize, GeneratorError>(
                            c.replayer.with_writes.len() as usize,
                        )
                        &&& final(self)@ == (GeneratorView {
                            stage: Stage::Replayed,
                            images: c.images,
                            ..old(self)@
                        })
                    },
                }
            },
    {
        if self.stage != Stage::Traced {
            return Err(GeneratorError::WrongStage { found: self.stage });
        }
        let created = PersistentMemoryModel::new(MemoryImage::new(self.pmem_len), self.granularity);
        let mut model = match created {
            Ok(model) => model,
            Err(e) => {
                return Err(GeneratorError::Config(e));
            },
        };
        let mut replayer = MemoryReplayer::new(trace);
        let mut images: Vec<CrashImage> = Vec::new();
        let ghost whole = collect(replayer@, model@);
        while !replayer.is_done()
            invariant
                replayer.inv(),
                model.inv(),
                self == old(self),
                old(self).inv(),
                old(self)@.stage == Stage::Traced,
                whole == collect(
                    ReplayerView::at_start(trace@),
                    blank(old(self)@.pmem_len, old(self)@.granularity),
                ),
                whole.images == images_view(images@) + collect(replayer@, model@).images,
                whole.error == collect(replayer@, model@).error,
                whole.replayer == collect(replayer@, model@).replayer,
                whole.model == collect(replayer@, model@).model,
            decreases replayer@.trace.len() - replayer@.cursor,
        {
            proof {
                lemma_step_advances(replayer@, model@);
            }
            if replayer.next_is_fence() {
                let mut found = crash_images(&model, replayer.fence_count());
                images.append(&mut found);
            }
            match replayer.next_entry(&mut model) {
                Some(Err(e)) => {
                    self.stage = Stage::Failed;
                    return Err(GeneratorError::Replay(e));
                },
                _ => {},
            }
        }
        self.crash_images = images;
        self.stage = Stage::Replayed;
        Ok(replayer.fences_with_writes().len())
    }

    /// Folds the fingerprints of the crash images into semantic states.
    /// `outcomes` holds one entry per crash image, in the order of the
    /// images: the fingerprint, or `None` where fingerprinting failed. Every
    /// fingerprint is folded in, whatever failed beside it; the call then
    /// fails if any did. Refused, with nothing changed, unless the test is
    /// `Replayed` and there is one outcome per image.
    pub fn extract_semantic_states(&mut self, outcomes: Vec<Option<Vec<u8>>>) -> (result: Result<
        usize,
        GeneratorError,
    >)
        requires
            old(self).inv(),
        ensures
            final(self).inv(),
            old(self)@.stage.may_become(final(self)@.stage),
            old(self)@.stage != Stage::Replayed ==> final(self)@ == old(self)@ && result == Err::<
                usize,
                GeneratorError,
            >(GeneratorError::WrongStage { found: old(self)@.stage }),
            old(self)@.stage == Stage::Replayed && outcomes@.len() != old(self)@.images.len()
                ==> final(self)@ == old(self)@ && result == Err::<usize, GeneratorError>(
                GeneratorError::OutcomeCount {
                    expected: old(self)@.images.len() as usize,
                    given: outcomes@.len() as usize,
                },
            ),
            old(self)@.stage == Stage::Replayed && outcomes@.len() == old(self)@.images.len() ==> {
                let o = outcomes_view(outcomes@);
                let n = outcomes@.len() as int;
                let failed = failures(o, n);
                let states = fold_outcomes(Seq::empty(), old(self)@.images, o, n);
                &&& final(self)@ == (GeneratorView {
                    stage: if failed.len() == 0 {
                        Stage::StatesExtracted
                    } else {
                        Stage::Failed
                    },
                    states,
                    ..old(self)@
                })
                &&& result == if failed.len() == 0 {
                    Ok::<usize, GeneratorError>(states.len() as usize)
                } else {
                    Err(
                        GeneratorError::Extraction {
                            failed: failed.len() as usize,
                            first: failed[0],
                        },
                    )
                }
            },
    {
        if self.stage != Stage::Replayed {
            return Err(GeneratorError::WrongStage { found: self.stage });
        }
        let n: usize = self.crash_images.len();
        if outcomes.len() != n {
            return Err(GeneratorError::OutcomeCount { expected: n, given: outcomes.len() });
        }
        let ghost o = outcomes_view(outcomes@);
        let ghost images = old(self)@.images;
        let mut failed: usize = 0;
        let mut first: usize = 0;
        let mut i: usize = 0;
        while i < n
            invariant
                i <= n,
                n == outcomes@.len(),
                n == self.crash_images@.len(),
                o == outcomes_view(outcomes@),
                images == images_view(self.crash_images@),
                self.crash_images == old(self).crash_images,
                self.pmem_len == old(self).pmem_len,
                self.granularity == old(self).granularity,
                self.stage == old(self).stage,
                self.semantic_states.inv(),
                self.semantic_states@ == fold_outcomes(Seq::empty(), images, o, i as int),
                failed == failures(o, i as int).len(),
                failed <= i,
                failed > 0 ==> first == failures(o, i as int)[0],
            decreases n - i,
        {
            match &outcomes[i] {
                Some(fingerprint) => {
                    let id = ImageId { fence_id: self.crash_images[i].fence_id(), image: i };
                    self.semantic_states.fold(fingerprint.as_slice(), id);
                },
                None => {
                    if failed == 0 {
                        first = i;
                    }
                    failed += 1;
                },
            }
            i += 1;
        }
        if failed == 0 {
            self.stage = Stage::StatesExtracted;
            Ok(self.semantic_states.len())
        } else {
            self.stage = Stage::Failed;
            Err(GeneratorError::Extraction { failed, first })
        }
    }
}

/// What is left of a region after a trace: the bytes to write out, and the
/// lines that were still pending when the trace ended.
#[derive(Clone, Debug, PartialEq, Eq)]
pub struct PmemDump {
    pub content: Vec<u8>,
    pub unpersisted: Vec<usize>,
}

/// Whether a region of `len` bytes is a positive whole number of lines.
pub open spec fn fits(len: usize, granularity: LineGranularity) -> bool {
    len > 0 && len as nat % granularity.bytes() == 0
}

/// Replays `trace` against a fresh region of `pmem_len` zero bytes and hands
/// back what the region holds afterwards: its durable bytes, or, with
/// `include_unpersisted`, those bytes with every pending line forced out.
/// The first record that cannot be applied ends the replay in failure.
pub fn process_trace(
    pmem_len: usize,
    granularity: LineGranularity,
    include_unpersisted: bool,
    trace: Vec<u8>,
) -> (result: Result<PmemDump, GeneratorError>)
    ensures
        !fits(pmem_len, granularity) ==> result == Err::<PmemDump, GeneratorError>(
            GeneratorError::Config(PmemError::InvalidLength),
        ),
        fits(pmem_len, granularity) ==> {
            let c = collect(ReplayerView::at_start(trace@), blank(pmem_len as nat, granularity));
            match c.error {
                Some(e) => result == Err::<PmemDump, GeneratorError>(GeneratorError::Replay(e)),
                None => {
                    &&& result is Ok
                    &&& result->Ok_0.unpersisted@ == c.model.pending_lines()
                    &&& result->Ok_0.content@ == if include_unpersisted {
                        c.model.persist_all().durable
                    } else {
                        c.model.durable
                    }
                },
            }
        },
{
    let created = PersistentMemoryModel::new(MemoryImage::new(pmem_len), granularity);
    let mut model = match created {
        Ok(model) => model,
        Err(e) => {
            return Err(GeneratorError::Config(e));
        },
    };
    let mut replayer = MemoryReplayer::new(trace);
    let ghost whole = collect(replayer@, model@);
    while !replayer.is_done()
        invariant
            replayer.inv(),
            model.inv(),
            fits(pmem_len, granularity),
            whole == collect(ReplayerView::at_start(trace@), blank(pmem_len as nat, granularity)),
            whole.error == collect(replayer@, model@).error,
            whole.model == collect(replayer@, model@).model,
        decreases replayer@.trace.len() - replayer@.cursor,
    {
        proof {
            lemma_step_advances(replayer@, model@);
        }
        match replayer.next_entry(&mut model) {
            Some(Err(e)) => {
                return Err(GeneratorError::Replay(e));
            },
            _ => {},
        }
    }
    let unpersisted = model.unpersisted_lines();
    if include_unpersisted {
        model.persist_all();
    }
    Ok(PmemDump { content: model.into_image().into_bytes(), unpersisted })
}

} // verus!
