//! Candidate crash images: what the region may hold if power fails at a fence.
//!
//! For a fence that finds `k` pending lines, `k + 2` images are made, never
//! all `2^k` subsets: one in which none of the pending lines reached the
//! medium, one in which all did, and for each pending line one in which all
//! but that line did. With a single pending line the third form withholds
//! everything and so repeats the first image; it is kept all the same, so
//! that the number and the order of the images depend on `k` alone.

use vstd::prelude::*;
use vstd::slice::slice_subrange;
use vstd::slice::slice_to_vec;
use crate::image::overlay;
use crate::model::PersistentMemoryModel;
use crate::pmem::{
    lemma_byte_in_line, lemma_line_in_region, lemma_line_of_byte, lemma_line_order,
    lemma_pending_upto, with_lines, ModelView,
};

verus! {

/// Which of the pending lines an image takes to have reached the medium.
#[derive(Clone, Copy, Debug, PartialEq, Eq, Structural)]
pub enum ImageKind {
    /// None of them.
    NothingPersisted,
    /// All of them.
    AllPersisted,
    /// All of them but `line`.
    Withheld { line: usize },
}

impl ImageKind {
    /// Whether the image holds the latest bytes of line `line`, given that
    /// the line is pending.
    pub open spec fn admits(self, line: int) -> bool {
        match self {
            ImageKind::NothingPersisted => false,
            ImageKind::AllPersisted => true,
            ImageKind::Withheld { line: held } => line != held,
        }
    }
}

/// One candidate crash image. It is never changed once made.
#[derive(Clone, Debug, PartialEq, Eq)]
pub struct CrashImage {
    fence_id: usize,
    kind: ImageKind,
    data: Vec<u8>,
}

/// What a `CrashImage` stands for.
pub struct ImageView {
    pub fence_id: int,
    pub kind: ImageKind,
    pub data: Seq<u8>,
}

impl View for CrashImage {
    type V = ImageView;

    closed spec fn view(&self) -> ImageView {
        ImageView { fence_id: self.fence_id as int, kind: self.kind, data: self.data@ }
    }
}

impl CrashImage {
    /// The number of the fence at which the crash is taken to happen.
    pub fn fence_id(&self) -> (id: usize)
        ensures
            id == self@.fence_id,
    {
        self.fence_id
    }

    /// Which pending lines the image holds.
    pub fn kind(&self) -> (kind: ImageKind)
        ensures
            kind == self@.kind,
    {
        self.kind
    }

    /// The image's bytes.
    pub fn bytes(&self) -> (bytes: &[u8])
        ensures
            bytes@ == self@.data,
    {
        self.data.as_slice()
    }
}

/// The bytes of the image of the given kind: the durable bytes, with the
/// latest bytes of every pending line that the kind admits.
pub open spec fn image_content(m: ModelView, kind: ImageKind) -> Seq<u8> {
    with_lines(
        m.durable,
        m.latest,
        m.line_size,
        |l: int| 0 <= l < m.states.len() && m.states[l].is_pending() && kind.admits(l),
    )
}

/// The kind of the image at place `i` in a fence's list.
pub open spec fn candidate_kind(pending: Seq<usize>, i: int) -> ImageKind {
    if i == 0 {
        ImageKind::NothingPersisted
    } else if i == 1 {
        ImageKind::AllPersisted
    } else {
        ImageKind::Withheld { line: pending[i - 2] }
    }
}

/// The images for a fence that is about to be applied to `m`: none when no
/// line is pending, else two more than there are pending lines.
pub open spec fn candidates(m: ModelView, fence_id: int) -> Seq<ImageView> {
    let pending = m.pending_lines();
    if pending.len() == 0 {
        Seq::empty()
    } else {
        Seq::new(
            pending.len() + 2,
            |i: int|
                ImageView {
                    fence_id,
                    kind: candidate_kind(pending, i),
                    data: image_content(m, candidate_kind(pending, i)),
                },
        )
    }
}

/// What a list of images stands for.
pub open spec fn images_view(images: Seq<CrashImage>) -> Seq<ImageView> {
    images.map_values(|image: CrashImage| image@)
}

/// A fence with `k` pending lines yields at most `k + 2` images: none for
/// `k == 0`, else exactly `k + 2`.
pub proof fn law_candidate_count(m: ModelView, fence_id: int)
    ensures
        candidates(m, fence_id).len() <= m.pending_lines().len() + 2,
        m.pending_lines().len() > 0 ==> candidates(m, fence_id).len() == m.pending_lines().len()
            + 2,
        m.pending_lines().len() == 0 ==> candidates(m, fence_id).len() == 0,
{
}

/// The image in which everything persists holds what `persist_all` would
/// make durable. It is also the durable content with exactly the lines of the
/// fence record brought up to date.
pub proof fn law_all_persisted(m: ModelView)
    requires
        m.wf(),
        m.len() <= usize::MAX,
    ensures
        image_content(m, ImageKind::AllPersisted) == m.persist_all().durable,
        image_content(m, ImageKind::AllPersisted) == with_lines(
            m.durable,
            m.latest,
            m.line_size,
            |l: int| 0 <= l && m.pending_lines().contains(l as usize),
        ),
{
    let image = image_content(m, ImageKind::AllPersisted);
    let by_record = with_lines(
        m.durable,
        m.latest,
        m.line_size,
        |l: int| 0 <= l && m.pending_lines().contains(l as usize),
    );
    lemma_states_fit(m);
    assert forall|i: int| 0 <= i < m.durable.len() implies image[i] == m.latest[i] && image[i]
        == by_record[i] by {
        lemma_line_in_region(m, i);
        let l = i / m.line_size as int;
        crate::pmem::law_fence_record(m, l);
    }
}

/// The image in which nothing persists is the durable content.
pub proof fn law_nothing_persisted(m: ModelView)
    ensures
        image_content(m, ImageKind::NothingPersisted) == m.durable,
{
}

/// With one pending line, withholding it withholds everything: the image
/// repeats the one in which nothing persists.
pub proof fn law_single_pending_line(m: ModelView)
    requires
        m.wf(),
        m.len() <= usize::MAX,
        m.pending_lines().len() == 1,
    ensures
        image_content(m, ImageKind::Withheld { line: m.pending_lines()[0] }) == image_content(
            m,
            ImageKind::NothingPersisted,
        ),
{
    let held = m.pending_lines()[0];
    let image = image_content(m, ImageKind::Withheld { line: held });
    lemma_states_fit(m);
    assert forall|i: int| 0 <= i < m.durable.len() implies image[i] == m.durable[i] by {
        lemma_line_in_region(m, i);
        let l = i / m.line_size as int;
        crate::pmem::law_fence_record(m, l);
    }
    law_nothing_persisted(m);
}

/// A region has no more lines than bytes.
pub proof fn lemma_states_fit(m: ModelView)
    requires
        m.wf(),
    ensures
        m.states.len() <= m.len(),
{
    assert(m.states.len() <= m.durable.len()) by (nonlinear_arith)
        requires
            m.durable.len() == m.states.len() * m.line_size,
            m.line_size > 0,
    ;
}

/// Builds the image of the given kind from the model as it stands.
fn build_image(model: &PersistentMemoryModel, fence_id: usize, kind: ImageKind) -> (image:
    CrashImage)
    requires
        model.inv(),
        kind matches ImageKind::Withheld { line } ==> line < model@.states.len(),
    ensures
        image@ == (ImageView { fence_id: fence_id as int, kind, data: image_content(model@, kind) }),
{
    let ghost m = model@;
    let data = match kind {
        ImageKind::NothingPersisted => {
            proof {
                law_nothing_persisted(m);
            }
            slice_to_vec(model.content())
        },
        ImageKind::AllPersisted => {
            proof {
                law_all_persisted(m);
            }
            slice_to_vec(model.latest_content())
        },
        ImageKind::Withheld { line } => {
            let ls: usize = model.granularity().line_size();
            proof {
                lemma_line_order(ls as nat, line + 1, m.states.len() as int);
                lemma_line_order(ls as nat, 0, line as int);
            }
            let start: usize = line * ls;
            let mut data = slice_to_vec(model.latest_content());
            let held = slice_subrange(model.content(), start, start + ls);
            let mut i: usize = 0;
            while i < ls
                invariant
                    i <= ls,
                    start + ls <= data@.len() <= usize::MAX,
                    start + ls <= m.durable.len(),
                    held@.len() == ls,
                    held@ == m.durable.subrange(start as int, start + ls),
                    data@ == overlay(m.latest, start as int, held@.take(i as int)),
                decreases ls - i,
            {
                data[start + i] = held[i];
                i += 1;
            }
            proof {
                let want = image_content(m, kind);
                assert forall|b: int| 0 <= b < m.durable.len() implies data@[b] == want[b] by {
                    lemma_line_in_region(m, b);
                    if start <= b < start + ls {
                        lemma_byte_in_line(m.line_size, line as int, b);
                    } else {
                        lemma_line_of_byte(m.line_size, b);
                    }
                }
                assert(data@ =~= want);
            }
            data
        },
    };
    CrashImage { fence_id, kind, data }
}

/// The candidate crash images for a fence that is about to be applied to
/// `model`, numbered `fence_id`: first the image in which nothing new
/// persists, then the one in which everything does, then one per pending
/// line, in ascending order of the line withheld. Empty when no line is
/// pending.
pub fn crash_images(model: &PersistentMemoryModel, fence_id: usize) -> (images: Vec<CrashImage>)
    requires
        model.inv(),
    ensures
        images_view(images@) == candidates(model@, fence_id as int),
{
    let pending = model.unpersisted_lines();
    let mut images: Vec<CrashImage> = Vec::new();
    let k: usize = pending.len();
    if k == 0 {
        return images;
    }
    proof {
        lemma_pending_upto(model@.states, model@.states.len() as int);
        lemma_states_fit(model@);
    }
    images.push(build_image(model, fence_id, ImageKind::NothingPersisted));
    images.push(build_image(model, fence_id, ImageKind::AllPersisted));
    let mut j: usize = 0;
    while j < k
        invariant
            j <= k,
            k == pending@.len(),
            k > 0,
            model.inv(),
            pending@ == model@.pending_lines(),
            forall|i: int| 0 <= i < k ==> (#[trigger] pending@[i]) < model@.states.len(),
            images@.len() == j + 2,
            forall|i: int|
                0 <= i < j + 2 ==> (#[trigger] images@[i])@ == candidates(
                    model@,
                    fence_id as int,
                )[i],
        decreases k - j,
    {
        let line: usize = pending[j];
        let image = build_image(model, fence_id, ImageKind::Withheld { line });
        images.push(image);
        j += 1;
    }
    images
}

} // verus!
