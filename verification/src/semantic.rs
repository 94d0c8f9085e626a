//! Semantic states: crash images grouped by the fingerprint of what they
//! decode to.
//!
//! A fingerprint is the canonical snapshot that the fingerprinting stage made
//! of an image, as bytes. Two images belong to one semantic state exactly
//! when their fingerprints are equal byte for byte.

use vstd::prelude::*;
use vstd::slice::slice_to_vec;

verus! {

/// Names a crash image: the fence it belongs to and its place in the list of
/// all images.
#[derive(Clone, Copy, Debug, PartialEq, Eq, Structural)]
pub struct ImageId {
    pub fence_id: usize,
    pub image: usize,
}

/// One semantic state: a fingerprint, the first image that showed it, and
/// every image that showed it, in the order in which they were folded in.
#[derive(Clone, Debug, PartialEq, Eq)]
pub struct SemanticState {
    fingerprint: Vec<u8>,
    representative: ImageId,
    contributors: Vec<ImageId>,
}

/// What a `SemanticState` stands for.
pub struct StateView {
    pub fingerprint: Seq<u8>,
    pub representative: ImageId,
    pub contributors: Seq<ImageId>,
}

impl View for SemanticState {
    type V = StateView;

    closed spec fn view(&self) -> StateView {
        StateView {
            fingerprint: self.fingerprint@,
            representative: self.representative,
            contributors: self.contributors@,
        }
    }
}

impl SemanticState {
    /// The fingerprint all contributors share.
    pub fn fingerprint(&self) -> (bytes: &[u8])
        ensures
            bytes@ == self@.fingerprint,
    {
        self.fingerprint.as_slice()
    }

    /// The first image that showed this state.
    pub fn representative(&self) -> (id: ImageId)
        ensures
            id == self@.representative,
    {
        self.representative
    }

    /// Every image that showed this state.
    pub fn contributors(&self) -> (ids: &[ImageId])
        ensures
            ids@ == self@.contributors,
    {
        self.contributors.as_slice()
    }
}

/// Whether some state has the fingerprint `fp`.
pub open spec fn holds(states: Seq<StateView>, fp: Seq<u8>) -> bool {
    exists|k: int| 0 <= k < states.len() && (#[trigger] states[k]).fingerprint == fp
}

/// No fingerprint occurs twice, and every state lists its representative
/// first among its contributors.
pub open spec fn distinct(states: Seq<StateView>) -> bool {
    &&& forall|j: int, k: int|
        0 <= j < k < states.len() ==> (#[trigger] states[j]).fingerprint != (
        #[trigger] states[k]).fingerprint
    &&& forall|k: int|
        0 <= k < states.len() ==> (#[trigger] states[k]).contributors.len() > 0
            && states[k].contributors[0] == states[k].representative
}

/// Folds one image in: it joins the state with its fingerprint, or founds a
/// new state at the end.
pub open spec fn fold_one(states: Seq<StateView>, fp: Seq<u8>, id: ImageId) -> Seq<StateView> {
    if holds(states, fp) {
        let k = choose|k: int| 0 <= k < states.len() && (#[trigger] states[k]).fingerprint == fp;
        states.update(
            k,
            StateView {
                fingerprint: fp,
                representative: states[k].representative,
                contributors: states[k].contributors.push(id),
            },
        )
    } else {
        states.push(StateView { fingerprint: fp, representative: id, contributors: seq![id] })
    }
}

/// Folding keeps fingerprints distinct, and afterwards some state has the
/// folded fingerprint.
pub proof fn lemma_fold_one(states: Seq<StateView>, fp: Seq<u8>, id: ImageId)
    requires
        distinct(states),
    ensures
        distinct(fold_one(states, fp, id)),
        holds(fold_one(states, fp, id), fp),
        holds(states, fp) ==> fold_one(states, fp, id).len() == states.len(),
        !holds(states, fp) ==> fold_one(states, fp, id).len() == states.len() + 1,
{
    let after = fold_one(states, fp, id);
    if holds(states, fp) {
        let k = choose|k: int| 0 <= k < states.len() && (#[trigger] states[k]).fingerprint == fp;
        assert(after[k].fingerprint == fp);
    } else {
        assert(after[states.len() as int].fingerprint == fp);
    }
}

/// Two images with the same fingerprint end up in one state: the second fold
/// adds no state, exactly one state has that fingerprint, and it lists both
/// images, so at least two.
pub proof fn law_equal_fingerprints_collapse(
    states: Seq<StateView>,
    fp: Seq<u8>,
    first: ImageId,
    second: ImageId,
)
    requires
        distinct(states),
    ensures
        ({
            let once = fold_one(states, fp, first);
            let twice = fold_one(once, fp, second);
            &&& distinct(twice)
            &&& twice.len() == once.len()
            &&& exists|k: int|
                0 <= k < twice.len() && (#[trigger] twice[k]).fingerprint == fp
                    && twice[k].contributors.len() >= 2 && twice[k].contributors.contains(first)
                    && twice[k].contributors.contains(second) && forall|j: int|
                    0 <= j < twice.len() && j != k ==> (#[trigger] twice[j]).fingerprint != fp
        }),
{
    let once = fold_one(states, fp, first);
    let twice = fold_one(once, fp, second);
    lemma_fold_one(states, fp, first);
    lemma_fold_one(once, fp, second);
    let k = choose|k: int| 0 <= k < once.len() && (#[trigger] once[k]).fingerprint == fp;
    let before = once[k].contributors;
    assert(before.contains(first)) by {
        if holds(states, fp) {
            assert(before[before.len() - 1] == first);
        }
    }
    let i = choose|i: int| 0 <= i < before.len() && before[i] == first;
    let now = twice[k].contributors;
    assert(now[i] == first);
    assert(now[before.len() as int] == second);
}

/// Whether two byte strings are equal.
pub fn bytes_equal(a: &[u8], b: &[u8]) -> (same: bool)
    ensures
        same == (a@ == b@),
{
    if a.len() != b.len() {
        return false;
    }
    let n: usize = a.len();
    let mut i: usize = 0;
    while i < n
        invariant
            i <= n,
            n == a@.len(),
            n == b@.len(),
            forall|j: int| 0 <= j < i ==> a@[j] == b@[j],
        decreases n - i,
    {
        if a[i] != b[i] {
            return false;
        }
        i += 1;
    }
    assert(a@ =~= b@);
    true
}

/// The semantic states found so far, no fingerprint twice.
#[derive(Debug)]
pub struct SemanticStates {
    states: Vec<SemanticState>,
}

/// What a list of states stands for.
pub open spec fn states_view(states: Seq<SemanticState>) -> Seq<StateView> {
    states.map_values(|s: SemanticState| s@)
}

impl View for SemanticStates {
    type V = Seq<StateView>;

    closed spec fn view(&self) -> Seq<StateView> {
        states_view(self.states@)
    }
}

impl SemanticStates {
    /// What every collection satisfies from `new` on.
    pub open spec fn inv(&self) -> bool {
        distinct(self@)
    }

    /// No states.
    pub fn new() -> (states: SemanticStates)
        ensures
            states.inv(),
            states@ == Seq::<StateView>::empty(),
    {
        let states = SemanticStates { states: Vec::new() };
        states
    }

    /// The number of states.
    pub fn len(&self) -> (n: usize)
        ensures
            n == self@.len(),
    {
        self.states.len()
    }

    /// The state at place `k`, in the order in which the states were founded.
    pub fn get(&self, k: usize) -> (state: Option<&SemanticState>)
        ensures
            state is Some <==> k < self@.len(),
            state is Some ==> state->Some_0@ == self@[k as int],
    {
        if k < self.states.len() {
            Some(&self.states[k])
        } else {
            None
        }
    }

    /// Folds the image `id`, whose fingerprint is `fingerprint`, into the
    /// states.
    pub fn fold(&mut self, fingerprint: &[u8], id: ImageId)
        requires
            old(self).inv(),
        ensures
            final(self).inv(),
            final(self)@ == fold_one(old(self)@, fingerprint@, id),
    {
        let n: usize = self.states.len();
        let mut k: usize = 0;
        while k < n
            invariant
                k <= n,
                n == self.states@.len(),
                self.states == old(self).states,
                old(self).inv(),
                forall|j: int| 0 <= j < k ==> (#[trigger] self@[j]).fingerprint != fingerprint@,
            decreases n - k,
        {
            if bytes_equal(self.states[k].fingerprint.as_slice(), fingerprint) {
                assert(self@[k as int].fingerprint == fingerprint@);
                self.states[k].contributors.push(id);
                proof {
                    lemma_fold_one(old(self)@, fingerprint@, id);
                    assert(self@ =~= fold_one(old(self)@, fingerprint@, id));
                }
                return ;
            }
            k += 1;
        }
        let mut contributors: Vec<ImageId> = Vec::new();
        contributors.push(id);
        self.states.push(
            SemanticState { fingerprint: slice_to_vec(fingerprint), representative: id, contributors },
        );
        proof {
            lemma_fold_one(old(self)@, fingerprint@, id);
            assert(self@ =~= fold_one(old(self)@, fingerprint@, id));
        }
    }
}

} // verus!
