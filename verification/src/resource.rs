//! The shared-resource slot: a lazy, load-once singleton. The slot is
//! guarded by the caller's exclusion; within that exclusion these
//! operations decide whether a load runs, so the expensive load
//! executes at most once for the life of the process and every later
//! caller shares the identical handle. A failed load leaves the slot
//! empty and is reported to the current caller only: the next caller
//! retries from scratch.

use vstd::prelude::*;

verus! {

use crate::errors::HubError;

/// The model of one loaded instance of the shared resource. Callers
/// that hold equal handles share the same underlying instance.
#[derive(Clone, Copy, Debug, PartialEq, Eq, Structural)]
pub struct ResourceHandle {
    pub token: u64,
}

/// What the artifact loader produced when it was actually run: the
/// artifact was absent, present but unreadable, or loaded.
#[derive(Debug)]
pub enum LoadOutcome {
    Missing,
    Malformed(String),
    Loaded(ResourceHandle),
}

/// The slot transition: an occupied slot is untouched (the outcome of
/// any concurrent load attempt is irrelevant); an empty slot fills
/// exactly when the load succeeded.
pub open spec fn loader_next(
    slot: Option<ResourceHandle>,
    outcome: LoadOutcome,
) -> Option<ResourceHandle> {
    match slot {
        Some(h) => Some(h),
        None => match outcome {
            LoadOutcome::Loaded(h) => Some(h),
            _ => None,
        },
    }
}

/// The slot state after a whole sequence of calls, first call first.
pub open spec fn run_loader(
    slot: Option<ResourceHandle>,
    outcomes: Seq<LoadOutcome>,
) -> Option<ResourceHandle>
    decreases outcomes.len(),
{
    if outcomes.len() == 0 {
        slot
    } else {
        run_loader(loader_next(slot, outcomes[0]), outcomes.drop_first())
    }
}

/// Holds the shared resource once it is loaded; `None` until then.
/// There is no transition back: nothing ever unloads the resource.
pub struct AIState {
    model: Option<ResourceHandle>,
}

impl View for AIState {
    type V = Option<ResourceHandle>;

    closed spec fn view(&self) -> Option<ResourceHandle> {
        self.model
    }
}

impl AIState {
    /// A fresh state: nothing loaded yet.
    pub fn new() -> (r: AIState)
        ensures
            r@ is None,
    {
        AIState { model: None }
    }

    /// The load-once, share-many step, run under the caller's
    /// exclusive guard on this state. `outcome` is what the loader
    /// produced if it was run for this call; an already-loaded slot
    /// returns its handle without looking at it. `artifact_path` is
    /// where the artifact was sought, for the error text.
    pub fn get_or_load(
        &mut self,
        artifact_path: &str,
        outcome: LoadOutcome,
    ) -> (r: Result<ResourceHandle, HubError>)
        ensures
            final(self)@ == loader_next(old(self)@, outcome),
            old(self)@ matches Some(h) ==> r == Ok::<ResourceHandle, HubError>(h),
            old(self)@ is None ==> match outcome {
                LoadOutcome::Missing => (r matches Err(e) && e matches HubError::ResourceNotFound(
                    p,
                ) && p@ == artifact_path@),
                LoadOutcome::Malformed(d) => (r matches Err(e)
                    && e matches HubError::ResourceLoadFailed(d2) && d2 == d),
                LoadOutcome::Loaded(h) => r == Ok::<ResourceHandle, HubError>(h),
            },
    {
        match &self.model {
            Some(h) => Ok(*h),
            None => match outcome {
                LoadOutcome::Missing => Err(HubError::ResourceNotFound(artifact_path.to_owned())),
                LoadOutcome::Malformed(d) => Err(HubError::ResourceLoadFailed(d)),
                LoadOutcome::Loaded(h) => {
                    self.model = Some(h);
                    Ok(h)
                },
            },
        }
    }
}

impl Default for AIState {
    fn default() -> (r: AIState)
        ensures
            r@ is None,
    {
        AIState::new()
    }
}

/// Appending one more call to a run of the loader steps the final
/// state once.
pub proof fn lemma_run_loader_snoc(
    slot: Option<ResourceHandle>,
    outcomes: Seq<LoadOutcome>,
    o: LoadOutcome,
)
    ensures
        run_loader(slot, outcomes.push(o)) == loader_next(run_loader(slot, outcomes), o),
    decreases outcomes.len(),
{
    if outcomes.len() == 0 {
        assert(outcomes.push(o)[0] == o);
        assert(outcomes.push(o).drop_first() =~= Seq::<LoadOutcome>::empty());
        assert(run_loader(slot, outcomes.push(o)) == run_loader(
            loader_next(slot, o),
            Seq::<LoadOutcome>::empty(),
        ));
        assert(run_loader(loader_next(slot, o), Seq::<LoadOutcome>::empty()) == loader_next(
            slot,
            o,
        ));
        assert(run_loader(slot, outcomes) == slot);
    } else {
        assert(outcomes.push(o)[0] == outcomes[0]);
        assert(outcomes.push(o).drop_first() =~= outcomes.drop_first().push(o));
        lemma_run_loader_snoc(loader_next(slot, outcomes[0]), outcomes.drop_first(), o);
        assert(run_loader(slot, outcomes.push(o)) == run_loader(
            loader_next(slot, outcomes[0]),
            outcomes.drop_first().push(o),
        ));
        assert(run_loader(slot, outcomes) == run_loader(
            loader_next(slot, outcomes[0]),
            outcomes.drop_first(),
        ));
    }
}

/// Law: once the resource is loaded, every later call — whatever its
/// own load would have produced — observes the identical handle, and
/// the slot never changes again. Together with the slot transition
/// this is the single-flight guarantee: at most one load ever runs.
pub proof fn lemma_single_flight(h: ResourceHandle, outcomes: Seq<LoadOutcome>)
    ensures
        forall|i: int|
            0 <= i <= outcomes.len() ==> run_loader(Some(h), #[trigger] outcomes.take(i)) == Some(
                h,
            ),
        run_loader(Some(h), outcomes) == Some(h),
    decreases outcomes.len(),
{
    assert forall|i: int|
        0 <= i <= outcomes.len() implies run_loader(Some(h), #[trigger] outcomes.take(i)) == Some(
        h,
    ) by {
        lemma_loaded_stays_loaded(h, outcomes.take(i));
    }
    lemma_loaded_stays_loaded(h, outcomes);
}

proof fn lemma_loaded_stays_loaded(h: ResourceHandle, outcomes: Seq<LoadOutcome>)
    ensures
        run_loader(Some(h), outcomes) == Some(h),
    decreases outcomes.len(),
{
    if outcomes.len() > 0 {
        lemma_loaded_stays_loaded(h, outcomes.drop_first());
    }
}

/// Law: while the artifact is absent, every load attempt reports it
/// missing, and the slot never transitions to loaded — after any
/// number of calls it is still empty.
pub proof fn lemma_absent_artifact_never_loads(outcomes: Seq<LoadOutcome>)
    requires
        forall|i: int| 0 <= i < outcomes.len() ==> outcomes[i] == LoadOutcome::Missing,
    ensures
        forall|i: int|
            0 <= i <= outcomes.len() ==> run_loader(
                None::<ResourceHandle>,
                #[trigger] outcomes.take(i),
            ) is None,
        run_loader(None::<ResourceHandle>, outcomes) is None,
    decreases outcomes.len(),
{
    assert forall|i: int|
        0 <= i <= outcomes.len() implies run_loader(
        None::<ResourceHandle>,
        #[trigger] outcomes.take(i),
    ) is None by {
        lemma_absent_artifact_prefix(outcomes, i);
    }
    lemma_absent_artifact_prefix(outcomes, outcomes.len() as int);
    assert(outcomes.take(outcomes.len() as int) =~= outcomes);
}

proof fn lemma_absent_artifact_prefix(outcomes: Seq<LoadOutcome>, i: int)
    requires
        forall|j: int| 0 <= j < outcomes.len() ==> outcomes[j] == LoadOutcome::Missing,
        0 <= i <= outcomes.len(),
    ensures
        run_loader(None::<ResourceHandle>, outcomes.take(i)) is None,
    decreases i,
{
    if i > 0 {
        lemma_absent_artifact_prefix(outcomes, i - 1);
        lemma_run_loader_snoc(None::<ResourceHandle>, outcomes.take(i - 1), outcomes[i - 1]);
        assert(outcomes.take(i - 1).push(outcomes[i - 1]) =~= outcomes.take(i));
    }
}

} // verus!
