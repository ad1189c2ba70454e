//! The life of the instance as a state machine: nothing is loaded, or one
//! instance is; the calls of the host move between the two.

use crate::error::ApiError;
use vstd::prelude::*;

verus! {

/// Whether an instance is loaded.
#[derive(Clone, Copy, Debug, PartialEq, Eq, Structural)]
pub enum Lifecycle {
    /// Nothing is loaded: the state at the start and at the end.
    Unloaded,
    /// One instance is loaded.
    Loaded,
}

/// What moves the life of the instance.
#[derive(Clone, Copy, Debug, PartialEq, Eq, Structural)]
pub enum Step {
    /// The host begins an instance, which first ends the one that is
    /// loaded. `queued` tells whether the `Load` event got into the new
    /// queue.
    BeginInstance { queued: bool },
    /// The consumer answers the `Load` event, or drops it. `accepted` tells
    /// whether it answered without failure.
    LoadAnswer { accepted: bool },
    /// The host ends the instance, and waits for the consumer.
    EndInstance,
    /// The host submits a request.
    SubmitRequest,
    /// The host detaches the module: the instance ends without a word to
    /// the consumer.
    Detach,
}

/// The state after a step.
pub open spec fn after(state: Lifecycle, step: Step) -> Lifecycle {
    match step {
        Step::BeginInstance { queued } => if queued {
            Lifecycle::Loaded
        } else {
            Lifecycle::Unloaded
        },
        Step::LoadAnswer { accepted } => if accepted {
            state
        } else {
            Lifecycle::Unloaded
        },
        Step::EndInstance => Lifecycle::Unloaded,
        Step::SubmitRequest => state,
        Step::Detach => Lifecycle::Unloaded,
    }
}

/// The failure with which a step ends before anything is queued: ending
/// the instance and submitting a request need an instance.
pub open spec fn refusal(state: Lifecycle, step: Step) -> Option<ApiError> {
    match step {
        Step::EndInstance | Step::SubmitRequest => if state == Lifecycle::Unloaded {
            Some(ApiError::NotLoaded)
        } else {
            None
        },
        _ => None,
    }
}

/// The state after the steps `steps`, one after the other.
pub open spec fn after_all(state: Lifecycle, steps: Seq<Step>) -> Lifecycle
    decreases steps.len(),
{
    if steps.len() == 0 {
        state
    } else {
        after(after_all(state, steps.drop_last()), steps.last())
    }
}

/// Once the instance has ended, by the host's call or by detaching,
/// whatever follows but the beginning of a new instance leaves nothing
/// loaded, and a request is refused with `NotLoaded`.
pub proof fn lemma_request_after_end(state: Lifecycle, end: Step, steps: Seq<Step>)
    requires
        end is EndInstance || end is Detach,
        forall|i: int| 0 <= i < steps.len() ==> !(#[trigger] steps[i] is BeginInstance),
    ensures
        after_all(after(state, end), steps) == Lifecycle::Unloaded,
        refusal(after_all(after(state, end), steps), Step::SubmitRequest) == Some(
            ApiError::NotLoaded,
        ),
    decreases steps.len(),
{
    if steps.len() > 0 {
        assert forall|i: int| 0 <= i < steps.drop_last().len() implies !(
        #[trigger] steps.drop_last()[i] is BeginInstance) by {
            assert(steps.drop_last()[i] == steps[i]);
        }
        lemma_request_after_end(state, end, steps.drop_last());
        assert(!(steps[steps.len() - 1] is BeginInstance));
    }
}

} // verus!
