//! Validation of a completed round's updates for federated averaging.
//!
//! The numeric mean itself is a floating-point computation performed by the
//! caller; what is verified here is everything around it: that a round's
//! updates are non-empty and identically shaped, which error is returned
//! when they are not, and that the sample-count total handed to the caller
//! is exactly the sum of the updates' weights.

use vstd::prelude::*;

use crate::model::ModelView;
use crate::model::LinearModel;

verus! {

/// One participant's buffered submission: the model it trained and the
/// sample count captured from the registry when the update was accepted.
pub struct PendingUpdate {
    pub worker_id: String,
    pub model: LinearModel,
    pub sample_count: u64,
}

/// A validated set of updates, ready for the weighted mean: every model has
/// the shape `output_dim` by `input_dim` and `total_weight` is the exact sum
/// of the sample counts.
pub struct AggregationPlan {
    pub updates: Vec<PendingUpdate>,
    pub total_weight: u128,
    pub input_dim: usize,
    pub output_dim: usize,
}

/// Failure of [`federated_averaging`].
#[derive(Clone, Copy, Debug, PartialEq, Eq, Structural)]
pub enum AveragingError {
    /// No updates were supplied; there is nothing to average.
    EmptyInput,
    /// The supplied models do not all share one well-formed shape.
    ShapeMismatch,
}

/// The sum of the updates' sample counts.
pub open spec fn sum_counts(s: Seq<PendingUpdate>) -> int
    decreases s.len(),
{
    if s.len() == 0 {
        0
    } else {
        sum_counts(s.drop_last()) + s.last().sample_count
    }
}

/// With every sample count positive, the total is at least the number of
/// updates.
pub proof fn lemma_sum_counts_lower(s: Seq<PendingUpdate>)
    requires
        forall|i: int| 0 <= i < s.len() ==> (#[trigger] s[i].sample_count) >= 1,
    ensures
        sum_counts(s) >= s.len(),
    decreases s.len(),
{
    if s.len() > 0 {
        lemma_sum_counts_lower(s.drop_last());
    }
}

/// Every update holds a well-formed model of the same shape as the first.
pub open spec fn shapes_consistent(s: Seq<PendingUpdate>) -> bool {
    forall|i: int| 0 <= i < s.len() ==> (#[trigger] s[i].model)@.wf() && s[i].model@.same_shape(
        s[0].model@)
}

/// The plan enumerates the buffered updates of a round exactly — each
/// buffered participant appears once, with the model and sample count it
/// submitted — and carries their shape and exact sample-count total.
pub open spec fn plan_describes(
    plan: AggregationPlan,
    buffered: Map<Seq<char>, (ModelView, u64)>,
    expected: ModelView,
) -> bool {
    &&& plan.updates@.len() == buffered.dom().len()
    &&& forall|i: int, j: int| 0 <= i < j < plan.updates@.len() ==> plan.updates@[i].worker_id@
        != plan.updates@[j].worker_id@
    &&& forall|i: int| 0 <= i < plan.updates@.len() ==> {
        &&& buffered.contains_key(#[trigger] plan.updates@[i].worker_id@)
        &&& buffered[plan.updates@[i].worker_id@] == (plan.updates@[i].model@,
            plan.updates@[i].sample_count)
    }
    &&& forall|k: Seq<char>| buffered.contains_key(k) ==> exists|i: int|
        0 <= i < plan.updates@.len() && (#[trigger] plan.updates@[i].worker_id)@ == k
    &&& forall|i: int| 0 <= i < plan.updates@.len() ==> (#[trigger] plan.updates@[i].model)@.wf()
        && plan.updates@[i].model@.same_shape(expected)
    &&& plan.total_weight == sum_counts(plan.updates@)
    &&& plan.total_weight >= 1
    &&& plan.input_dim == expected.input_dim
    &&& plan.output_dim == expected.output_dim
}

/// Validates a round's updates for the sample-weighted mean.
///
/// Succeeds exactly on a non-empty list of identically shaped, well-formed
/// models; the plan then carries the updates unchanged together with their
/// shape and the exact sum of their sample counts.  An empty list yields
/// [`AveragingError::EmptyInput`]; differing (or inconsistent) shapes yield
/// [`AveragingError::ShapeMismatch`].
pub fn federated_averaging(updates: Vec<PendingUpdate>) -> (r: Result<
    AggregationPlan,
    AveragingError,
>)
    ensures
        match r {
            Ok(plan) => {
                &&& updates@.len() > 0
                &&& shapes_consistent(updates@)
                &&& plan.updates@ == updates@
                &&& plan.input_dim == updates@[0].model@.input_dim
                &&& plan.output_dim == updates@[0].model@.output_dim
                &&& plan.total_weight == sum_counts(updates@)
            },
            Err(AveragingError::EmptyInput) => updates@.len() == 0,
            Err(AveragingError::ShapeMismatch) => updates@.len() > 0 && !shapes_consistent(
                updates@),
        },
{
    let n = updates.len();
    if n == 0 {
        return Err(AveragingError::EmptyInput);
    }
    let input_dim = updates[0].model.input_dim;
    let output_dim = updates[0].model.output_dim;
    let mut i: usize = 0;
    while i < n
        invariant
            i <= n,
            n == updates@.len(),
            n > 0,
            input_dim == updates@[0].model@.input_dim,
            output_dim == updates@[0].model@.output_dim,
            forall|j: int| 0 <= j < i ==> (#[trigger] updates@[j].model)@.wf()
                && updates@[j].model@.same_shape(updates@[0].model@),
        decreases n - i,
    {
        let u: &PendingUpdate = &updates[i];
        let wlen = u.model.weights.len();
        let blen = u.model.bias.len();
        match u.model.output_dim.checked_mul(u.model.input_dim) {
            Some(p) => {
                if wlen != p || blen != u.model.output_dim || u.model.input_dim != input_dim
                    || u.model.output_dim != output_dim {
                    return Err(AveragingError::ShapeMismatch);
                }
            },
            None => {
                // More weight entries would be needed than any vector holds,
                // so this model cannot be well formed.
                return Err(AveragingError::ShapeMismatch);
            },
        }
        i = i + 1;
    }
    let mut total: u128 = 0;
    let mut i2: usize = 0;
    while i2 < n
        invariant
            i2 <= n,
            n == updates@.len(),
            total == sum_counts(updates@.take(i2 as int)),
            total <= (i2 as int) * (u64::MAX as int),
        decreases n - i2,
    {
        let c = updates[i2].sample_count;
        proof {
            let t = updates@.take(i2 + 1 as int);
            assert(t.drop_last() =~= updates@.take(i2 as int));
            assert(t.last() == updates@[i2 as int]);
        }
        total = total + c as u128;
        i2 = i2 + 1;
    }
    proof {
        assert(updates@.take(n as int) =~= updates@);
    }
    Ok(AggregationPlan { updates, total_weight: total, input_dim, output_dim })
}

} // verus!
