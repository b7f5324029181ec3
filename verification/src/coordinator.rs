//! The coordinator: round synchronization and update aggregation.
//!
//! One coordinator owns the global model, the participant registry, the
//! round counter and the updates buffered for the round in flight.  A round
//! advances exactly once, at the moment the buffered updates cover every
//! registered participant; the completed round's updates are then handed
//! back as an [`AggregationPlan`] and the caller, after computing the
//! weighted mean, installs the new global model with
//! [`Coordinator::install_model`].  The transport is expected to perform a
//! submission and the installation it may trigger under one critical
//! section, so that readers never observe the gap between them.
//!
//! Completion is strict equality of counts: a participant that registers
//! mid-round raises the threshold, and the round then also waits for the
//! new participant's update.  That behaviour is deliberate — the registry
//! is not snapshotted at round start — and callers relying on liveness must
//! manage registration accordingly.

use vstd::prelude::*;
use vstd::set_lib::lemma_len_subset;
use vstd::set_lib::lemma_subset_equality;

use crate::aggregate::{
    federated_averaging, lemma_sum_counts_lower, plan_describes, shapes_consistent, AggregationPlan,
    PendingUpdate,
};
use crate::idmap::IdMap;
use crate::model::{decode_spec, encode_spec, LinearModel, ModelView};

verus! {

/// Rejection of a [`Coordinator::submit_update`] call.
#[derive(Clone, Copy, Debug, PartialEq, Eq, Structural)]
pub enum SubmitError {
    /// The claimed round is not the round in flight; the caller should
    /// re-fetch the current model and retry against the current round.
    RoundMismatch,
    /// The submitting id was never registered; the caller must register
    /// first.
    UnregisteredParticipant,
    /// The payload is not the encoding of a model of the expected shape.
    MalformedParameters,
}

/// Successful outcome of [`Coordinator::submit_update`].
pub enum SubmitOutcome {
    /// The update was buffered; the round is still waiting on others.
    Accepted,
    /// This update completed the round: the counter has advanced and the
    /// drained updates are handed back for averaging.
    Completed(AggregationPlan),
}

pub struct Coordinator {
    model: LinearModel,
    registry: IdMap<u64>,
    round: u64,
    pending: IdMap<(LinearModel, u64)>,
}

impl Coordinator {
    /// The global model's value.
    pub closed spec fn model_spec(self) -> ModelView {
        self.model@
    }

    /// The registry: each registered id's sample-count weight.
    pub closed spec fn registry_spec(self) -> Map<Seq<char>, u64> {
        self.registry@
    }

    /// The round counter.
    pub closed spec fn round_spec(self) -> u64 {
        self.round
    }

    /// The updates buffered for the round in flight.
    pub closed spec fn pending_spec(self) -> Map<Seq<char>, (LinearModel, u64)> {
        self.pending@
    }

    /// The buffered updates by value: each pending id's model value and
    /// captured sample count.
    pub open spec fn buffered(self) -> Map<Seq<char>, (ModelView, u64)> {
        Map::new(
            |k: Seq<char>| self.pending_spec().contains_key(k),
            |k: Seq<char>| (self.pending_spec()[k].0@, self.pending_spec()[k].1),
        )
    }

    pub open spec fn is_registered(self, id: Seq<char>) -> bool {
        self.registry_spec().contains_key(id)
    }

    /// The payload decodes to a model of the global model's shape.
    pub open spec fn params_decode_ok(self, bytes: Seq<u8>) -> bool {
        match decode_spec(bytes) {
            Some(v) => v.same_shape(self.model_spec()),
            None => false,
        }
    }

    /// Buffering an update from `id` would cover the whole registry.
    pub open spec fn would_complete(self, id: Seq<char>) -> bool {
        self.pending_spec().dom().insert(id).len() == self.registry_spec().dom().len()
    }

    /// Internal consistency: the registry and buffer have distinct keys and
    /// finite domains; every registered weight is positive; every buffered
    /// update came from a registered id and holds a well-formed model of
    /// the global shape with the positive weight captured at submission.
    pub closed spec fn wf(self) -> bool {
        &&& self.registry.wf()
        &&& self.pending.wf()
        &&& self.model@.wf()
        &&& self.registry@.dom().finite()
        &&& self.pending@.dom().finite()
        &&& forall|k: Seq<char>| #[trigger] self.registry@.contains_key(k)
            ==> self.registry@[k] >= 1
        &&& forall|k: Seq<char>| #[trigger] self.pending@.contains_key(k) ==> {
            &&& self.registry@.contains_key(k)
            &&& self.pending@[k].0@.wf()
            &&& self.pending@[k].0@.same_shape(self.model@)
            &&& self.pending@[k].1 >= 1
        }
    }

    /// A coordinator starting at round zero with the given initial model,
    /// no registered participants and nothing buffered.
    pub fn new(model: LinearModel) -> (c: Coordinator)
        requires
            model@.wf(),
        ensures
            c.wf(),
            c.model_spec() == model@,
            c.registry_spec() == Map::<Seq<char>, u64>::empty(),
            c.pending_spec() == Map::<Seq<char>, (LinearModel, u64)>::empty(),
            c.round_spec() == 0,
    {
        Coordinator { model, registry: IdMap::new(), round: 0, pending: IdMap::new() }
    }

    /// Registers `worker_id` with its sample-count weight, overwriting any
    /// earlier registration (last write wins).  May be called at any time;
    /// the round, the buffer and the model are untouched.
    pub fn register_worker(&mut self, worker_id: String, data_size: u64)
        requires
            old(self).wf(),
            data_size >= 1,
        ensures
            final(self).wf(),
            final(self).registry_spec() == old(self).registry_spec().insert(worker_id@, data_size),
            final(self).round_spec() == old(self).round_spec(),
            final(self).pending_spec() == old(self).pending_spec(),
            final(self).model_spec() == old(self).model_spec(),
    {
        self.registry.insert(worker_id, data_size);
    }

    /// The current global model, encoded; always the model of the last
    /// completed round (or the initial model).
    pub fn get_current_model(&self) -> (r: Vec<u8>)
        requires
            self.wf(),
        ensures
            r@ == encode_spec(self.model_spec()),
    {
        self.model.serialize()
    }

    /// The round currently in flight.
    pub fn current_round(&self) -> (r: u64)
        ensures
            r == self.round_spec(),
    {
        self.round
    }

    /// The registered ids, one entry per participant.
    pub fn worker_ids(&self) -> (r: Vec<String>)
        requires
            self.wf(),
        ensures
            r@.len() == self.registry_spec().dom().len(),
            forall|i: int, j: int| 0 <= i < j < r@.len() ==> r@[i]@ != r@[j]@,
            forall|i: int| 0 <= i < r@.len() ==> self.is_registered(#[trigger] r@[i]@),
            forall|k: Seq<char>| self.is_registered(k) ==> exists|i: int|
                0 <= i < r@.len() && #[trigger] r@[i]@ == k,
    {
        self.registry.keys()
    }

    /// The registered weight of `worker_id`, if registered.
    pub fn sample_count_of(&self, worker_id: &String) -> (r: Option<u64>)
        requires
            self.wf(),
        ensures
            match r {
                Some(c) => self.is_registered(worker_id@) && c == self.registry_spec()[worker_id@],
                None => !self.is_registered(worker_id@),
            },
    {
        match self.registry.get(worker_id) {
            Some(c) => Some(*c),
            None => None,
        }
    }

    /// How many updates are buffered for the round in flight.
    pub fn pending_count(&self) -> (r: usize)
        requires
            self.wf(),
        ensures
            r == self.pending_spec().dom().len(),
    {
        self.pending.len()
    }

    /// Validates and buffers one participant's update for the claimed
    /// round, and completes the round when the buffer covers the registry.
    ///
    /// The checks, in order: the claimed round must be the round in flight,
    /// the id must be registered, and the payload must decode to a model of
    /// the global shape; otherwise the matching error is returned and
    /// nothing changes.  An accepted update overwrites any earlier one from
    /// the same id in this round.  When the buffered updates then cover
    /// every registered participant, the round completes atomically: the
    /// buffer is drained, the round counter advances by one — the only way
    /// it ever moves — and the drained updates come back as a plan for the
    /// caller to average and install.
    pub fn submit_update(&mut self, worker_id: String, parameters: &[u8], claimed_round: u64)
        -> (r: Result<SubmitOutcome, SubmitError>)
        requires
            old(self).wf(),
            old(self).round_spec() < u64::MAX,
        ensures
            final(self).wf(),
            final(self).registry_spec() == old(self).registry_spec(),
            final(self).model_spec() == old(self).model_spec(),
            (r matches Err(SubmitError::RoundMismatch)) <==> claimed_round != old(self).round_spec(),
            (r matches Err(SubmitError::UnregisteredParticipant)) <==> (claimed_round == old(
                self).round_spec() && !old(self).is_registered(worker_id@)),
            (r matches Err(SubmitError::MalformedParameters)) <==> (claimed_round == old(
                self).round_spec() && old(self).is_registered(worker_id@) && !old(
                self).params_decode_ok(parameters@)),
            r is Err ==> final(self).round_spec() == old(self).round_spec() && final(
                self).pending_spec() == old(self).pending_spec(),
            r is Ok <==> (claimed_round == old(self).round_spec() && old(self).is_registered(
                worker_id@) && old(self).params_decode_ok(parameters@)),
            (r matches Ok(SubmitOutcome::Completed(_))) <==> (r is Ok && old(self).would_complete(
                worker_id@)),
            (r matches Ok(o) && o is Accepted) ==> {
                &&& final(self).round_spec() == old(self).round_spec()
                &&& final(self).buffered() == old(self).buffered().insert(
                    worker_id@,
                    (decode_spec(parameters@).unwrap(), old(self).registry_spec()[worker_id@]),
                )
                &&& final(self).pending_spec().dom().len() < old(self).registry_spec().dom().len()
            },
            r matches Ok(SubmitOutcome::Completed(plan)) ==> {
                &&& final(self).round_spec() == old(self).round_spec() + 1
                &&& final(self).pending_spec() == Map::<Seq<char>, (LinearModel, u64)>::empty()
                &&& plan_describes(
                    plan,
                    old(self).buffered().insert(
                        worker_id@,
                        (decode_spec(parameters@).unwrap(), old(self).registry_spec()[worker_id@]),
                    ),
                    old(self).model_spec(),
                )
            },
    {
        if claimed_round != self.round {
            return Err(SubmitError::RoundMismatch);
        }
        let weight: u64 = match self.registry.get(&worker_id) {
            Some(c) => *c,
            None => {
                return Err(SubmitError::UnregisteredParticipant);
            },
        };
        let m: LinearModel = match LinearModel::deserialize(parameters) {
            Ok(m) => m,
            Err(_) => {
                return Err(SubmitError::MalformedParameters);
            },
        };
        if m.input_dim != self.model.input_dim || m.output_dim != self.model.output_dim {
            return Err(SubmitError::MalformedParameters);
        }
        let ghost prev = *old(self);
        let ghost wid = worker_id@;
        let ghost dec = m@;
        self.pending.insert(worker_id, (m, weight));
        let ghost pmap = self.pending@;
        proof {
            assert(self.wf());
            assert(pmap.dom() =~= prev.pending_spec().dom().insert(wid));
            assert forall|k: Seq<char>| #[trigger] pmap.contains_key(k) implies {
                &&& pmap[k].0@.wf()
                &&& pmap[k].0@.same_shape(prev.model_spec())
                &&& pmap[k].1 >= 1
            } by {}
            assert(self.buffered() =~= prev.buffered().insert(wid, (dec, weight)));
        }
        let n_pending = self.pending.len();
        let n_registry = self.registry.len();
        if n_pending == n_registry {
            proof {
                assert(pmap.dom().contains(wid));
                assert(pmap.dom().remove(wid).len() == pmap.dom().len() - 1);
                assert(n_pending >= 1);
            }
            let ghost bmap = prev.buffered().insert(wid, (dec, weight));
            let entries = self.pending.take_entries();
            let ghost orig = entries@;
            let mut updates: Vec<PendingUpdate> = Vec::new();
            let mut rest = entries;
            while rest.len() > 0
                invariant
                    updates@.len() + rest@.len() == orig.len(),
                    rest@ == orig.skip(updates@.len() as int),
                    forall|j: int| 0 <= j < updates@.len() ==> {
                        &&& (#[trigger] updates@[j].worker_id)@ == orig[j].0@
                        &&& updates@[j].model == orig[j].1.0
                        &&& updates@[j].sample_count == orig[j].1.1
                    },
                decreases rest@.len(),
            {
                let p: (String, (LinearModel, u64)) = rest.remove(0);
                updates.push(
                    PendingUpdate { worker_id: p.0, model: p.1.0, sample_count: p.1.1 },
                );
            }
            let ghost ups = updates@;
            proof {
                assert(ups.len() == orig.len());
                assert(ups.len() >= 1);
                assert(bmap.dom() =~= pmap.dom());
                assert forall|k: Seq<char>| #[trigger] pmap.contains_key(k) implies bmap[k] == (
                    pmap[k].0@,
                    pmap[k].1,
                ) by {
                    if k != wid {
                        assert(prev.pending_spec().contains_key(k));
                    }
                }
                assert forall|i: int| 0 <= i < ups.len() implies {
                    &&& bmap.contains_key((#[trigger] ups[i]).worker_id@)
                    &&& bmap[ups[i].worker_id@] == (ups[i].model@, ups[i].sample_count)
                    &&& ups[i].model@.wf()
                    &&& ups[i].model@.same_shape(prev.model_spec())
                    &&& ups[i].sample_count >= 1
                } by {
                    assert(ups[i].worker_id@ == orig[i].0@ && ups[i].model == orig[i].1.0
                        && ups[i].sample_count == orig[i].1.1);
                    assert(pmap.contains_key(orig[i].0@) && pmap[orig[i].0@] == orig[i].1);
                }
                assert forall|k: Seq<char>| bmap.contains_key(k) implies exists|i: int|
                    0 <= i < ups.len() && (#[trigger] ups[i].worker_id)@ == k by {
                    assert(pmap.contains_key(k));
                    let i = choose|i: int| 0 <= i < orig.len() && (#[trigger] orig[i].0)@ == k;
                    assert(ups[i].worker_id@ == k);
                }
                assert(shapes_consistent(ups));
                lemma_sum_counts_lower(ups);
            }
            let plan = match federated_averaging(updates) {
                Ok(plan) => plan,
                Err(_) => {
                    // Unreachable: the buffer is non-empty and holds only
                    // well-formed models of the global shape.
                    vstd::pervasive::unreached()
                },
            };
            self.round = self.round + 1;
            proof {
                assert(plan_describes(plan, bmap, prev.model_spec()));
            }
            Ok(SubmitOutcome::Completed(plan))
        } else {
            proof {
                assert(pmap.dom() <= self.registry@.dom()) by {
                    assert forall|k: Seq<char>| pmap.dom().contains(k) implies self.registry@.dom(
                    ).contains(k) by {
                        assert(pmap.contains_key(k));
                    }
                }
                lemma_len_subset(pmap.dom(), self.registry@.dom());
            }
            Ok(SubmitOutcome::Accepted)
        }
    }

    /// Replaces the global model, accepting only a well-formed model of the
    /// global shape; the registry, the buffer and the round are untouched.
    /// The caller invokes this with the weighted mean of a completed
    /// round's plan, in the same critical section as the submission that
    /// completed the round.
    pub fn install_model(&mut self, model: LinearModel) -> (ok: bool)
        requires
            old(self).wf(),
        ensures
            final(self).wf(),
            ok <==> (model@.wf() && model@.same_shape(old(self).model_spec())),
            ok ==> final(self).model_spec() == model@,
            !ok ==> final(self).model_spec() == old(self).model_spec(),
            final(self).registry_spec() == old(self).registry_spec(),
            final(self).round_spec() == old(self).round_spec(),
            final(self).pending_spec() == old(self).pending_spec(),
    {
        let wlen = model.weights.len();
        let blen = model.bias.len();
        let shape_ok: bool = match model.output_dim.checked_mul(model.input_dim) {
            Some(p) => wlen == p && blen == model.output_dim && model.input_dim
                == self.model.input_dim && model.output_dim == self.model.output_dim,
            None => false,
        };
        if shape_ok {
            self.model = model;
            true
        } else {
            false
        }
    }
}

/// Covering the registry is the same as every registered participant having
/// reported: the buffer's keys always sit inside the registry, so equal
/// counts force equal key sets.
pub proof fn lemma_completion_means_all_reported(c: Coordinator)
    requires
        c.wf(),
    ensures
        c.pending_spec().dom().len() == c.registry_spec().dom().len() <==> c.pending_spec().dom()
            == c.registry_spec().dom(),
{
    assert(c.pending_spec().dom() <= c.registry_spec().dom()) by {
        assert forall|k: Seq<char>| c.pending_spec().dom().contains(k) implies c.registry_spec(
        ).dom().contains(k) by {
            assert(c.pending_spec().contains_key(k));
        }
    }
    if c.pending_spec().dom().len() == c.registry_spec().dom().len() {
        lemma_subset_equality(c.pending_spec().dom(), c.registry_spec().dom());
    }
}

} // verus!
