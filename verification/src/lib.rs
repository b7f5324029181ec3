//! Round-synchronized federated averaging of a linear model.
//!
//! The coordinator owns the global model, a registry of participants with
//! their sample-count weights, the round counter, and the updates buffered
//! for the round in flight.  All of that logic — validation, buffering, the
//! completion check, and the round advance — is verified here.  Model
//! parameters are carried as raw 32-bit IEEE 754 bit patterns; the numeric
//! work on them (training, the weighted mean itself) is left to the caller,
//! which receives an [`aggregate::AggregationPlan`] when a round completes
//! and installs the averaged model it computes.

pub mod aggregate;
pub mod coordinator;
pub mod idmap;
pub mod model;
pub mod wire;
