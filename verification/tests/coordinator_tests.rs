use fedavg::aggregate::{federated_averaging, AggregationPlan, PendingUpdate};
use fedavg::coordinator::{Coordinator, SubmitError, SubmitOutcome};
use fedavg::model::LinearModel;

fn model_filled(input_dim: usize, output_dim: usize, fill: f32) -> LinearModel {
    let weights: Vec<u32> = std::iter::repeat(fill.to_bits())
        .take(output_dim * input_dim)
        .collect();
    let bias: Vec<u32> = std::iter::repeat(fill.to_bits()).take(output_dim).collect();
    LinearModel::from_bits(input_dim, output_dim, weights, bias).unwrap()
}

/// The caller's side of a completed round: the sample-weighted mean of the
/// plan's updates, exactly as the transport computes it before installing.
fn weighted_mean(plan: &AggregationPlan) -> LinearModel {
    let total = plan.total_weight as f32;
    let n_w = plan.output_dim * plan.input_dim;
    let mut weights = vec![0.0f32; n_w];
    let mut bias = vec![0.0f32; plan.output_dim];
    for u in &plan.updates {
        let share = u.sample_count as f32 / total;
        for i in 0..n_w {
            weights[i] += f32::from_bits(u.model.weights[i]) * share;
        }
        for i in 0..plan.output_dim {
            bias[i] += f32::from_bits(u.model.bias[i]) * share;
        }
    }
    LinearModel::from_bits(
        plan.input_dim,
        plan.output_dim,
        weights.into_iter().map(f32::to_bits).collect(),
        bias.into_iter().map(f32::to_bits).collect(),
    )
    .unwrap()
}

#[test]
fn equal_weight_average_is_plain_mean() {
    // Two 2-by-1 weight matrices of ones and threes, each with weight 1,
    // average to twos.
    let ones = model_filled(1, 2, 1.0);
    let threes = model_filled(1, 2, 3.0);
    let plan = federated_averaging(vec![
        PendingUpdate { worker_id: String::from("w1"), model: ones, sample_count: 1 },
        PendingUpdate { worker_id: String::from("w2"), model: threes, sample_count: 1 },
    ])
    .unwrap();
    assert_eq!(plan.total_weight, 2);
    let mean = weighted_mean(&plan);
    assert_eq!(mean.weights, vec![2.0f32.to_bits(); 2]);
    assert_eq!(mean.bias, vec![2.0f32.to_bits(); 2]);
}

#[test]
fn registry_tracks_workers() {
    let mut c = Coordinator::new(LinearModel::new(2, 1));
    assert_eq!(c.current_round(), 0);
    assert!(c.worker_ids().is_empty());
    c.register_worker(String::from("w1"), 2);
    c.register_worker(String::from("w2"), 1);
    let ids = c.worker_ids();
    assert_eq!(ids.len(), 2);
    assert!(ids.iter().any(|s| s == "w1"));
    assert!(ids.iter().any(|s| s == "w2"));
    assert_eq!(c.sample_count_of(&String::from("w1")), Some(2));
    assert_eq!(c.sample_count_of(&String::from("nope")), None);
    // Re-registration overwrites the weight and adds no entry.
    c.register_worker(String::from("w1"), 7);
    assert_eq!(c.worker_ids().len(), 2);
    assert_eq!(c.sample_count_of(&String::from("w1")), Some(7));
}

#[test]
fn stale_round_is_rejected() {
    let mut c = Coordinator::new(LinearModel::new(2, 1));
    c.register_worker(String::from("w1"), 1);
    let payload = model_filled(2, 1, 1.0).serialize();
    let r = c.submit_update(String::from("w1"), &payload, 5);
    assert!(matches!(r, Err(SubmitError::RoundMismatch)));
    assert_eq!(c.current_round(), 0);
    assert_eq!(c.pending_count(), 0);
}

#[test]
fn unregistered_worker_is_rejected() {
    let mut c = Coordinator::new(LinearModel::new(2, 1));
    c.register_worker(String::from("w1"), 1);
    let before = c.get_current_model();
    let payload = model_filled(2, 1, 1.0).serialize();
    let r = c.submit_update(String::from("ghost"), &payload, 0);
    assert!(matches!(r, Err(SubmitError::UnregisteredParticipant)));
    assert_eq!(c.worker_ids().len(), 1);
    assert_eq!(c.pending_count(), 0);
    assert_eq!(c.get_current_model(), before);
}

#[test]
fn malformed_payload_is_rejected() {
    let mut c = Coordinator::new(LinearModel::new(2, 1));
    c.register_worker(String::from("w1"), 1);
    let r = c.submit_update(String::from("w1"), &[1, 2, 3], 0);
    assert!(matches!(r, Err(SubmitError::MalformedParameters)));
    // A well-encoded model of the wrong shape is malformed too.
    let wrong_shape = model_filled(3, 1, 1.0).serialize();
    let r2 = c.submit_update(String::from("w1"), &wrong_shape, 0);
    assert!(matches!(r2, Err(SubmitError::MalformedParameters)));
    assert_eq!(c.pending_count(), 0);
    assert_eq!(c.current_round(), 0);
}

#[test]
fn two_worker_round_averages_and_advances() {
    let mut c = Coordinator::new(LinearModel::new(2, 1));
    c.register_worker(String::from("w1"), 2);
    c.register_worker(String::from("w2"), 1);

    let model_a = model_filled(2, 1, 4.0);
    let model_b = model_filled(2, 1, 1.0);

    let r1 = c.submit_update(String::from("w1"), &model_a.serialize(), 0);
    assert!(matches!(r1, Ok(SubmitOutcome::Accepted)));
    assert_eq!(c.pending_count(), 1);
    assert_eq!(c.current_round(), 0);

    let r2 = c.submit_update(String::from("w2"), &model_b.serialize(), 0);
    let plan = match r2 {
        Ok(SubmitOutcome::Completed(plan)) => plan,
        _ => panic!("second update must complete the round"),
    };
    assert_eq!(c.current_round(), 1);
    assert_eq!(c.pending_count(), 0);
    assert_eq!(plan.total_weight, 3);
    assert_eq!(plan.updates.len(), 2);

    // (2 * 4.0 + 1 * 1.0) / 3 == 3.0, exactly representable.
    let mean = weighted_mean(&plan);
    assert_eq!(mean.weights, vec![3.0f32.to_bits(); 2]);
    assert_eq!(mean.bias, vec![3.0f32.to_bits()]);
    let expected_bytes = mean.serialize();
    assert!(c.install_model(mean));
    assert_eq!(c.get_current_model(), expected_bytes);

    // A late submission against the finished round is rejected.
    let r3 = c.submit_update(String::from("w1"), &model_a.serialize(), 0);
    assert!(matches!(r3, Err(SubmitError::RoundMismatch)));
}

#[test]
fn aggregation_fires_exactly_once_per_round() {
    let mut c = Coordinator::new(LinearModel::new(1, 1));
    c.register_worker(String::from("a"), 1);
    c.register_worker(String::from("b"), 1);
    c.register_worker(String::from("c"), 1);

    let first = model_filled(1, 1, 9.0);
    let second = model_filled(1, 1, 5.0);

    assert!(matches!(
        c.submit_update(String::from("a"), &first.serialize(), 0),
        Ok(SubmitOutcome::Accepted)
    ));
    // A second update from the same worker overwrites, not duplicates.
    assert!(matches!(
        c.submit_update(String::from("a"), &second.serialize(), 0),
        Ok(SubmitOutcome::Accepted)
    ));
    assert_eq!(c.pending_count(), 1);

    assert!(matches!(
        c.submit_update(String::from("b"), &second.serialize(), 0),
        Ok(SubmitOutcome::Accepted)
    ));
    let r = c.submit_update(String::from("c"), &second.serialize(), 0);
    let plan = match r {
        Ok(SubmitOutcome::Completed(plan)) => plan,
        _ => panic!("third distinct update must complete the round"),
    };
    assert_eq!(plan.updates.len(), 3);
    let a_update = plan.updates.iter().find(|u| u.worker_id == "a").unwrap();
    assert_eq!(a_update.model.weights[0], 5.0f32.to_bits());
    assert_eq!(c.current_round(), 1);
    assert_eq!(c.pending_count(), 0);
}

#[test]
fn late_registration_raises_completion_threshold() {
    let mut c = Coordinator::new(LinearModel::new(1, 1));
    c.register_worker(String::from("a"), 1);
    c.register_worker(String::from("b"), 1);
    let m = model_filled(1, 1, 2.0);

    assert!(matches!(
        c.submit_update(String::from("a"), &m.serialize(), 0),
        Ok(SubmitOutcome::Accepted)
    ));
    // A mid-round registration grows the registry; the round now waits for
    // the newcomer as well.
    c.register_worker(String::from("late"), 4);
    assert!(matches!(
        c.submit_update(String::from("b"), &m.serialize(), 0),
        Ok(SubmitOutcome::Accepted)
    ));
    assert_eq!(c.current_round(), 0);
    let r = c.submit_update(String::from("late"), &m.serialize(), 0);
    assert!(matches!(r, Ok(SubmitOutcome::Completed(_))));
    assert_eq!(c.current_round(), 1);
}

#[test]
fn install_model_checks_shape() {
    let mut c = Coordinator::new(LinearModel::new(2, 1));
    let before = c.get_current_model();
    assert!(!c.install_model(model_filled(3, 1, 1.0)));
    assert_eq!(c.get_current_model(), before);
    let replacement = model_filled(2, 1, 8.5);
    let expected = replacement.serialize();
    assert!(c.install_model(replacement));
    assert_eq!(c.get_current_model(), expected);
    assert_eq!(c.current_round(), 0);
}
