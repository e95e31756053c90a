use forgeann::ann_result::AnnError;
use forgeann::final_prune::{check_final_prune_metric, FinalPrune, PruneCandidate};
use forgeann::float_bits::F32;
use forgeann::metric::Metric;

fn bits(value: f32) -> F32 {
    F32 {
        bits: value.to_bits(),
    }
}

fn candidate(id: u32, dist: f32) -> PruneCandidate {
    PruneCandidate {
        id,
        dist: bits(dist),
    }
}

fn line_dataset(rows: usize) -> Vec<f32> {
    (0..rows).map(|row| row as f32).collect()
}

fn levels(alpha: f32) -> Vec<F32> {
    let mut found = Vec::new();
    let mut level = 1.0f32;
    while level <= alpha {
        found.push(bits(level));
        level *= 1.2;
    }
    found
}

/// Points on a line: `data` holds their places.
fn robust_prune_candidates(
    data: &[f32],
    location: u32,
    pool: &[PruneCandidate],
    max_degree: usize,
    max_candidate_size: usize,
    alpha: f32,
    saturate: bool,
) -> Vec<u32> {
    let mut prune = FinalPrune::new(
        pool,
        location,
        max_degree,
        max_candidate_size,
        bits(alpha),
        levels(alpha),
    );
    while let Some(i) = prune.select() {
        for j in i + 1..prune.candidate_count() {
            if !prune.wants_shadow(j) {
                continue;
            }
            let (kept, later) = (prune.candidate(i), prune.candidate(j));
            let delta = data[later.id as usize] - data[kept.id as usize];
            let between = delta * delta;
            let shadow = if between == 0.0 {
                f32::MAX
            } else {
                f32::from_bits(later.dist.bits) / between
            };
            prune.throw_shadow(j, bits(shadow));
        }
    }
    prune.saturate(saturate);
    prune.into_edges()
}

#[test]
fn final_prune_removes_self_loop_and_saturates_from_remaining_candidates() {
    let dataset = line_dataset(5);
    let pool = vec![
        candidate(2, 0.0),
        candidate(1, 1.0),
        candidate(3, 1.0),
        candidate(4, 2.0),
    ];

    let result = robust_prune_candidates(&dataset, 2, &pool, 3, 750, 1.2, true);

    assert_eq!(result, vec![1, 3, 4]);
}

#[test]
fn final_prune_honors_max_candidate_size_before_saturating() {
    let dataset = line_dataset(5);
    let pool = vec![
        candidate(1, 1.0),
        candidate(2, 2.0),
        candidate(3, 3.0),
        candidate(4, 4.0),
    ];

    let result = robust_prune_candidates(&dataset, 0, &pool, 4, 2, 1.2, true);

    assert!(result.iter().all(|id| *id <= 2));
    assert!(result.len() <= 2);
}

#[test]
fn final_prune_deduplicates_candidate_ids() {
    let dataset = line_dataset(3);
    let pool = vec![candidate(1, 1.0), candidate(1, 1.0)];

    let result = robust_prune_candidates(&dataset, 0, &pool, 4, 750, 1.2, true);

    assert_eq!(result, vec![1]);
}

#[test]
fn final_prune_without_saturate_keeps_occlusion_result_only() {
    let dataset = vec![0.0, 1.0, 1.0, 3.0];
    let pool = vec![candidate(1, 1.0), candidate(2, 1.0), candidate(3, 9.0)];

    let result = robust_prune_candidates(&dataset, 0, &pool, 4, 750, 1.2, false);

    assert_eq!(result, vec![1]);
}

#[test]
fn saturation_fills_up_in_order_of_distance() {
    let dataset = line_dataset(6);
    let pool = vec![
        candidate(5, 25.0),
        candidate(1, 1.0),
        candidate(2, 4.0),
        candidate(3, 9.0),
    ];
    assert_eq!(
        robust_prune_candidates(&dataset, 0, &pool, 3, 750, 1.2, true),
        vec![1, 2, 3]
    );
    assert_eq!(
        robust_prune_candidates(&dataset, 0, &pool, 3, 750, 1.0, true),
        robust_prune_candidates(&dataset, 0, &pool, 3, 750, 1.0, false)
    );
}

#[test]
fn pruning_of_no_candidates_keeps_none() {
    assert!(robust_prune_candidates(&[], 0, &[], 3, 750, 1.2, true).is_empty());
}

#[test]
fn inner_products_are_not_pruned() {
    assert!(check_final_prune_metric(Metric::L2).is_ok());
    assert!(check_final_prune_metric(Metric::Cosine).is_ok());
    match check_final_prune_metric(Metric::Ip) {
        Err(AnnError::IndexConfig { parameter, err }) => {
            assert_eq!(parameter, "metric");
            assert_eq!(err, "ForgeANN final prune supports only L2/Cosine");
        }
        _ => panic!("expected a configuration error"),
    }
}
