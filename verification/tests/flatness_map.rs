use flatness_map::flatness::{build_flatness_map, FlatnessMap};
use flatness_map::sample_map::{InMemorySampleMap, SamplePoint};
use flatness_map::transform::{GradientTransform, SqrtFlatnessTransform, TableTransform, SCALE};

fn point(id: u64, elevation: i64, gradient: Option<i64>, neighbors: Vec<u64>) -> SamplePoint {
    SamplePoint {
        id,
        elevation,
        gradient,
        neighbors,
    }
}

/// Points A..E as ids 1..5 at elevations [10, -2, 8, 9, 7], with adjacency
/// A:{C,D}, C:{A,E}, D:{A}, E:{C}.
fn scenario_map() -> InMemorySampleMap {
    InMemorySampleMap::new(vec![
        point(1, 10, Some(11), vec![3, 4]),
        point(2, -2, Some(22), vec![]),
        point(3, 8, Some(33), vec![1, 5]),
        point(4, 9, Some(44), vec![1]),
        point(5, 7, Some(55), vec![3]),
    ])
}

/// A policy accepting the gradients of A, C, D, E with scores
/// [0.9, 0.4, 0.95, 0.1] in fixed point.
fn scenario_transform() -> TableTransform {
    TableTransform::new(vec![
        (11, 900_000),
        (33, 400_000),
        (44, 950_000),
        (55, 100_000),
    ])
}

#[test]
fn scenario_neighbor_filter_retains_a_and_c() {
    let em = scenario_map();
    let t = scenario_transform();
    let r = build_flatness_map(&em, 2, 0, &t);
    assert_eq!(r, vec![(1, 900_000), (3, 400_000)]);
}

#[test]
fn stage1_excludes_below_sea_level() {
    let em = scenario_map();
    let t = scenario_transform();
    let r = build_flatness_map(&em, 0, 0, &t);
    // B (id 2, elevation -2) is submerged; the four others are scored.
    assert_eq!(
        r,
        vec![(1, 900_000), (3, 400_000), (4, 950_000), (5, 100_000)]
    );
    assert!(r.iter().all(|&(p, _)| p != 2));
}

#[test]
fn sea_level_exclusion_holds_of_output() {
    let em = scenario_map();
    let t = scenario_transform();
    let sea_level = 8;
    let r = build_flatness_map(&em, 0, sea_level, &t);
    let elevations = [(1, 10), (2, -2), (3, 8), (4, 9), (5, 7)];
    for &(p, _) in &r {
        let elevation = elevations.iter().find(|&&(q, _)| q == p).unwrap().1;
        assert!(elevation >= sea_level);
    }
    assert_eq!(r, vec![(1, 900_000), (3, 400_000), (4, 950_000)]);
}

#[test]
fn zero_threshold_is_identity_filter() {
    let em = scenario_map();
    let t = scenario_transform();
    let unfiltered = build_flatness_map(&em, 0, 0, &t);
    assert_eq!(unfiltered.len(), 4);
    // With threshold 1, counts against the frozen stage-1 set are
    // A:2, C:2, D:1, E:1, so nothing is pruned either.
    let r1 = build_flatness_map(&em, 1, 0, &t);
    assert_eq!(r1, unfiltered);
}

#[test]
fn monotone_thresholding_shrinks_domain() {
    let em = scenario_map();
    let t = scenario_transform();
    let mut previous: Option<Vec<u64>> = None;
    for n in 0..4usize {
        let domain: Vec<u64> = build_flatness_map(&em, n, 0, &t)
            .iter()
            .map(|&(p, _)| p)
            .collect();
        if let Some(wider) = &previous {
            assert!(domain.iter().all(|p| wider.contains(p)));
        }
        previous = Some(domain);
    }
    assert_eq!(previous.unwrap(), Vec::<u64>::new());
}

#[test]
fn determinism_repeated_calls() {
    let em = scenario_map();
    let t = scenario_transform();
    let first = build_flatness_map(&em, 2, 0, &t);
    let second = build_flatness_map(&em, 2, 0, &t);
    assert_eq!(first, second);
}

#[test]
fn empty_input_closure() {
    let em = scenario_map();
    let t = scenario_transform();
    // Sea level above every elevation: nothing qualifies.
    let r = build_flatness_map(&em, 0, 100, &t);
    assert!(r.is_empty());
    let empty = InMemorySampleMap::new(Vec::new());
    assert!(build_flatness_map(&empty, 0, 0, &t).is_empty());
}

#[test]
fn elevation_exactly_at_sea_level_is_kept() {
    let em = InMemorySampleMap::new(vec![point(7, 0, Some(11), vec![])]);
    let t = scenario_transform();
    assert_eq!(build_flatness_map(&em, 0, 0, &t), vec![(7, 900_000)]);
}

#[test]
fn missing_gradient_excludes_point() {
    let em = InMemorySampleMap::new(vec![
        point(1, 50, None, vec![]),
        point(2, 50, Some(11), vec![]),
    ]);
    let t = scenario_transform();
    assert_eq!(build_flatness_map(&em, 0, 0, &t), vec![(2, 900_000)]);
}

#[test]
fn rejected_gradient_excludes_point() {
    let em = InMemorySampleMap::new(vec![
        point(1, 50, Some(999), vec![]),
        point(2, 50, Some(11), vec![]),
    ]);
    // 999 is absent from the table, so the policy returns no score for it.
    let t = scenario_transform();
    assert_eq!(build_flatness_map(&em, 0, 0, &t), vec![(2, 900_000)]);
}

#[test]
fn flatness_map_holder_keeps_result_and_parameters() {
    let em = scenario_map();
    let t = scenario_transform();
    let fm = FlatnessMap::new(&em, 2, 0, &t);
    assert_eq!(fm.map(), &vec![(1, 900_000), (3, 400_000)]);
    assert_eq!(fm.minimum_neighbor_num(), 2);
    assert_eq!(fm.sea_level(), 0);
}

#[test]
fn sqrt_transform_exact_values() {
    let t = SqrtFlatnessTransform::new(5 * SCALE);
    // Flat ground: score 1.
    assert_eq!(t.transform(0), Some(SCALE));
    // |gradient|/steepness = 3/4: score sqrt(1/4) = 1/2, exactly.
    assert_eq!(t.transform(3_750_000), Some(500_000));
    assert_eq!(t.transform(-3_750_000), Some(500_000));
    // |gradient| equal to the steepness constant: score 0.
    assert_eq!(t.transform(5 * SCALE), Some(0));
    // sqrt(1/1_000_000) = 1/1000, exactly.
    assert_eq!(t.transform(4_999_999), Some(1_000));
    // Too steep: rejected.
    assert_eq!(t.transform(5 * SCALE + 5), None);
    assert_eq!(t.transform(i64::MAX), None);
    assert_eq!(t.transform(i64::MIN), None);
}

#[test]
fn sqrt_transform_scores_stay_in_unit_range() {
    let t = SqrtFlatnessTransform::new(7 * SCALE + 13);
    let mut g = 1i64;
    while g < 8 * SCALE {
        if let Some(s) = t.transform(g) {
            assert!(0 <= s && s <= SCALE);
        }
        g = g * 3 + 1;
    }
}

#[test]
fn sqrt_transform_monotone_in_gradient_magnitude() {
    let t = SqrtFlatnessTransform::new(5 * SCALE);
    let mut previous = t.transform(0).unwrap();
    for g in (0..=5 * SCALE).step_by(250_000) {
        let s = t.transform(g).unwrap();
        assert!(s <= previous);
        previous = s;
    }
}

#[test]
fn sqrt_transform_rejects_non_positive_steepness() {
    assert_eq!(SqrtFlatnessTransform::new(0).transform(0), None);
    assert_eq!(SqrtFlatnessTransform::new(-5).transform(0), None);
}

#[test]
fn table_transform_first_match_wins() {
    let t = TableTransform::new(vec![(7, 1), (7, 2)]);
    assert_eq!(t.transform(7), Some(1));
    assert_eq!(t.transform(8), None);
}

#[test]
fn scores_of_default_policy_in_pipeline_are_bounded() {
    let em = InMemorySampleMap::new(vec![
        point(1, 10, Some(0), vec![2]),
        point(2, 20, Some(2_500_000), vec![1, 3]),
        point(3, 30, Some(4_999_999), vec![2]),
        point(4, 40, Some(6_000_000), vec![]),
    ]);
    let t = SqrtFlatnessTransform::new(5 * SCALE);
    let r = build_flatness_map(&em, 0, 0, &t);
    // Point 4's gradient is too steep for the policy.
    assert_eq!(r.iter().map(|&(p, _)| p).collect::<Vec<_>>(), vec![1, 2, 3]);
    for &(_, s) in &r {
        assert!(0 <= s && s <= SCALE);
    }
    assert_eq!(r[0], (1, SCALE));
}
