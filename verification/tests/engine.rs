use policy_guard::policy::{AggMethod, AggOp, Policy, PolicyLabel};
use policy_guard::frame::{GuardedColumn, GuardedFrame};
use policy_guard::error::EngineError;
use policy_guard::eval::{filter, sort, limit, project, group_by_agg, join_frames, AggExpr,
    ProjExpr};
use policy_guard::plan::{check_all_clean, Plan, PlanNode, QueryExec};
use policy_guard::session::Engine;
use policy_guard::codec::{decode_frame, encode_frame};
use policy_guard::presets::{agg_gated_policy, chronic_policy_frame, healthcare_policy_frame,
    top_gated_policy};

fn mean_once() -> Policy {
    Policy::Declassify {
        label: PolicyLabel::Agg {
            ops: vec![AggOp { how: AggMethod::Mean, group_size: 1 }],
        },
        next: Box::new(Policy::Clean),
    }
}

fn frame(cols: Vec<(&str, Vec<Policy>)>) -> GuardedFrame {
    let columns = cols
        .into_iter()
        .map(|(n, policies)| GuardedColumn { name: n.to_string(), policies })
        .collect();
    GuardedFrame::new(columns).unwrap()
}

fn assert_policy_eq(a: &Policy, b: &Policy) {
    assert!(a.eq_policy(b));
}

#[test]
fn join_has_clean_identity() {
    let p = mean_once();
    assert_policy_eq(&Policy::Clean.join(&p), &p);
    assert_policy_eq(&p.join(&Policy::Clean), &p);
    assert_policy_eq(&Policy::Clean.join(&Policy::Clean), &Policy::Clean);
}

#[test]
fn join_is_idempotent_and_commutative() {
    let p = mean_once();
    let q = top_gated_policy();
    assert_policy_eq(&p.join(&p), &p);
    assert_policy_eq(&q.join(&q), &q);
    assert_policy_eq(&p.join(&q), &q.join(&p));
    // two distinct unmet restrictions collapse to the maximally sensitive policy
    assert_policy_eq(&p.join(&q), &Policy::Top);
}

#[test]
fn join_is_associative() {
    let a = mean_once();
    let b = top_gated_policy();
    let c = Policy::Clean;
    let lhs = a.join(&b).join(&c);
    let rhs = a.join(&b.join(&c));
    assert_policy_eq(&lhs, &rhs);
}

#[test]
fn declassify_never_restricts() {
    let p = mean_once();
    let d = p.declassify(AggMethod::Mean, 3);
    assert_policy_eq(&d, &Policy::Clean);
    assert!(d.le(&p));
    // joining a policy with its own declassified form gives the policy back
    assert_policy_eq(&p.join(&d), &p);
}

#[test]
fn declassify_requires_matching_method_and_size() {
    let p = Policy::Declassify {
        label: PolicyLabel::Agg {
            ops: vec![AggOp { how: AggMethod::Sum, group_size: 4 }],
        },
        next: Box::new(Policy::Clean),
    };
    assert_policy_eq(&p.declassify(AggMethod::Mean, 9), &p);
    assert_policy_eq(&p.declassify(AggMethod::Sum, 3), &p);
    assert_policy_eq(&p.declassify(AggMethod::Sum, 4), &Policy::Clean);
    // the Top label is never auto-satisfied
    let t = top_gated_policy();
    assert_policy_eq(&t.declassify(AggMethod::Sum, 100), &t);
}

#[test]
fn filter_sort_limit_preserve_policies() {
    let f = frame(vec![
        ("a", vec![Policy::Clean, mean_once(), Policy::Top, Policy::Clean]),
    ]);
    let kept = filter(&f, &vec![2usize, 1]).unwrap();
    assert_policy_eq(kept.column(0).policy_at(0), &Policy::Top);
    assert_policy_eq(kept.column(0).policy_at(1), &mean_once());

    let sorted = sort(&f, &vec![3usize, 2, 1, 0]).unwrap();
    assert_policy_eq(sorted.column(0).policy_at(1), &Policy::Top);
    assert_policy_eq(sorted.column(0).policy_at(2), &mean_once());

    let first = limit(&f, 2);
    assert_eq!(first.column(0).rows(), 2);
    assert_policy_eq(first.column(0).policy_at(0), &Policy::Clean);
    assert_policy_eq(first.column(0).policy_at(1), &mean_once());
}

#[test]
fn filter_rejects_out_of_range_rows() {
    let f = frame(vec![("a", vec![Policy::Clean])]);
    assert_eq!(filter(&f, &vec![1usize]).unwrap_err(), EngineError::SchemaMismatch);
}

#[test]
fn computed_projection_joins_sources() {
    let f = frame(vec![
        ("a", vec![Policy::Clean, mean_once()]),
        ("b", vec![top_gated_policy(), Policy::Clean]),
    ]);
    let exprs = vec![
        ProjExpr::Computed { name: "a_plus_b".to_string(), sources: vec![0usize, 1] },
    ];
    let out = project(&f, &exprs).unwrap();
    assert_policy_eq(out.column(0).policy_at(0), &top_gated_policy());
    assert_policy_eq(out.column(0).policy_at(1), &mean_once());
}

#[test]
fn concat_keeps_each_rows_origin_policy_in_any_order() {
    let a = frame(vec![("x", vec![Policy::Clean])]);
    let b = frame(vec![("x", vec![mean_once()])]);
    let c = frame(vec![("x", vec![Policy::Top, Policy::Clean])]);
    let one = policy_guard::eval::concat(&vec![a.clone(), b.clone(), c.clone()]).unwrap();
    assert_policy_eq(one.column(0).policy_at(0), &Policy::Clean);
    assert_policy_eq(one.column(0).policy_at(1), &mean_once());
    assert_policy_eq(one.column(0).policy_at(2), &Policy::Top);
    assert_policy_eq(one.column(0).policy_at(3), &Policy::Clean);
    let two = policy_guard::eval::concat(&vec![c, b, a]).unwrap();
    assert_policy_eq(two.column(0).policy_at(0), &Policy::Top);
    assert_policy_eq(two.column(0).policy_at(1), &Policy::Clean);
    assert_policy_eq(two.column(0).policy_at(2), &mean_once());
    assert_policy_eq(two.column(0).policy_at(3), &Policy::Clean);
}

#[test]
fn concat_rejects_mismatched_schemas() {
    let a = frame(vec![("x", vec![Policy::Clean])]);
    let b = frame(vec![("y", vec![Policy::Clean])]);
    assert_eq!(policy_guard::eval::concat(&vec![a, b]).unwrap_err(), EngineError::SchemaMismatch);
}

#[test]
fn join_combines_key_policies() {
    let left = frame(vec![
        ("k", vec![mean_once()]),
        ("v", vec![Policy::Clean]),
    ]);
    let right = frame(vec![
        ("k", vec![top_gated_policy()]),
        ("w", vec![Policy::Clean]),
    ]);
    let out = join_frames(&left, &right, &vec![0usize], &vec![0usize], &vec![(0usize, 0usize)])
        .unwrap();
    // key column joins both sides' key policies; the right key is dropped
    assert_eq!(out.num_columns(), 3);
    assert_policy_eq(out.column(0).policy_at(0), &Policy::Top);
    assert_policy_eq(out.column(1).policy_at(0), &Policy::Clean);
    assert_policy_eq(out.column(2).policy_at(0), &Policy::Clean);
}

#[test]
fn aggregation_with_qualifying_method_declassifies() {
    // Scenario: a column gated on Mean over any non-empty group, averaged.
    let f = frame(vec![
        ("g", vec![Policy::Clean, Policy::Clean, Policy::Clean]),
        ("x", vec![mean_once(), mean_once(), mean_once()]),
    ]);
    let out = group_by_agg(
        &f,
        &vec![0usize],
        &vec![vec![0usize, 1], vec![2usize]],
        &vec![AggExpr { source: 1, how: AggMethod::Mean, name: "x_mean".to_string() }],
    )
    .unwrap();
    assert!(check_all_clean(&out).is_ok());
}

#[test]
fn count_and_index_selection_never_discharge() {
    // Scenario: counting a gated column, filtering on the count, then
    // selecting only a derived row index still violates the policy.
    let mut plan = Plan::new();
    let source = frame(vec![
        ("country", vec![Policy::Clean, Policy::Clean, Policy::Clean]),
        ("user_id", vec![top_gated_policy(), top_gated_policy(), top_gated_policy()]),
    ]);
    let scan = plan.push(PlanNode::Scan { policy: Some(source) });
    let grouped = plan.push(PlanNode::GroupAgg {
        input: scan,
        keys: vec![0],
        groups: vec![vec![0, 1], vec![2]],
        aggs: vec![AggExpr {
            source: 1,
            how: AggMethod::Count { include_nulls: false },
            name: "count".to_string(),
        }],
    });
    let filtered = plan.push(PlanNode::Filter { input: grouped, keep: vec![0] });
    let indexed = plan.push(PlanNode::WithRowIndex { input: filtered, name: "index".to_string() });
    let _selected = plan.push(PlanNode::Project {
        input: indexed,
        exprs: vec![ProjExpr::Column { source: 0 }],
    });
    let mut engine = Engine::new();
    let ctx = engine.open_new();
    assert!(engine.enable_profiling(ctx, true));
    assert!(engine.enable_tracing(ctx, false));
    let exec = QueryExec::new(plan).set_ctx_id(ctx).set_policy_checking(true);
    match engine.collect(&exec) {
        Err(EngineError::PolicyViolation { column, .. }) => assert_eq!(column, "index"),
        other => panic!("expected a policy violation, got {:?}", other.is_ok()),
    }
}

#[test]
fn bypassed_branches_still_fail_when_recombined() {
    // Scenario: three branches materialized with checking disabled, then
    // concatenated and checked: the inherited restriction is detected.
    let mut engine = Engine::new();
    let ctx = engine.open_new();
    let mut branches: Vec<GuardedFrame> = Vec::new();
    for _ in 0..3 {
        let mut plan = Plan::new();
        let source = frame(vec![
            ("name", vec![mean_once(), mean_once()]),
        ]);
        let scan = plan.push(PlanNode::Scan { policy: Some(source) });
        let _kept = plan.push(PlanNode::Filter { input: scan, keep: vec![1] });
        let exec = QueryExec::new(plan).set_ctx_id(ctx).set_policy_checking(false);
        // checking is off here, yet the policies travel with the result
        branches.push(engine.collect(&exec).unwrap());
    }
    let mut plan = Plan::new();
    let b0 = plan.push(PlanNode::Scan { policy: Some(branches[0].clone()) });
    let b1 = plan.push(PlanNode::Scan { policy: Some(branches[1].clone()) });
    let b2 = plan.push(PlanNode::Scan { policy: Some(branches[2].clone()) });
    let _all = plan.push(PlanNode::Concat { inputs: vec![b0, b1, b2] });
    let exec = QueryExec::new(plan).set_ctx_id(ctx).set_policy_checking(true);
    assert!(matches!(engine.collect(&exec), Err(EngineError::PolicyViolation { .. })));
}

#[test]
fn codec_round_trips_multi_level_chains() {
    let chain = Policy::Declassify {
        label: PolicyLabel::Top,
        next: Box::new(Policy::Declassify {
            label: PolicyLabel::Agg {
                ops: vec![
                    AggOp { how: AggMethod::Max, group_size: 2 },
                    AggOp { how: AggMethod::Count { include_nulls: true }, group_size: 7 },
                ],
            },
            next: Box::new(Policy::Clean),
        }),
    };
    let f = frame(vec![
        ("name", vec![chain.clone(), Policy::Clean]),
        ("age", vec![Policy::Top, chain.clone()]),
    ]);
    let bytes = encode_frame(&f);
    let back = decode_frame(&bytes).unwrap();
    assert_eq!(back.num_columns(), 2);
    assert_eq!(back.column(0).name, "name");
    assert_eq!(back.column(1).name, "age");
    assert_policy_eq(back.column(0).policy_at(0), &chain);
    assert_policy_eq(back.column(0).policy_at(1), &Policy::Clean);
    assert_policy_eq(back.column(1).policy_at(0), &Policy::Top);
    assert_policy_eq(back.column(1).policy_at(1), &chain);
}

#[test]
fn malformed_policy_bytes_are_rejected() {
    assert_eq!(decode_frame(&vec![1, 2, 3]).unwrap_err(), EngineError::InvalidPolicyLabel);
    let f = frame(vec![("a", vec![Policy::Clean])]);
    let mut bytes = encode_frame(&f);
    let last = bytes.len() - 1;
    bytes[last] = 250; // not a policy tag
    assert_eq!(decode_frame(&bytes).unwrap_err(), EngineError::InvalidPolicyLabel);
}

#[test]
fn missing_policy_file_fails_fast() {
    let mut plan = Plan::new();
    plan.push(PlanNode::Scan { policy: None });
    let engine = Engine::new();
    let exec = QueryExec::new(plan);
    assert_eq!(engine.collect(&exec).unwrap_err(), EngineError::MissingPolicyFile);
}

#[test]
fn unsupported_transform_is_reported_distinctly() {
    let mut plan = Plan::new();
    let scan = plan.push(PlanNode::Scan {
        policy: Some(frame(vec![("a", vec![Policy::Clean])])),
    });
    plan.push(PlanNode::Opaque { input: scan });
    let mut engine = Engine::new();
    let ctx = engine.open_new();
    let exec = QueryExec::new(plan).set_ctx_id(ctx).set_policy_checking(true);
    // every cell is clean, but the result is unverified, not verified clean
    assert_eq!(
        engine.collect(&exec).unwrap_err(),
        EngineError::UnsupportedTransformForDeclassification
    );
}

#[test]
fn column_construction_checks_length() {
    let err = GuardedColumn::new("a".to_string(), vec![Policy::Clean], 2).unwrap_err();
    assert_eq!(err, EngineError::SchemaMismatch);
    let ok = GuardedColumn::new("a".to_string(), vec![Policy::Clean, Policy::Top], 2);
    assert!(ok.is_ok());
}

#[test]
fn frame_schema_validation() {
    let f = frame(vec![("a", vec![Policy::Clean]), ("b", vec![Policy::Top])]);
    assert!(f.matches_schema(&vec!["a".to_string(), "b".to_string()], 1));
    assert!(!f.matches_schema(&vec!["a".to_string(), "c".to_string()], 1));
    assert!(!f.matches_schema(&vec!["a".to_string(), "b".to_string()], 2));
}

#[test]
fn healthcare_policies_follow_schema() {
    let names = vec!["name".to_string(), "medical_condition".to_string(), "age".to_string()];
    let f = healthcare_policy_frame(&names, 2);
    assert_policy_eq(f.column(0).policy_at(0), &top_gated_policy());
    assert_policy_eq(f.column(1).policy_at(1), &agg_gated_policy());
    assert_policy_eq(f.column(2).policy_at(0), &Policy::Clean);
}

#[test]
fn chronic_policies_follow_schema_and_age_rows() {
    let names = vec![
        "user_id".to_string(),
        "age".to_string(),
        "trackable_name".to_string(),
        "country".to_string(),
    ];
    let f = chronic_policy_frame(&names, 3, &vec![1usize]).unwrap();
    assert_policy_eq(f.column(0).policy_at(2), &top_gated_policy());
    assert_policy_eq(f.column(1).policy_at(0), &Policy::Clean);
    assert_policy_eq(f.column(1).policy_at(1), &top_gated_policy());
    assert_policy_eq(f.column(2).policy_at(0), &agg_gated_policy());
    assert_policy_eq(f.column(3).policy_at(1), &Policy::Clean);
    assert_eq!(
        chronic_policy_frame(&names, 3, &vec![9usize]).unwrap_err(),
        EngineError::SchemaMismatch
    );
}

#[test]
fn sessions_are_independent() {
    let mut engine = Engine::new();
    let a = engine.open_new();
    let b = engine.open_new();
    assert_ne!(a, b);
    assert!(engine.enable_profiling(a, true));
    assert!(engine.enable_tracing(b, true));
    assert!(!engine.enable_profiling(99, true));
    assert!(engine.has_session(a) && engine.has_session(b) && !engine.has_session(99));
}

#[test]
fn sorted_then_limited_pipeline_passes_when_clean() {
    // a sort-and-take query over unrestricted columns is released
    let mut plan = Plan::new();
    let scan = plan.push(PlanNode::Scan {
        policy: Some(frame(vec![("age", vec![Policy::Clean, Policy::Clean, Policy::Clean])])),
    });
    let sorted = plan.push(PlanNode::Sort { input: scan, perm: vec![2, 0, 1] });
    plan.push(PlanNode::Limit { input: sorted, n: 1 });
    let mut engine = Engine::new();
    let ctx = engine.open_new();
    let exec = QueryExec::new(plan).set_ctx_id(ctx).set_policy_checking(true);
    let out = engine.collect(&exec).unwrap();
    assert_eq!(out.column(0).rows(), 1);
}
