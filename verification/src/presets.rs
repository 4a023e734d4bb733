//! Policy assignment for the shipped datasets: given a raw file's schema
//! and row count, build the guarded frame its companion policy file
//! holds.  Identifying columns are gated by a label no transform
//! satisfies; measurement columns may be declassified by small
//! aggregations; everything else is `Clean`.

use vstd::prelude::*;
use crate::policy::{Policy, PolicyLabel, PolicyModel, LabelModel, AggMethod, AggOp};
use crate::frame::{GuardedColumn, GuardedFrame, ColumnModel};
use crate::error::EngineError;

verus! {

/// Model of the policy on identifying columns: gated by the `Top` label,
/// which no transform ever satisfies, so only explicit declassification
/// could release it.
pub open spec fn top_gated_model() -> PolicyModel {
    PolicyModel::Declassify { label: LabelModel::Top, next: Box::new(PolicyModel::Clean) }
}

/// Model of the policy on measurement columns: released once consumed by
/// a maximum, mean, or non-null count over any non-empty group.
pub open spec fn agg_gated_model() -> PolicyModel {
    PolicyModel::Declassify {
        label: LabelModel::Agg {
            ops: seq![
                AggOp { how: AggMethod::Max, group_size: 1 },
                AggOp { how: AggMethod::Mean, group_size: 1 },
                AggOp { how: AggMethod::Count { include_nulls: false }, group_size: 1 },
            ],
        },
        next: Box::new(PolicyModel::Clean),
    }
}

/// The identifying-column policy.
pub fn top_gated_policy() -> (p: Policy)
    ensures
        p@ == top_gated_model(),
{
    let p = Policy::Declassify { label: PolicyLabel::Top, next: Box::new(Policy::Clean) };
    proof {
        assert(crate::policy::policy_model(Policy::Clean) == PolicyModel::Clean);
    }
    p
}

/// The measurement-column policy.
pub fn agg_gated_policy() -> (p: Policy)
    ensures
        p@ == agg_gated_model(),
{
    let mut ops: Vec<AggOp> = Vec::new();
    ops.push(AggOp { how: AggMethod::Max, group_size: 1 });
    ops.push(AggOp { how: AggMethod::Mean, group_size: 1 });
    ops.push(AggOp { how: AggMethod::Count { include_nulls: false }, group_size: 1 });
    let p = Policy::Declassify {
        label: PolicyLabel::Agg { ops },
        next: Box::new(Policy::Clean),
    };
    proof {
        assert(crate::policy::policy_model(Policy::Clean) == PolicyModel::Clean);
        assert(p@ matches PolicyModel::Declassify { label: LabelModel::Agg { ops: o }, .. }
            ==> o =~= agg_gated_model()->Declassify_label->Agg_ops);
        assert(p@ =~= agg_gated_model());
    }
    p
}

/// One cell of the healthcare dataset's policy frame: patient names are
/// identifying, the medical condition is a measurement, all else is
/// unrestricted.
pub open spec fn healthcare_cell(name: Seq<char>) -> PolicyModel {
    if name == "name"@ {
        top_gated_model()
    } else if name == "medical_condition"@ {
        agg_gated_model()
    } else {
        PolicyModel::Clean
    }
}

/// One constant policy repeated for every row of a column.
fn constant_column(name: String, p: &Policy, rows: usize) -> (c: GuardedColumn)
    ensures
        c@.name == name@,
        c@.policies == Seq::new(rows as nat, |i: int| p@),
{
    let mut policies: Vec<Policy> = Vec::new();
    let mut i: usize = 0;
    while i < rows
        invariant
            i <= rows,
            policies.len() == i,
            forall|t: int| 0 <= t < i ==> policies@[t]@ == p@,
        decreases rows - i,
    {
        policies.push(p.clone());
        i = i + 1;
    }
    let c = GuardedColumn { name, policies };
    proof {
        assert(c@.policies =~= Seq::new(rows as nat, |t: int| p@));
    }
    c
}

/// The healthcare dataset's guarded frame: one column per schema name,
/// one policy per raw row.
pub fn healthcare_policy_frame(names: &Vec<String>, row_count: usize) -> (f: GuardedFrame)
    ensures
        f@ == Seq::new(
            names@.len(),
            |c: int|
                ColumnModel {
                    name: names@[c]@,
                    policies: Seq::new(row_count as nat, |i: int| healthcare_cell(names@[c]@)),
                },
        ),
{
    let name_key: String = "name".to_owned();
    let condition_key: String = "medical_condition".to_owned();
    let top_gated = top_gated_policy();
    let agg_gated = agg_gated_policy();
    let clean = Policy::Clean;
    let mut columns: Vec<GuardedColumn> = Vec::new();
    let mut c: usize = 0;
    while c < names.len()
        invariant
            c <= names@.len(),
            columns.len() == c,
            name_key@ == "name"@,
            condition_key@ == "medical_condition"@,
            top_gated@ == top_gated_model(),
            agg_gated@ == agg_gated_model(),
            clean@ == PolicyModel::Clean,
            forall|t: int|
                0 <= t < c ==> (#[trigger] columns@[t])@.name == names@[t]@ && columns@[t]@.policies
                    == Seq::new(row_count as nat, |i: int| healthcare_cell(names@[t]@)),
        decreases names@.len() - c,
    {
        let nm = names[c].clone();
        let chosen = if names[c] == name_key {
            &top_gated
        } else if names[c] == condition_key {
            &agg_gated
        } else {
            &clean
        };
        assert(chosen@ == healthcare_cell(names@[c as int]@));
        columns.push(constant_column(nm, chosen, row_count));
        c = c + 1;
    }
    let f = GuardedFrame { columns };
    proof {
        assert(f@ =~= Seq::new(
            names@.len(),
            |t: int|
                ColumnModel {
                    name: names@[t]@,
                    policies: Seq::new(row_count as nat, |i: int| healthcare_cell(names@[t]@)),
                },
        ));
    }
    f
}

/// Whether `name` begins with the characters of `p`.
pub open spec fn starts_with_chars(name: Seq<char>, p: Seq<char>) -> bool {
    p.len() <= name.len() && name.subrange(0, p.len() as int) == p
}

/// One cell of the chronic check-in dataset's policy frame: user
/// identifiers are identifying, the tracked measurements may be
/// declassified by aggregation, and the age column is restricted only on
/// the rows whose age exceeds the disclosure threshold.
pub open spec fn chronic_cell(name: Seq<char>, row: int, elderly: Seq<usize>) -> PolicyModel {
    if name == "user_id"@ {
        top_gated_model()
    } else if starts_with_chars(name, "trackable_"@) {
        agg_gated_model()
    } else if name == "age"@ {
        if exists|k: int| 0 <= k < elderly.len() && elderly[k] == row {
            top_gated_model()
        } else {
            PolicyModel::Clean
        }
    } else {
        PolicyModel::Clean
    }
}

/// Whether `s` begins with the characters of `p`.
#[verifier::loop_isolation(false)]
fn chars_prefix(s: &String, p: &String) -> (r: bool)
    ensures
        r == starts_with_chars(s@, p@),
{
    let sl = s.as_str();
    let pl = p.as_str();
    let n = sl.unicode_len();
    let m = pl.unicode_len();
    if m > n {
        return false;
    }
    let mut i: usize = 0;
    while i < m
        invariant
            i <= m,
            m == p@.len(),
            n == s@.len(),
            m <= n,
            forall|t: int| 0 <= t < i ==> s@[t] == p@[t],
        decreases m - i,
    {
        if sl.get_char(i) != pl.get_char(i) {
            assert(s@.subrange(0, p@.len() as int)[i as int] != p@[i as int]);
            return false;
        }
        i = i + 1;
    }
    proof {
        assert(s@.subrange(0, p@.len() as int) =~= p@);
    }
    true
}

/// The chronic check-in dataset's guarded frame; the caller hands over
/// the rows whose age exceeds the disclosure threshold, which must lie
/// within the frame.
pub fn chronic_policy_frame(names: &Vec<String>, row_count: usize, elderly_rows: &Vec<usize>) -> (
    result: Result<GuardedFrame, EngineError>)
    ensures
        result is Ok <==> (forall|k: int|
            0 <= k < elderly_rows@.len() ==> (#[trigger] elderly_rows@[k]) < row_count),
        result matches Ok(f) ==> f@ == Seq::new(
            names@.len(),
            |c: int|
                ColumnModel {
                    name: names@[c]@,
                    policies: Seq::new(
                        row_count as nat,
                        |i: int| chronic_cell(names@[c]@, i, elderly_rows@),
                    ),
                },
        ),
        result matches Err(e) ==> e == EngineError::SchemaMismatch,
{
    let mut k: usize = 0;
    while k < elderly_rows.len()
        invariant
            k <= elderly_rows@.len(),
            forall|t: int| 0 <= t < k ==> (#[trigger] elderly_rows@[t]) < row_count,
        decreases elderly_rows@.len() - k,
    {
        if elderly_rows[k] >= row_count {
            return Err(EngineError::SchemaMismatch);
        }
        k = k + 1;
    }
    let user_key: String = "user_id".to_owned();
    let age_key: String = "age".to_owned();
    let trackable_prefix: String = "trackable_".to_owned();
    let top_gated = top_gated_policy();
    let agg_gated = agg_gated_policy();
    let clean = Policy::Clean;
    let mut columns: Vec<GuardedColumn> = Vec::new();
    let mut c: usize = 0;
    while c < names.len()
        invariant
            c <= names@.len(),
            columns.len() == c,
            user_key@ == "user_id"@,
            age_key@ == "age"@,
            trackable_prefix@ == "trackable_"@,
            top_gated@ == top_gated_model(),
            agg_gated@ == agg_gated_model(),
            clean@ == PolicyModel::Clean,
            forall|t: int| 0 <= t < elderly_rows@.len() ==> (#[trigger] elderly_rows@[t]) < row_count,
            forall|t: int|
                0 <= t < c ==> (#[trigger] columns@[t])@.name == names@[t]@ && columns@[t]@.policies
                    == Seq::new(
                    row_count as nat,
                    |i: int| chronic_cell(names@[t]@, i, elderly_rows@),
                ),
        decreases names@.len() - c,
    {
        let nm = names[c].clone();
        let col: GuardedColumn = if names[c] == user_key {
            constant_column(nm, &top_gated, row_count)
        } else if chars_prefix(&names[c], &trackable_prefix) {
            constant_column(nm, &agg_gated, row_count)
        } else if names[c] == age_key {
            let mut policies: Vec<Policy> = Vec::new();
            let mut i: usize = 0;
            while i < row_count
                invariant
                    i <= row_count,
                    policies.len() == i,
                    forall|t: int| 0 <= t < i ==> policies@[t]@ == PolicyModel::Clean,
                decreases row_count - i,
            {
                policies.push(Policy::Clean);
                i = i + 1;
            }
            let mut e: usize = 0;
            while e < elderly_rows.len()
                invariant
                    e <= elderly_rows@.len(),
                    policies.len() == row_count,
                    top_gated@ == top_gated_model(),
                    forall|t: int|
                        0 <= t < elderly_rows@.len() ==> (#[trigger] elderly_rows@[t]) < row_count,
                    forall|t: int|
                        0 <= t < row_count ==> policies@[t]@ == (if exists|k2: int|
                            0 <= k2 < e && elderly_rows@[k2] == t {
                            top_gated_model()
                        } else {
                            PolicyModel::Clean
                        }),
                decreases elderly_rows@.len() - e,
            {
                let row = elderly_rows[e];
                policies[row] = top_gated.clone();
                proof {
                    assert forall|t: int| 0 <= t < row_count implies (#[trigger] policies@[t])@
                        == (if exists|k2: int|
                        0 <= k2 < e + 1 && (#[trigger] elderly_rows@[k2]) == t {
                        top_gated_model()
                    } else {
                        PolicyModel::Clean
                    }) by {
                        if t == row as int {
                            assert(0 <= e < e + 1 && elderly_rows@[e as int] == t);
                        } else {
                            if exists|k2: int|
                                0 <= k2 < e + 1 && (#[trigger] elderly_rows@[k2]) == t {
                                let k2 = choose|k2: int|
                                    0 <= k2 < e + 1 && (#[trigger] elderly_rows@[k2]) == t;
                                assert(k2 < e);
                                assert(exists|k3: int|
                                    0 <= k3 < e && (#[trigger] elderly_rows@[k3]) == t);
                            }
                        }
                    };
                }
                e = e + 1;
            }
            let col = GuardedColumn { name: nm, policies };
            proof {
                assert(col@.policies =~= Seq::new(
                    row_count as nat,
                    |i2: int| chronic_cell(names@[c as int]@, i2, elderly_rows@),
                ));
            }
            col
        } else {
            constant_column(nm, &clean, row_count)
        };
        proof {
            assert(col@.policies =~= Seq::new(
                row_count as nat,
                |i2: int| chronic_cell(names@[c as int]@, i2, elderly_rows@),
            ));
        }
        columns.push(col);
        c = c + 1;
    }
    let f = GuardedFrame { columns };
    proof {
        assert(f@ =~= Seq::new(
            names@.len(),
            |t: int|
                ColumnModel {
                    name: names@[t]@,
                    policies: Seq::new(
                        row_count as nat,
                        |i: int| chronic_cell(names@[t]@, i, elderly_rows@),
                    ),
                },
        ));
    }
    Ok(f)
}

} // verus!
