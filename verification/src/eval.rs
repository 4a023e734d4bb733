//! The provenance evaluator: one policy-propagation rule per relational
//! operator, applied in lockstep with physical execution.
//!
//! Every function here is a pure function of its operator's inputs: it
//! reads the input guarded frame together with the data-dependent shape
//! of the operator (which rows a predicate kept, how rows were grouped,
//! which row pairs a join matched) and produces a new guarded frame.
//! Policies are never mutated in place.

use vstd::prelude::*;
use crate::policy::{Policy, PolicyModel, AggMethod, join_model, declassify_model};
use crate::frame::{GuardedColumn, GuardedFrame, ColumnModel, frame_rows, frame_uniform};
use crate::error::EngineError;

verus! {

/// The join of every policy in a sequence; `Clean` for the empty one.
pub open spec fn join_all(ps: Seq<PolicyModel>) -> PolicyModel
    decreases ps.len(),
{
    if ps.len() == 0 {
        PolicyModel::Clean
    } else {
        join_model(join_all(ps.drop_last()), ps.last())
    }
}

/// Every index in `idx` addresses a row of `col`.
pub open spec fn col_rows_valid(col: ColumnModel, idx: Seq<usize>) -> bool {
    forall|j: int| 0 <= j < idx.len() ==> (#[trigger] idx[j]) < col.policies.len()
}

/// Positional row selection of one column: output row `j`'s policy is
/// the selected input row's policy, unchanged.
pub open spec fn selected_column(col: ColumnModel, idx: Seq<usize>) -> ColumnModel {
    ColumnModel { name: col.name, policies: idx.map_values(|r: usize| col.policies[r as int]) }
}

/// Row selection over a whole frame (filter and sort): defined whenever
/// every index addresses a row of every column.
pub open spec fn select_model(f: Seq<ColumnModel>, idx: Seq<usize>) -> Option<Seq<ColumnModel>> {
    if forall|c: int| 0 <= c < f.len() ==> col_rows_valid(#[trigger] f[c], idx) {
        Some(f.map_values(|col: ColumnModel| selected_column(col, idx)))
    } else {
        None
    }
}

/// Limit keeps the first `n` rows of every column, policies unchanged.
pub open spec fn limit_model(f: Seq<ColumnModel>, n: int) -> Seq<ColumnModel> {
    f.map_values(
        |col: ColumnModel|
            ColumnModel {
                name: col.name,
                policies: if n < col.policies.len() {
                    col.policies.take(n)
                } else {
                    col.policies
                },
            },
    )
}

/// One projected output column.
pub enum ProjExpr {
    /// Direct column reference: policies pass through unchanged.
    Column { source: usize },
    /// A computed column: per row, the `join` of the policies of every
    /// source cell feeding that row's expression.
    Computed { name: String, sources: Vec<usize> },
}

/// The policies of one row across the given source columns.
pub open spec fn row_sources(f: Seq<ColumnModel>, sources: Seq<usize>, row: int) -> Seq<
    PolicyModel,
> {
    sources.map_values(|c: usize| f[c as int].policies[row])
}

/// The output column a projection expression produces.
pub open spec fn projected_column(f: Seq<ColumnModel>, e: ProjExpr) -> ColumnModel {
    match e {
        ProjExpr::Column { source } => f[source as int],
        ProjExpr::Computed { name, sources } => ColumnModel {
            name: name@,
            policies: Seq::new(
                frame_rows(f),
                |row: int| join_all(row_sources(f, sources@, row)),
            ),
        },
    }
}

/// Validity of one projection expression against a frame.
pub open spec fn proj_expr_ok(f: Seq<ColumnModel>, e: ProjExpr) -> bool {
    match e {
        ProjExpr::Column { source } => source < f.len(),
        ProjExpr::Computed { name, sources } => forall|s: int|
            0 <= s < sources@.len() ==> (#[trigger] sources@[s]) < f.len(),
    }
}

/// Every projection expression only references existing columns.
pub open spec fn proj_exprs_valid(f: Seq<ColumnModel>, exprs: Seq<ProjExpr>) -> bool {
    forall|k: int| 0 <= k < exprs.len() ==> proj_expr_ok(f, #[trigger] exprs[k])
}

/// Projection over a whole frame.
pub open spec fn project_model(f: Seq<ColumnModel>, exprs: Seq<ProjExpr>) -> Option<
    Seq<ColumnModel>,
> {
    if frame_uniform(f) && proj_exprs_valid(f, exprs) {
        Some(exprs.map_values(|e: ProjExpr| projected_column(f, e)))
    } else {
        None
    }
}

/// The `join` of one row's policies across all columns.
pub open spec fn row_join(f: Seq<ColumnModel>, i: int) -> PolicyModel {
    join_all(Seq::new(f.len(), |c: int| f[c].policies[i]))
}

/// A freshly derived row-index column: its values record which rows
/// survived earlier operators, so each index cell inherits the `join` of
/// its whole row's policies — deriving an index never discharges a
/// pending declassification.  Every other column passes through
/// unchanged.
pub open spec fn with_row_index_model(f: Seq<ColumnModel>, name: Seq<char>) -> Option<
    Seq<ColumnModel>,
> {
    if frame_uniform(f) {
        Some(
            seq![
                ColumnModel { name: name, policies: Seq::new(frame_rows(f), |i: int| row_join(f, i)) },
            ] + f,
        )
    } else {
        None
    }
}

/// Selects rows of one column by position, cloning each selected policy.
fn select_column_rows(col: &GuardedColumn, idx: &Vec<usize>) -> (result: Result<
    Vec<Policy>,
    EngineError,
>)
    ensures
        result is Ok <==> col_rows_valid(col@, idx@),
        result matches Ok(ps) ==> ps@.map_values(|p: Policy| p@) == selected_column(
            col@,
            idx@,
        ).policies,
        result matches Err(e) ==> e == EngineError::SchemaMismatch,
{
    let mut ps: Vec<Policy> = Vec::new();
    let mut j: usize = 0;
    while j < idx.len()
        invariant
            j <= idx.len(),
            ps.len() == j,
            forall|t: int|
                0 <= t < j ==> (#[trigger] idx@[t]) < col@.policies.len() && ps@[t]@
                    == col@.policies[idx@[t] as int],
        decreases idx.len() - j,
    {
        let r = idx[j];
        if r >= col.policies.len() {
            assert(!col_rows_valid(col@, idx@));
            return Err(EngineError::SchemaMismatch);
        }
        ps.push(col.policies[r].clone());
        j = j + 1;
    }
    proof {
        assert(ps@.map_values(|p: Policy| p@) =~= selected_column(col@, idx@).policies);
    }
    Ok(ps)
}

/// Row selection over a whole frame: shared body of `filter` and `sort`.
fn select_rows(input: &GuardedFrame, idx: &Vec<usize>) -> (result: Result<
    GuardedFrame,
    EngineError,
>)
    ensures
        result is Ok <==> select_model(input@, idx@) is Some,
        result matches Ok(f) ==> Some(f@) == select_model(input@, idx@),
        result matches Err(e) ==> e == EngineError::SchemaMismatch,
{
    let mut columns: Vec<GuardedColumn> = Vec::new();
    let mut c: usize = 0;
    while c < input.columns.len()
        invariant
            c <= input.columns.len(),
            columns.len() == c,
            forall|t: int|
                0 <= t < c ==> col_rows_valid(#[trigger] input@[t], idx@) && columns@[t]@
                    == selected_column(input@[t], idx@),
        decreases input.columns.len() - c,
    {
        let src = &input.columns[c];
        assert(src@ == input@[c as int]);
        match select_column_rows(src, idx) {
            Ok(ps) => {
                let out = GuardedColumn { name: src.name.clone(), policies: ps };
                proof {
                    assert(out@ =~= selected_column(input@[c as int], idx@));
                }
                columns.push(out);
            },
            Err(e) => {
                return Err(e);
            },
        }
        c = c + 1;
    }
    let f = GuardedFrame { columns };
    proof {
        assert(f@ =~= select_model(input@, idx@).unwrap());
    }
    Ok(f)
}

/// Filter: positional row selection; output row `i`'s policy equals the
/// selected input row's policy, unchanged.  Filtering never declassifies
/// and never escalates.
pub fn filter(input: &GuardedFrame, keep: &Vec<usize>) -> (result: Result<
    GuardedFrame,
    EngineError,
>)
    ensures
        result is Ok <==> select_model(input@, keep@) is Some,
        result matches Ok(f) ==> Some(f@) == select_model(input@, keep@),
        result matches Ok(f) ==> forall|c: int, i: int|
            0 <= c < input@.len() && 0 <= i < keep@.len() ==> #[trigger] f@[c].policies[i]
                == input@[c].policies[keep@[i] as int],
        result matches Err(e) ==> e == EngineError::SchemaMismatch,
{
    select_rows(input, keep)
}

/// Sort: a pure reordering; each policy travels with its row, unchanged.
pub fn sort(input: &GuardedFrame, perm: &Vec<usize>) -> (result: Result<
    GuardedFrame,
    EngineError,
>)
    ensures
        result is Ok <==> select_model(input@, perm@) is Some,
        result matches Ok(f) ==> Some(f@) == select_model(input@, perm@),
        result matches Ok(f) ==> forall|c: int, i: int|
            0 <= c < input@.len() && 0 <= i < perm@.len() ==> #[trigger] f@[c].policies[i]
                == input@[c].policies[perm@[i] as int],
        result matches Err(e) ==> e == EngineError::SchemaMismatch,
{
    select_rows(input, perm)
}

/// Limit: a pure subsetting; each surviving policy is unchanged.
pub fn limit(input: &GuardedFrame, n: usize) -> (f: GuardedFrame)
    ensures
        f@ == limit_model(input@, n as int),
        forall|c: int, i: int|
            0 <= c < input@.len() && 0 <= i < f@[c].policies.len() ==> #[trigger] f@[c].policies[i]
                == input@[c].policies[i],
{
    let mut columns: Vec<GuardedColumn> = Vec::new();
    let mut c: usize = 0;
    while c < input.columns.len()
        invariant
            c <= input.columns.len(),
            columns.len() == c,
            forall|t: int|
                0 <= t < c ==> columns@[t]@ == limit_model(input@, n as int)[t],
        decreases input.columns.len() - c,
    {
        let src = &input.columns[c];
        assert(src@ == input@[c as int]);
        let m = if n < src.policies.len() {
            n
        } else {
            src.policies.len()
        };
        let mut ps: Vec<Policy> = Vec::new();
        let mut j: usize = 0;
        while j < m
            invariant
                j <= m,
                m <= src.policies.len(),
                ps.len() == j,
                forall|t: int| 0 <= t < j ==> ps@[t]@ == src@.policies[t],
            decreases m - j,
        {
            ps.push(src.policies[j].clone());
            j = j + 1;
        }
        let out = GuardedColumn { name: src.name.clone(), policies: ps };
        proof {
            assert(out@ =~= limit_model(input@, n as int)[c as int]);
        }
        columns.push(out);
        c = c + 1;
    }
    let f = GuardedFrame { columns };
    proof {
        assert(f@ =~= limit_model(input@, n as int));
    }
    f
}

/// The join of all the policies of one row across the given source
/// columns; `Clean` when there is no source.
fn join_row_sources(input: &GuardedFrame, sources: &Vec<usize>, row: usize) -> (p: Policy)
    requires
        forall|s: int| 0 <= s < sources@.len() ==> (#[trigger] sources@[s]) < input@.len(),
        forall|s: int|
            0 <= s < sources@.len() ==> row < input@[sources@[s] as int].policies.len(),
    ensures
        p@ == join_all(row_sources(input@, sources@, row as int)),
{
    let mut acc = Policy::Clean;
    let mut s: usize = 0;
    while s < sources.len()
        invariant
            s <= sources.len(),
            forall|t: int| 0 <= t < sources@.len() ==> (#[trigger] sources@[t]) < input@.len(),
            forall|t: int|
                0 <= t < sources@.len() ==> row < input@[sources@[t] as int].policies.len(),
            acc@ == join_all(row_sources(input@, sources@.subrange(0, s as int), row as int)),
        decreases sources.len() - s,
    {
        let src = sources[s];
        let next = acc.join(&input.columns[src].policies[row]);
        proof {
            let pre = sources@.subrange(0, s as int);
            let cur = sources@.subrange(0, s as int + 1);
            assert(row_sources(input@, cur, row as int).drop_last() =~= row_sources(
                input@,
                pre,
                row as int,
            ));
            assert(row_sources(input@, cur, row as int).last() == input@[sources@[s as int] as int]
                .policies[row as int]);
        }
        acc = next;
        s = s + 1;
    }
    proof {
        assert(sources@.subrange(0, sources@.len() as int) =~= sources@);
    }
    acc
}

/// Evaluates one projection expression into its output column.
#[verifier::loop_isolation(false)]
fn eval_proj_expr(input: &GuardedFrame, e: &ProjExpr) -> (result: Result<
    GuardedColumn,
    EngineError,
>)
    requires
        frame_uniform(input@),
    ensures
        result is Ok <==> proj_expr_ok(input@, *e),
        result matches Ok(out) ==> out@ == projected_column(input@, *e),
        result matches Err(err) ==> err == EngineError::SchemaMismatch,
{
    let rows = input.rows();
    match e {
        ProjExpr::Column { source } => {
            if *source >= input.columns.len() {
                return Err(EngineError::SchemaMismatch);
            }
            let out = input.columns[*source].clone();
            assert(out@ == projected_column(input@, *e));
            Ok(out)
        },
        ProjExpr::Computed { name, sources } => {
            let mut s: usize = 0;
            while s < sources.len()
                invariant
                    s <= sources.len(),
                    forall|t: int| 0 <= t < s ==> (#[trigger] sources@[t]) < input@.len(),
                decreases sources.len() - s,
            {
                if sources[s] >= input.columns.len() {
                    proof {
                        assert(*e matches ProjExpr::Computed { name: n2, sources: s2 } && s2@
                            == sources@);
                        assert(!proj_expr_ok(input@, *e));
                    }
                    return Err(EngineError::SchemaMismatch);
                }
                s = s + 1;
            }
            let mut ps: Vec<Policy> = Vec::new();
            let mut i: usize = 0;
            while i < rows
                invariant
                    i <= rows,
                    ps.len() == i,
                    frame_uniform(input@),
                    rows == frame_rows(input@),
                    forall|t: int| 0 <= t < sources@.len() ==> (#[trigger] sources@[t]) < input@.len(),
                    forall|t: int|
                        0 <= t < i ==> ps@[t]@ == join_all(row_sources(input@, sources@, t)),
                decreases rows - i,
            {
                ps.push(join_row_sources(input, sources, i));
                i = i + 1;
            }
            let out = GuardedColumn { name: name.clone(), policies: ps };
            proof {
                assert(out@.policies =~= projected_column(input@, *e).policies);
                assert(out@ =~= projected_column(input@, *e));
            }
            Ok(out)
        },
    }
}

/// Project/Select: direct references pass through; a computed column's
/// per-row policy is the `join` of every source cell feeding that row.
pub fn project(input: &GuardedFrame, exprs: &Vec<ProjExpr>) -> (result: Result<
    GuardedFrame,
    EngineError,
>)
    ensures
        result is Ok <==> project_model(input@, exprs@) is Some,
        result matches Ok(f) ==> Some(f@) == project_model(input@, exprs@),
        result matches Err(e) ==> e == EngineError::SchemaMismatch,
{
    if !input.is_uniform() {
        return Err(EngineError::SchemaMismatch);
    }
    let rows = input.rows();
    let mut columns: Vec<GuardedColumn> = Vec::new();
    let mut k: usize = 0;
    while k < exprs.len()
        invariant
            k <= exprs.len(),
            columns.len() == k,
            frame_uniform(input@),
            rows == frame_rows(input@),
            forall|t: int|
                0 <= t < k ==> proj_expr_ok(input@, #[trigger] exprs@[t]) && columns@[t]@
                    == projected_column(input@, exprs@[t]),
        decreases exprs.len() - k,
    {
        let e = &exprs[k];
        match eval_proj_expr(input, e) {
            Ok(out) => {
                columns.push(out);
            },
            Err(err) => {
                assert(!proj_exprs_valid(input@, exprs@));
                return Err(err);
            },
        }
        k = k + 1;
    }
    let f = GuardedFrame { columns };
    proof {
        assert(proj_exprs_valid(input@, exprs@));
        assert(f@ =~= project_model(input@, exprs@).unwrap());
    }
    Ok(f)
}

/// The `join` of one row's policies across all columns.
#[verifier::loop_isolation(false)]
fn row_join_exec(input: &GuardedFrame, row: usize) -> (p: Policy)
    requires
        frame_uniform(input@),
        row < frame_rows(input@),
    ensures
        p@ == row_join(input@, row as int),
{
    let mut acc = Policy::Clean;
    let mut c: usize = 0;
    while c < input.columns.len()
        invariant
            c <= input.columns@.len(),
            acc@ == join_all(Seq::new(c as nat, |t: int| input@[t].policies[row as int])),
        decreases input.columns@.len() - c,
    {
        proof {
            assert(input@[c as int].policies.len() == frame_rows(input@));
        }
        let next = acc.join(&input.columns[c].policies[row]);
        proof {
            let pre = Seq::new(c as nat, |t: int| input@[t].policies[row as int]);
            let cur = Seq::new((c + 1) as nat, |t: int| input@[t].policies[row as int]);
            assert(cur.drop_last() =~= pre);
            assert(cur.last() == input@[c as int].policies[row as int]);
        }
        acc = next;
        c = c + 1;
    }
    acc
}

/// With-row-index: prepends a freshly derived index column whose per-row
/// policy is the `join` of that row's policies, since the index records
/// which rows survived; every existing policy passes through unchanged.
pub fn with_row_index(input: &GuardedFrame, name: String) -> (result: Result<
    GuardedFrame,
    EngineError,
>)
    ensures
        result is Ok <==> with_row_index_model(input@, name@) is Some,
        result matches Ok(f) ==> Some(f@) == with_row_index_model(input@, name@),
        result matches Err(e) ==> e == EngineError::SchemaMismatch,
{
    if !input.is_uniform() {
        return Err(EngineError::SchemaMismatch);
    }
    let rows = input.rows();
    let mut ps: Vec<Policy> = Vec::new();
    let mut i: usize = 0;
    while i < rows
        invariant
            i <= rows,
            ps.len() == i,
            rows == frame_rows(input@),
            frame_uniform(input@),
            forall|t: int| 0 <= t < i ==> ps@[t]@ == row_join(input@, t),
        decreases rows - i,
    {
        ps.push(row_join_exec(input, i));
        i = i + 1;
    }
    let ghost nm = name@;
    let index_col = GuardedColumn { name, policies: ps };
    proof {
        assert(index_col@ =~= with_row_index_model(input@, nm).unwrap()[0]);
    }
    let mut columns: Vec<GuardedColumn> = Vec::new();
    columns.push(index_col);
    let mut c: usize = 0;
    while c < input.columns.len()
        invariant
            c <= input.columns.len(),
            columns.len() == c + 1,
            columns@[0]@ == with_row_index_model(input@, nm).unwrap()[0],
            frame_uniform(input@),
            forall|t: int| 0 <= t < c ==> columns@[t + 1]@ == input@[t],
        decreases input.columns.len() - c,
    {
        columns.push(input.columns[c].clone());
        c = c + 1;
    }
    let f = GuardedFrame { columns };
    proof {
        assert(f@ =~= with_row_index_model(input@, nm).unwrap());
    }
    Ok(f)
}

/// One aggregated output column: the aggregation method applied to a
/// source column, under an output name.
pub struct AggExpr {
    pub source: usize,
    pub how: AggMethod,
    pub name: String,
}

/// The policies the given rows pick out of one column.
pub open spec fn picked_seq(col: Seq<PolicyModel>, rows: Seq<usize>) -> Seq<PolicyModel> {
    rows.map_values(|r: usize| col[r as int])
}

/// The given rows' policies after one declassification step by `how`
/// over a group of `gsize` rows.
pub open spec fn declass_seq(
    col: Seq<PolicyModel>,
    rows: Seq<usize>,
    how: AggMethod,
    gsize: u64,
) -> Seq<PolicyModel> {
    rows.map_values(|r: usize| declassify_model(col[r as int], how, gsize))
}

/// Group-key output cell: the `join` of the key policies of all rows in
/// the group.
pub open spec fn group_key_cell(col: Seq<PolicyModel>, rows: Seq<usize>) -> PolicyModel {
    join_all(picked_seq(col, rows))
}

/// Aggregated output cell: every contributing cell's policy is
/// declassified by the method over the group's size, and the results are
/// joined; an unsatisfied restriction survives into the output.
pub open spec fn group_agg_cell(col: Seq<PolicyModel>, rows: Seq<usize>, how: AggMethod) -> PolicyModel {
    join_all(declass_seq(col, rows, how, rows.len() as u64))
}

/// The view of executable row groups.
pub open spec fn groups_view(groups: Seq<Vec<usize>>) -> Seq<Seq<usize>> {
    groups.map_values(|g: Vec<usize>| g@)
}

/// Every group only holds valid row numbers.
pub open spec fn groups_valid(f: Seq<ColumnModel>, groups: Seq<Seq<usize>>) -> bool {
    forall|g: int, i: int|
        0 <= g < groups.len() && 0 <= i < groups[g].len() ==> (#[trigger] groups[g][i])
            < frame_rows(f)
}

/// GroupBy+Aggregate over a whole frame: one output row per group; key
/// columns join the key policies over each group, aggregated columns
/// join the declassified policies of every contributing cell.
pub open spec fn group_agg_model(
    f: Seq<ColumnModel>,
    keys: Seq<usize>,
    groups: Seq<Seq<usize>>,
    aggs: Seq<AggExpr>,
) -> Option<Seq<ColumnModel>> {
    if frame_uniform(f) && (forall|k: int| 0 <= k < keys.len() ==> (#[trigger] keys[k]) < f.len())
        && (forall|a: int| 0 <= a < aggs.len() ==> (#[trigger] aggs[a]).source < f.len())
        && groups_valid(f, groups) {
        Some(
            keys.map_values(
                |k: usize|
                    ColumnModel {
                        name: f[k as int].name,
                        policies: Seq::new(
                            groups.len(),
                            |g: int| group_key_cell(f[k as int].policies, groups[g]),
                        ),
                    },
            ) + aggs.map_values(
                |a: AggExpr|
                    ColumnModel {
                        name: a.name@,
                        policies: Seq::new(
                            groups.len(),
                            |g: int| group_agg_cell(f[a.source as int].policies, groups[g], a.how),
                        ),
                    },
            ),
        )
    } else {
        None
    }
}

/// Joins the key policies of the group's rows in one column.
#[verifier::loop_isolation(false)]
fn key_cell(col: &GuardedColumn, rows: &Vec<usize>) -> (p: Policy)
    requires
        forall|i: int| 0 <= i < rows@.len() ==> (#[trigger] rows@[i]) < col@.policies.len(),
    ensures
        p@ == group_key_cell(col@.policies, rows@),
{
    let mut acc = Policy::Clean;
    let mut i: usize = 0;
    while i < rows.len()
        invariant
            i <= rows.len(),
            acc@ == join_all(picked_seq(col@.policies, rows@.subrange(0, i as int))),
        decreases rows.len() - i,
    {
        let next = acc.join(&col.policies[rows[i]]);
        proof {
            let pre = rows@.subrange(0, i as int);
            let cur = rows@.subrange(0, i as int + 1);
            assert(picked_seq(col@.policies, cur).drop_last() =~= picked_seq(col@.policies, pre));
            assert(picked_seq(col@.policies, cur).last() == col@.policies[rows@[i as int] as int]);
        }
        acc = next;
        i = i + 1;
    }
    proof {
        assert(rows@.subrange(0, rows@.len() as int) =~= rows@);
    }
    acc
}

/// Declassifies each contributing cell by the method over the group's
/// size and joins the results.
#[verifier::loop_isolation(false)]
fn agg_cell(col: &GuardedColumn, rows: &Vec<usize>, how: AggMethod) -> (p: Policy)
    requires
        forall|i: int| 0 <= i < rows@.len() ==> (#[trigger] rows@[i]) < col@.policies.len(),
    ensures
        p@ == group_agg_cell(col@.policies, rows@, how),
{
    let gsize: u64 = rows.len() as u64;
    let mut acc = Policy::Clean;
    let mut i: usize = 0;
    while i < rows.len()
        invariant
            i <= rows.len(),
            acc@ == join_all(declass_seq(col@.policies, rows@.subrange(0, i as int), how, gsize)),
        decreases rows.len() - i,
    {
        let d = col.policies[rows[i]].declassify(how, gsize);
        let next = acc.join(&d);
        proof {
            let pre = rows@.subrange(0, i as int);
            let cur = rows@.subrange(0, i as int + 1);
            assert(declass_seq(col@.policies, cur, how, gsize).drop_last() =~= declass_seq(
                col@.policies,
                pre,
                how,
                gsize,
            ));
            assert(declass_seq(col@.policies, cur, how, gsize).last() == declassify_model(
                col@.policies[rows@[i as int] as int],
                how,
                gsize,
            ));
        }
        acc = next;
        i = i + 1;
    }
    proof {
        assert(rows@.subrange(0, rows@.len() as int) =~= rows@);
    }
    acc
}

/// GroupBy+Aggregate: for each output group and aggregated expression,
/// every contributing cell is declassified by the method actually used
/// over the group's actual size, then joined; group-key columns join the
/// key policies of all rows in each group.
#[verifier::loop_isolation(false)]
pub fn group_by_agg(
    input: &GuardedFrame,
    keys: &Vec<usize>,
    groups: &Vec<Vec<usize>>,
    aggs: &Vec<AggExpr>,
) -> (result: Result<GuardedFrame, EngineError>)
    ensures
        result is Ok <==> group_agg_model(input@, keys@, groups_view(groups@), aggs@) is Some,
        result matches Ok(f) ==> Some(f@) == group_agg_model(
            input@,
            keys@,
            groups_view(groups@),
            aggs@,
        ),
        result matches Err(e) ==> e == EngineError::SchemaMismatch,
{
    let ghost gv = groups_view(groups@);
    if !input.is_uniform() {
        return Err(EngineError::SchemaMismatch);
    }
    let rows = input.rows();
    let mut k: usize = 0;
    while k < keys.len()
        invariant
            k <= keys.len(),
            forall|t: int| 0 <= t < k ==> (#[trigger] keys@[t]) < input@.len(),
        decreases keys.len() - k,
    {
        if keys[k] >= input.columns.len() {
            return Err(EngineError::SchemaMismatch);
        }
        k = k + 1;
    }
    let mut a: usize = 0;
    while a < aggs.len()
        invariant
            a <= aggs.len(),
            forall|t: int| 0 <= t < a ==> (#[trigger] aggs@[t]).source < input@.len(),
        decreases aggs.len() - a,
    {
        if aggs[a].source >= input.columns.len() {
            return Err(EngineError::SchemaMismatch);
        }
        a = a + 1;
    }
    let mut g: usize = 0;
    while g < groups.len()
        invariant
            g <= groups.len(),
            forall|t: int, i: int|
                0 <= t < g && 0 <= i < gv[t].len() ==> (#[trigger] gv[t][i]) < frame_rows(input@),
        decreases groups.len() - g,
    {
        let grp = &groups[g];
        let mut i: usize = 0;
        while i < grp.len()
            invariant
                i <= grp.len(),
                forall|t: int| 0 <= t < i ==> (#[trigger] grp@[t]) < frame_rows(input@),
            decreases grp.len() - i,
        {
            if grp[i] >= rows {
                assert(gv[g as int][i as int] == grp@[i as int]);
                assert(!groups_valid(input@, gv));
                return Err(EngineError::SchemaMismatch);
            }
            i = i + 1;
        }
        assert(forall|i: int| 0 <= i < gv[g as int].len() ==> (#[trigger] gv[g as int][i]) < frame_rows(input@));
        g = g + 1;
    }
    assert(groups_valid(input@, gv));
    let ghost model = group_agg_model(input@, keys@, gv, aggs@).unwrap();
    let mut columns: Vec<GuardedColumn> = Vec::new();
    let mut k: usize = 0;
    while k < keys.len()
        invariant
            k <= keys.len(),
            columns.len() == k,
            forall|t: int| 0 <= t < k ==> columns@[t]@ == model[t],
        decreases keys.len() - k,
    {
        let src = &input.columns[keys[k]];
        assert(src@ == input@[keys@[k as int] as int]);
        let mut ps: Vec<Policy> = Vec::new();
        let mut g: usize = 0;
        while g < groups.len()
            invariant
                g <= groups.len(),
                ps.len() == g,
                forall|t: int|
                    0 <= t < g ==> ps@[t]@ == group_key_cell(src@.policies, gv[t]),
            decreases groups.len() - g,
        {
            proof {
                assert(groups@[g as int]@ == gv[g as int]);
                assert(src@.policies.len() == frame_rows(input@));
                assert(forall|i: int|
                    0 <= i < gv[g as int].len() ==> (#[trigger] gv[g as int][i]) < frame_rows(
                        input@,
                    ));
            }
            let cell = key_cell(src, &groups[g]);
            ps.push(cell);
            g = g + 1;
        }
        let out = GuardedColumn { name: src.name.clone(), policies: ps };
        proof {
            assert(out@.policies =~= model[k as int].policies);
            assert(out@ =~= model[k as int]);
        }
        columns.push(out);
        k = k + 1;
    }
    let mut a: usize = 0;
    while a < aggs.len()
        invariant
            a <= aggs.len(),
            columns.len() == keys.len() + a,
            forall|t: int| 0 <= t < keys@.len() ==> columns@[t]@ == model[t],
            forall|t: int|
                keys@.len() <= t < keys@.len() + a ==> (#[trigger] columns@[t])@ == model[t],
        decreases aggs.len() - a,
    {
        let src = &input.columns[aggs[a].source];
        assert(src@ == input@[aggs@[a as int].source as int]);
        let mut ps: Vec<Policy> = Vec::new();
        let mut g: usize = 0;
        while g < groups.len()
            invariant
                g <= groups.len(),
                ps.len() == g,
                forall|t: int|
                    0 <= t < g ==> ps@[t]@ == group_agg_cell(
                        src@.policies,
                        gv[t],
                        aggs@[a as int].how,
                    ),
            decreases groups.len() - g,
        {
            proof {
                assert(groups@[g as int]@ == gv[g as int]);
                assert(src@.policies.len() == frame_rows(input@));
                assert(forall|i: int|
                    0 <= i < gv[g as int].len() ==> (#[trigger] gv[g as int][i]) < frame_rows(
                        input@,
                    ));
            }
            let cell = agg_cell(src, &groups[g], aggs[a].how);
            ps.push(cell);
            g = g + 1;
        }
        let out = GuardedColumn { name: aggs[a].name.clone(), policies: ps };
        proof {
            assert(out@.policies =~= model[keys@.len() + a].policies);
            assert(out@ =~= model[keys@.len() + a]);
        }
        columns.push(out);
        a = a + 1;
    }
    let f = GuardedFrame { columns };
    proof {
        assert(f@ =~= model);
    }
    Ok(f)
}

/// All concatenated frames share one schema: same column count, same
/// names in the same order.
pub open spec fn concat_schemas_ok(fs: Seq<Seq<ColumnModel>>) -> bool {
    &&& fs.len() > 0
    &&& forall|k: int| 0 <= k < fs.len() ==> (#[trigger] fs[k]).len() == fs[0].len()
    &&& forall|k: int, c: int|
        0 <= k < fs.len() && 0 <= c < fs[0].len() ==> (#[trigger] fs[k][c]).name == fs[0][c].name
}

/// One concatenated column: the frames' policies for column `c`, in
/// frame order, each row keeping its originating frame's policy verbatim.
pub open spec fn concat_col(fs: Seq<Seq<ColumnModel>>, c: int) -> Seq<PolicyModel>
    decreases fs.len(),
{
    if fs.len() == 0 {
        Seq::empty()
    } else {
        concat_col(fs.drop_last(), c) + fs.last()[c].policies
    }
}

/// Concat over whole frames: rows retain their originating frame's
/// policy verbatim; no mixing across the disjoint row unions.
pub open spec fn concat_model(fs: Seq<Seq<ColumnModel>>) -> Option<Seq<ColumnModel>> {
    if concat_schemas_ok(fs) {
        Some(
            Seq::new(
                fs[0].len(),
                |c: int| ColumnModel { name: fs[0][c].name, policies: concat_col(fs, c) },
            ),
        )
    } else {
        None
    }
}

/// Rows contributed to column `c` by the frames before frame `k`.
pub open spec fn rows_before(fs: Seq<Seq<ColumnModel>>, c: int, k: int) -> int
    decreases k,
{
    if k <= 0 {
        0
    } else {
        rows_before(fs, c, k - 1) + fs[k - 1][c].policies.len()
    }
}

proof fn lemma_rows_before_drop_last(fs: Seq<Seq<ColumnModel>>, c: int, k: int)
    requires
        0 <= k < fs.len(),
    ensures
        rows_before(fs.drop_last(), c, k) == rows_before(fs, c, k),
    decreases k,
{
    if k > 0 {
        lemma_rows_before_drop_last(fs, c, k - 1);
        assert(fs.drop_last()[k - 1] == fs[k - 1]);
    }
}

/// The length of a concatenated column is the sum of its parts.
pub proof fn lemma_concat_col_len(fs: Seq<Seq<ColumnModel>>, c: int)
    ensures
        concat_col(fs, c).len() == rows_before(fs, c, fs.len() as int),
    decreases fs.len(),
{
    if fs.len() > 0 {
        lemma_concat_col_len(fs.drop_last(), c);
        lemma_rows_before_drop_last(fs, c, fs.len() as int - 1);
    }
}

/// Concatenation is order-independent per row: each output row's policy
/// is its originating frame's policy for that row, verbatim, wherever
/// the frame stands in the list.
pub proof fn lemma_concat_row_origin(fs: Seq<Seq<ColumnModel>>, c: int, k: int, i: int)
    requires
        0 <= k < fs.len(),
        0 <= i < fs[k][c].policies.len(),
    ensures
        0 <= rows_before(fs, c, k) + i < concat_col(fs, c).len(),
        concat_col(fs, c)[rows_before(fs, c, k) + i] == fs[k][c].policies[i],
    decreases fs.len(),
{
    lemma_concat_col_len(fs, c);
    if k == fs.len() - 1 {
        lemma_concat_col_len(fs.drop_last(), c);
        lemma_rows_before_drop_last(fs, c, k);
        assert(fs.last() == fs[k]);
    } else {
        lemma_rows_before_drop_last(fs, c, k);
        assert(fs.drop_last()[k] == fs[k]);
        lemma_concat_row_origin(fs.drop_last(), c, k, i);
        lemma_concat_col_len(fs.drop_last(), c);
    }
}

/// Concat: appends the frames' rows per column, in frame order; every
/// row keeps its originating frame's policy verbatim.
#[verifier::loop_isolation(false)]
pub fn concat(frames: &Vec<GuardedFrame>) -> (result: Result<GuardedFrame, EngineError>)
    ensures
        result is Ok <==> concat_model(frames@.map_values(|f: GuardedFrame| f@)) is Some,
        result matches Ok(f) ==> Some(f@) == concat_model(
            frames@.map_values(|f: GuardedFrame| f@),
        ),
        result matches Err(e) ==> e == EngineError::SchemaMismatch,
{
    let ghost fs = frames@.map_values(|f: GuardedFrame| f@);
    if frames.len() == 0 {
        return Err(EngineError::SchemaMismatch);
    }
    let ncols = frames[0].columns.len();
    let mut k: usize = 0;
    while k < frames.len()
        invariant
            k <= frames.len(),
            forall|t: int| 0 <= t < k ==> (#[trigger] fs[t]).len() == fs[0].len(),
            forall|t: int, c: int|
                0 <= t < k && 0 <= c < fs[0].len() ==> (#[trigger] fs[t][c]).name == fs[0][c].name,
        decreases frames.len() - k,
    {
        let fr = &frames[k];
        assert(fr@ == fs[k as int]);
        if fr.columns.len() != ncols {
            assert(fs[k as int].len() != fs[0].len());
            assert(!concat_schemas_ok(fs));
            return Err(EngineError::SchemaMismatch);
        }
        let mut c: usize = 0;
        while c < ncols
            invariant
                c <= ncols,
                forall|t: int| 0 <= t < c ==> (#[trigger] fs[k as int][t]).name == fs[0][t].name,
            decreases ncols - c,
        {
            if !(fr.columns[c].name == frames[0].columns[c].name) {
                proof {
                    assert(frames@[0]@ == fs[0]);
                    assert(fs[k as int][c as int].name != fs[0][c as int].name);
                    assert(!concat_schemas_ok(fs));
                }
                return Err(EngineError::SchemaMismatch);
            }
            assert(fs[k as int][c as int].name == fs[0][c as int].name);
            c = c + 1;
        }
        k = k + 1;
    }
    assert(concat_schemas_ok(fs));
    let ghost model = concat_model(fs).unwrap();
    let mut columns: Vec<GuardedColumn> = Vec::new();
    let mut c: usize = 0;
    while c < ncols
        invariant
            c <= ncols,
            columns.len() == c,
            forall|t: int| 0 <= t < c ==> columns@[t]@ == model[t],
        decreases ncols - c,
    {
        let mut ps: Vec<Policy> = Vec::new();
        let mut k: usize = 0;
        while k < frames.len()
            invariant
                k <= frames.len(),
                ps@.map_values(|p: Policy| p@) == concat_col(fs.take(k as int), c as int),
            decreases frames.len() - k,
        {
            proof {
                assert(frames@[k as int]@ == fs[k as int]);
                assert(fs[k as int].len() == fs[0].len());
            }
            let col = &frames[k].columns[c];
            assert(col@ == fs[k as int][c as int]);
            let mut i: usize = 0;
            let ghost base = ps@.map_values(|p: Policy| p@);
            while i < col.policies.len()
                invariant
                    i <= col.policies.len(),
                    ps@.map_values(|p: Policy| p@) =~= base + col@.policies.subrange(
                        0,
                        i as int,
                    ),
                decreases col.policies.len() - i,
            {
                let ghost pre = ps@.map_values(|p: Policy| p@);
                ps.push(col.policies[i].clone());
                proof {
                    let m_new = ps@.map_values(|p: Policy| p@);
                    assert(m_new.len() == pre.len() + 1);
                    assert(forall|t: int| 0 <= t < pre.len() ==> #[trigger] m_new[t] == pre[t]);
                    assert(m_new[pre.len() as int] == col@.policies[i as int]);
                    assert(m_new =~= base + col@.policies.subrange(0, i as int + 1));
                }
                i = i + 1;
            }
            proof {
                assert(col@.policies.subrange(0, col@.policies.len() as int) =~= col@.policies);
                assert(fs.take(k as int + 1).drop_last() =~= fs.take(k as int));
                assert(fs.take(k as int + 1).last() == fs[k as int]);
                assert(ps@.map_values(|p: Policy| p@) =~= concat_col(
                    fs.take(k as int + 1),
                    c as int,
                ));
            }
            k = k + 1;
        }
        proof {
            assert(fs.take(fs.len() as int) =~= fs);
        }
        let out = GuardedColumn { name: frames[0].columns[c].name.clone(), policies: ps };
        proof {
            assert(out@ =~= model[c as int]);
        }
        columns.push(out);
        c = c + 1;
    }
    let f = GuardedFrame { columns };
    proof {
        assert(f@ =~= model);
    }
    Ok(f)
}

/// First position in `on` holding column number `c`, searching from `i`.
pub open spec fn key_slot(on: Seq<usize>, c: usize, i: int) -> Option<int>
    decreases on.len() - i,
{
    if i < 0 || i >= on.len() {
        None
    } else if on[i] == c {
        Some(i)
    } else {
        key_slot(on, c, i + 1)
    }
}

/// Validity of an equality join's shape against its two input frames.
pub open spec fn join_inputs_valid(
    l: Seq<ColumnModel>,
    r: Seq<ColumnModel>,
    lon: Seq<usize>,
    ron: Seq<usize>,
    pairs: Seq<(usize, usize)>,
) -> bool {
    &&& lon.len() == ron.len()
    &&& frame_uniform(l)
    &&& frame_uniform(r)
    &&& forall|k: int| 0 <= k < lon.len() ==> (#[trigger] lon[k]) < l.len()
    &&& forall|k: int| 0 <= k < ron.len() ==> (#[trigger] ron[k]) < r.len()
    &&& forall|t: int|
        0 <= t < pairs.len() ==> (#[trigger] pairs[t]).0 < frame_rows(l) && pairs[t].1
            < frame_rows(r)
}

/// The left side of a join's output: every left column passes through
/// per matched row pair; an equality-key column additionally joins the
/// right side's key policy for the same pair.
pub open spec fn join_left_part(
    l: Seq<ColumnModel>,
    r: Seq<ColumnModel>,
    lon: Seq<usize>,
    ron: Seq<usize>,
    pairs: Seq<(usize, usize)>,
) -> Seq<ColumnModel> {
    Seq::new(
        l.len(),
        |c: int|
            ColumnModel {
                name: l[c].name,
                policies: Seq::new(
                    pairs.len(),
                    |t: int|
                        match key_slot(lon, c as usize, 0) {
                            Some(k) => join_model(
                                l[c].policies[pairs[t].0 as int],
                                r[ron[k] as int].policies[pairs[t].1 as int],
                            ),
                            None => l[c].policies[pairs[t].0 as int],
                        },
                ),
            },
    )
}

/// The right side of a join's output, from column `c` on: non-key right
/// columns pass through per matched row pair; right key columns are
/// dropped (their policies already joined into the left keys).
pub open spec fn join_right_part(
    r: Seq<ColumnModel>,
    ron: Seq<usize>,
    pairs: Seq<(usize, usize)>,
    c: int,
) -> Seq<ColumnModel>
    decreases r.len() - c,
{
    if c < 0 || c >= r.len() {
        Seq::empty()
    } else {
        let rest = join_right_part(r, ron, pairs, c + 1);
        if key_slot(ron, c as usize, 0) is Some {
            rest
        } else {
            seq![
                ColumnModel {
                    name: r[c].name,
                    policies: Seq::new(pairs.len(), |t: int| r[c].policies[pairs[t].1 as int]),
                },
            ] + rest
        }
    }
}

/// Join over whole frames: columns from one side pass through unchanged
/// per matched row pair; equality-key output columns take the `join` of
/// both sides' key policies.
pub open spec fn join_frames_model(
    l: Seq<ColumnModel>,
    r: Seq<ColumnModel>,
    lon: Seq<usize>,
    ron: Seq<usize>,
    pairs: Seq<(usize, usize)>,
) -> Option<Seq<ColumnModel>> {
    if join_inputs_valid(l, r, lon, ron, pairs) {
        Some(join_left_part(l, r, lon, ron, pairs) + join_right_part(r, ron, pairs, 0))
    } else {
        None
    }
}

/// First position in `on` holding column number `c`, from `i` on.
fn key_slot_exec(on: &Vec<usize>, c: usize, i: usize) -> (result: Option<usize>)
    ensures
        result matches Some(k) ==> key_slot(on@, c, i as int) == Some(k as int),
        result is None ==> key_slot(on@, c, i as int) is None,
        result matches Some(k) ==> i <= k < on@.len(),
    decreases on@.len() - i,
{
    if i >= on.len() {
        None
    } else if on[i] == c {
        Some(i)
    } else {
        key_slot_exec(on, c, i + 1)
    }
}

/// Join: the policy rule for an equality join whose matched row pairs
/// the data engine reports.
#[verifier::loop_isolation(false)]
pub fn join_frames(
    left: &GuardedFrame,
    right: &GuardedFrame,
    left_on: &Vec<usize>,
    right_on: &Vec<usize>,
    pairs: &Vec<(usize, usize)>,
) -> (result: Result<GuardedFrame, EngineError>)
    ensures
        result is Ok <==> join_frames_model(left@, right@, left_on@, right_on@, pairs@) is Some,
        result matches Ok(f) ==> Some(f@) == join_frames_model(
            left@,
            right@,
            left_on@,
            right_on@,
            pairs@,
        ),
        result matches Err(e) ==> e == EngineError::SchemaMismatch,
{
    if left_on.len() != right_on.len() || !left.is_uniform() || !right.is_uniform() {
        return Err(EngineError::SchemaMismatch);
    }
    let mut k: usize = 0;
    while k < left_on.len()
        invariant
            k <= left_on.len(),
            forall|t: int| 0 <= t < k ==> (#[trigger] left_on@[t]) < left@.len(),
            forall|t: int| 0 <= t < k ==> (#[trigger] right_on@[t]) < right@.len(),
        decreases left_on.len() - k,
    {
        if left_on[k] >= left.columns.len() || right_on[k] >= right.columns.len() {
            return Err(EngineError::SchemaMismatch);
        }
        k = k + 1;
    }
    let lrows = left.rows();
    let rrows = right.rows();
    let mut t: usize = 0;
    while t < pairs.len()
        invariant
            t <= pairs.len(),
            forall|u: int|
                0 <= u < t ==> (#[trigger] pairs@[u]).0 < frame_rows(left@) && pairs@[u].1
                    < frame_rows(right@),
        decreases pairs.len() - t,
    {
        if pairs[t].0 >= lrows || pairs[t].1 >= rrows {
            return Err(EngineError::SchemaMismatch);
        }
        t = t + 1;
    }
    assert(join_inputs_valid(left@, right@, left_on@, right_on@, pairs@));
    let ghost lpart = join_left_part(left@, right@, left_on@, right_on@, pairs@);
    let mut columns: Vec<GuardedColumn> = Vec::new();
    let mut c: usize = 0;
    while c < left.columns.len()
        invariant
            c <= left.columns.len(),
            columns.len() == c,
            forall|u: int| 0 <= u < c ==> columns@[u]@ == lpart[u],
        decreases left.columns.len() - c,
    {
        let src = &left.columns[c];
        assert(src@ == left@[c as int]);
        let slot = key_slot_exec(left_on, c, 0);
        let mut ps: Vec<Policy> = Vec::new();
        let mut t: usize = 0;
        while t < pairs.len()
            invariant
                t <= pairs.len(),
                ps.len() == t,
                forall|u: int| 0 <= u < t ==> ps@[u]@ == lpart[c as int].policies[u],
            decreases pairs.len() - t,
        {
            let (li, ri) = pairs[t];
            proof {
                assert(src@.policies.len() == frame_rows(left@));
                assert(pairs@[t as int].0 < frame_rows(left@));
                assert(pairs@[t as int].1 < frame_rows(right@));
            }
            let cell = match slot {
                Some(k) => {
                    let rk = right_on[k];
                    proof {
                        assert(right_on@[k as int] < right@.len());
                        assert(right@[rk as int].policies.len() == frame_rows(right@));
                        assert(right.columns@[rk as int]@ == right@[rk as int]);
                    }
                    src.policies[li].join(&right.columns[rk].policies[ri])
                },
                None => src.policies[li].clone(),
            };
            assert(cell@ == lpart[c as int].policies[t as int]);
            ps.push(cell);
            t = t + 1;
        }
        let out = GuardedColumn { name: src.name.clone(), policies: ps };
        proof {
            assert(out@.policies =~= lpart[c as int].policies);
            assert(out@ =~= lpart[c as int]);
        }
        columns.push(out);
        c = c + 1;
    }
    let ghost model = join_frames_model(left@, right@, left_on@, right_on@, pairs@).unwrap();
    proof {
        assert(columns@.map_values(|col: GuardedColumn| col@) =~= lpart);
    }
    let mut c: usize = 0;
    while c < right.columns.len()
        invariant
            c <= right.columns.len(),
            columns@.map_values(|col: GuardedColumn| col@) + join_right_part(
                right@,
                right_on@,
                pairs@,
                c as int,
            ) =~= lpart + join_right_part(right@, right_on@, pairs@, 0),
        decreases right.columns.len() - c,
    {
        let src = &right.columns[c];
        assert(src@ == right@[c as int]);
        let slot = key_slot_exec(right_on, c, 0);
        if slot.is_none() {
            let mut ps: Vec<Policy> = Vec::new();
            let mut t: usize = 0;
            while t < pairs.len()
                invariant
                    t <= pairs.len(),
                    ps.len() == t,
                    forall|u: int|
                        0 <= u < t ==> ps@[u]@ == right@[c as int].policies[pairs@[u].1 as int],
                decreases pairs.len() - t,
            {
                let (_, ri) = pairs[t];
                ps.push(src.policies[ri].clone());
                t = t + 1;
            }
            let ghost prev = columns@.map_values(|col: GuardedColumn| col@);
            let out = GuardedColumn { name: src.name.clone(), policies: ps };
            proof {
                let jc = join_right_part(right@, right_on@, pairs@, c as int);
                let jn = join_right_part(right@, right_on@, pairs@, c as int + 1);
                assert(out@.policies =~= Seq::new(
                    pairs@.len(),
                    |t: int| right@[c as int].policies[pairs@[t].1 as int],
                ));
                assert(jc =~= seq![out@] + jn);
            }
            columns.push(out);
            proof {
                assert(columns@.map_values(|col: GuardedColumn| col@) =~= prev.push(out@));
                assert(prev.push(out@) + join_right_part(right@, right_on@, pairs@, c as int + 1)
                    =~= prev + join_right_part(right@, right_on@, pairs@, c as int));
            }
        }
        c = c + 1;
    }
    proof {
        assert(join_right_part(right@, right_on@, pairs@, right@.len() as int) =~= Seq::<
            ColumnModel,
        >::empty());
    }
    let f = GuardedFrame { columns };
    proof {
        assert(f@ =~= model);
    }
    Ok(f)
}

} // verus!
