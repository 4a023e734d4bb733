//! The plan adapter and the collect gate.
//!
//! A query plan is a DAG of operator nodes: shared sub-plans are
//! expressed by holding the nodes in one arena where every node refers
//! to inputs by their earlier position.  Evaluation walks the arena
//! once, memoized by node identity, so a sub-plan referenced from many
//! branches is propagated exactly once and always yields one result.
//! The collect gate runs only at the terminal materialization point and
//! is fail-closed: no partial or redacted result is ever returned.

use vstd::prelude::*;
use crate::policy::PolicyModel;
use crate::frame::{GuardedFrame, ColumnModel};
use crate::error::EngineError;
use crate::eval::{
    ProjExpr, AggExpr, select_model, limit_model, project_model, group_agg_model, groups_view,
    concat_model, join_frames_model, with_row_index_model, filter, sort, limit, project,
    group_by_agg, concat, join_frames, with_row_index,
};
use crate::session::Engine;

verus! {

/// One relational operator node.  Each node carries, besides the
/// positions of its input nodes, the data-dependent shape the data
/// engine reports for it (kept rows, groupings, matched pairs).
pub enum PlanNode {
    /// A source: the policy frame loaded from the raw file's companion
    /// policy file, or `None` when that file is missing.
    Scan { policy: Option<GuardedFrame> },
    /// Positional row selection by a predicate's surviving rows.
    Filter { input: usize, keep: Vec<usize> },
    /// Projection: direct references and computed columns.
    Project { input: usize, exprs: Vec<ProjExpr> },
    /// Group-by with aggregations: `groups` lists the input rows of each
    /// output group.
    GroupAgg { input: usize, keys: Vec<usize>, groups: Vec<Vec<usize>>, aggs: Vec<AggExpr> },
    /// Equality join with the matched row pairs the data engine found.
    Join {
        left: usize,
        right: usize,
        left_on: Vec<usize>,
        right_on: Vec<usize>,
        pairs: Vec<(usize, usize)>,
    },
    /// Concatenation of frames sharing one schema.
    Concat { inputs: Vec<usize> },
    /// A pure reordering of rows.
    Sort { input: usize, perm: Vec<usize> },
    /// The first `n` rows.
    Limit { input: usize, n: usize },
    /// A freshly derived index column, prepended; each index cell
    /// inherits the `join` of its row's policies.
    WithRowIndex { input: usize, name: String },
    /// An operator without a propagation rule: policies pass through
    /// unchanged, and the result counts as unverified rather than
    /// verified clean.
    Opaque { input: usize },
}

/// A query plan: an arena of nodes, each referring to inputs by earlier
/// positions; the last node is the plan's root.
pub struct Plan {
    pub nodes: Vec<PlanNode>,
}

/// The policy frame one node evaluates to, `None` when the node or one
/// of its inputs is invalid.
pub open spec fn eval_node_at(nodes: Seq<PlanNode>, i: int) -> Option<Seq<ColumnModel>>
    decreases i, 1int, 0int,
{
    if i < 0 || i >= nodes.len() {
        None
    } else {
        match nodes[i] {
            PlanNode::Scan { policy } => match policy {
                Some(f) => Some(f@),
                None => None,
            },
            PlanNode::Filter { input, keep } => if (input as int) < i {
                match eval_node_at(nodes, input as int) {
                    Some(f) => select_model(f, keep@),
                    None => None,
                }
            } else {
                None
            },
            PlanNode::Project { input, exprs } => if (input as int) < i {
                match eval_node_at(nodes, input as int) {
                    Some(f) => project_model(f, exprs@),
                    None => None,
                }
            } else {
                None
            },
            PlanNode::GroupAgg { input, keys, groups, aggs } => if (input as int) < i {
                match eval_node_at(nodes, input as int) {
                    Some(f) => group_agg_model(f, keys@, groups_view(groups@), aggs@),
                    None => None,
                }
            } else {
                None
            },
            PlanNode::Join { left, right, left_on, right_on, pairs } => if (left as int) < i && (
            right as int) < i {
                match (eval_node_at(nodes, left as int), eval_node_at(nodes, right as int)) {
                    (Some(l), Some(r)) => join_frames_model(l, r, left_on@, right_on@, pairs@),
                    _ => None,
                }
            } else {
                None
            },
            PlanNode::Concat { inputs } => match eval_many(nodes, inputs@, i) {
                Some(fs) => concat_model(fs),
                None => None,
            },
            PlanNode::Sort { input, perm } => if (input as int) < i {
                match eval_node_at(nodes, input as int) {
                    Some(f) => select_model(f, perm@),
                    None => None,
                }
            } else {
                None
            },
            PlanNode::Limit { input, n } => if (input as int) < i {
                match eval_node_at(nodes, input as int) {
                    Some(f) => Some(limit_model(f, n as int)),
                    None => None,
                }
            } else {
                None
            },
            PlanNode::WithRowIndex { input, name } => if (input as int) < i {
                match eval_node_at(nodes, input as int) {
                    Some(f) => with_row_index_model(f, name@),
                    None => None,
                }
            } else {
                None
            },
            PlanNode::Opaque { input } => if (input as int) < i {
                eval_node_at(nodes, input as int)
            } else {
                None
            },
        }
    }
}

/// The policy frames a list of input nodes evaluates to, all of them
/// standing before `bound` in the arena.
pub open spec fn eval_many(nodes: Seq<PlanNode>, inputs: Seq<usize>, bound: int) -> Option<
    Seq<Seq<ColumnModel>>,
>
    decreases bound, 0int, inputs.len(),
{
    if bound < 0 {
        None
    } else if inputs.len() == 0 {
        Some(Seq::empty())
    } else if (inputs[0] as int) < bound {
        match eval_node_at(nodes, inputs[0] as int) {
            Some(f) => match eval_many(nodes, inputs.subrange(1, inputs.len() as int), bound) {
                Some(rest) => Some(seq![f] + rest),
                None => None,
            },
            None => None,
        }
    } else {
        None
    }
}

/// A plan evaluates when it is non-empty and every node in its arena
/// has a defined policy frame.
pub open spec fn plan_evaluates(nodes: Seq<PlanNode>) -> bool {
    nodes.len() > 0 && forall|j: int| 0 <= j < nodes.len() ==> eval_node_at(nodes, j) is Some
}

/// The policy frame of the plan's root node.
pub open spec fn plan_output(nodes: Seq<PlanNode>) -> Seq<ColumnModel> {
    eval_node_at(nodes, nodes.len() - 1).unwrap()
}

/// Whether the plan holds an operator without a propagation rule.
pub open spec fn plan_has_opaque(nodes: Seq<PlanNode>) -> bool {
    exists|j: int| 0 <= j < nodes.len() && (#[trigger] nodes[j]) is Opaque
}

/// Every cell of the frame is `Clean`.
pub open spec fn all_clean(f: Seq<ColumnModel>) -> bool {
    forall|c: int, i: int|
        0 <= c < f.len() && 0 <= i < f[c].policies.len() ==> (#[trigger] f[c].policies[i])
            == PolicyModel::Clean
}

proof fn lemma_eval_many_of(
    nodes: Seq<PlanNode>,
    inputs: Seq<usize>,
    bound: int,
    frames: Seq<Seq<ColumnModel>>,
)
    requires
        bound >= 0,
        inputs.len() == frames.len(),
        forall|j: int|
            0 <= j < inputs.len() ==> (#[trigger] inputs[j] as int) < bound && eval_node_at(
                nodes,
                inputs[j] as int,
            ) == Some(frames[j]),
    ensures
        eval_many(nodes, inputs, bound) == Some(frames),
    decreases inputs.len(),
{
    if inputs.len() == 0 {
        assert(frames =~= Seq::<Seq<ColumnModel>>::empty());
    } else {
        let tail_inputs = inputs.subrange(1, inputs.len() as int);
        let tail_frames = frames.subrange(1, frames.len() as int);
        lemma_eval_many_of(nodes, tail_inputs, bound, tail_frames);
        assert(seq![frames[0]] + tail_frames =~= frames);
    }
}

impl Plan {
    /// An empty plan arena.
    pub fn new() -> (p: Plan)
        ensures
            p.nodes@.len() == 0,
    {
        Plan { nodes: Vec::new() }
    }

    /// Appends one node and returns its position, for later nodes to
    /// refer to.
    pub fn push(&mut self, node: PlanNode) -> (id: usize)
        ensures
            id == old(self).nodes@.len(),
            final(self).nodes@ == old(self).nodes@.push(node),
    {
        let id = self.nodes.len();
        self.nodes.push(node);
        id
    }

    /// Walks the arena once in order, memoized by node identity, and
    /// propagates policies through every node's rule; returns the root
    /// node's policy frame.  Structural errors surface here, before any
    /// gate runs.
    #[verifier::loop_isolation(false)]
    pub fn evaluate(&self) -> (result: Result<GuardedFrame, EngineError>)
        ensures
            result is Ok <==> plan_evaluates(self.nodes@),
            result matches Ok(f) ==> f@ == plan_output(self.nodes@),
            result matches Err(e) ==> e == EngineError::SchemaMismatch || e
                == EngineError::MissingPolicyFile,
    {
        if self.nodes.len() == 0 {
            return Err(EngineError::SchemaMismatch);
        }
        let mut memo: Vec<GuardedFrame> = Vec::new();
        let mut i: usize = 0;
        while i < self.nodes.len()
            invariant
                i <= self.nodes@.len(),
                memo.len() == i,
                forall|j: int|
                    0 <= j < i ==> Some((#[trigger] memo@[j])@) == eval_node_at(self.nodes@, j),
            decreases self.nodes@.len() - i,
        {
            let node = &self.nodes[i];
            let out: GuardedFrame = match node {
                PlanNode::Scan { policy } => match policy {
                    Some(f) => f.clone(),
                    None => {
                        assert(eval_node_at(self.nodes@, i as int) is None);
                        return Err(EngineError::MissingPolicyFile);
                    },
                },
                PlanNode::Filter { input, keep } => {
                    if *input >= i {
                        assert(eval_node_at(self.nodes@, i as int) is None);
                        return Err(EngineError::SchemaMismatch);
                    }
                    match filter(&memo[*input], keep) {
                        Ok(f) => f,
                        Err(e) => {
                            assert(eval_node_at(self.nodes@, i as int) is None);
                            return Err(e);
                        },
                    }
                },
                PlanNode::Project { input, exprs } => {
                    if *input >= i {
                        assert(eval_node_at(self.nodes@, i as int) is None);
                        return Err(EngineError::SchemaMismatch);
                    }
                    match project(&memo[*input], exprs) {
                        Ok(f) => f,
                        Err(e) => {
                            assert(eval_node_at(self.nodes@, i as int) is None);
                            return Err(e);
                        },
                    }
                },
                PlanNode::GroupAgg { input, keys, groups, aggs } => {
                    if *input >= i {
                        assert(eval_node_at(self.nodes@, i as int) is None);
                        return Err(EngineError::SchemaMismatch);
                    }
                    match group_by_agg(&memo[*input], keys, groups, aggs) {
                        Ok(f) => f,
                        Err(e) => {
                            assert(eval_node_at(self.nodes@, i as int) is None);
                            return Err(e);
                        },
                    }
                },
                PlanNode::Join { left, right, left_on, right_on, pairs } => {
                    if *left >= i || *right >= i {
                        assert(eval_node_at(self.nodes@, i as int) is None);
                        return Err(EngineError::SchemaMismatch);
                    }
                    match join_frames(&memo[*left], &memo[*right], left_on, right_on, pairs) {
                        Ok(f) => f,
                        Err(e) => {
                            assert(eval_node_at(self.nodes@, i as int) is None);
                            return Err(e);
                        },
                    }
                },
                PlanNode::Concat { inputs } => {
                    let mut picked: Vec<GuardedFrame> = Vec::new();
                    let mut t: usize = 0;
                    while t < inputs.len()
                        invariant
                            t <= inputs@.len(),
                            picked.len() == t,
                            forall|u: int|
                                0 <= u < t ==> (#[trigger] inputs@[u] as int) < i as int
                                    && eval_node_at(self.nodes@, inputs@[u] as int) == Some(
                                    picked@[u]@,
                                ),
                        decreases inputs@.len() - t,
                    {
                        if inputs[t] >= i {
                            proof {
                                assert(eval_many(self.nodes@, inputs@, i as int) is None) by {
                                    lemma_eval_many_bad(self.nodes@, inputs@, i as int, t as int);
                                }
                            }
                            return Err(EngineError::SchemaMismatch);
                        }
                        picked.push(memo[inputs[t]].clone());
                        t = t + 1;
                    }
                    proof {
                        lemma_eval_many_of(
                            self.nodes@,
                            inputs@,
                            i as int,
                            picked@.map_values(|f: GuardedFrame| f@),
                        );
                    }
                    match concat(&picked) {
                        Ok(f) => f,
                        Err(e) => {
                            assert(eval_node_at(self.nodes@, i as int) is None);
                            return Err(e);
                        },
                    }
                },
                PlanNode::Sort { input, perm } => {
                    if *input >= i {
                        assert(eval_node_at(self.nodes@, i as int) is None);
                        return Err(EngineError::SchemaMismatch);
                    }
                    match sort(&memo[*input], perm) {
                        Ok(f) => f,
                        Err(e) => {
                            assert(eval_node_at(self.nodes@, i as int) is None);
                            return Err(e);
                        },
                    }
                },
                PlanNode::Limit { input, n } => {
                    if *input >= i {
                        assert(eval_node_at(self.nodes@, i as int) is None);
                        return Err(EngineError::SchemaMismatch);
                    }
                    limit(&memo[*input], *n)
                },
                PlanNode::WithRowIndex { input, name } => {
                    if *input >= i {
                        assert(eval_node_at(self.nodes@, i as int) is None);
                        return Err(EngineError::SchemaMismatch);
                    }
                    match with_row_index(&memo[*input], name.clone()) {
                        Ok(f) => f,
                        Err(e) => {
                            assert(eval_node_at(self.nodes@, i as int) is None);
                            return Err(e);
                        },
                    }
                },
                PlanNode::Opaque { input } => {
                    if *input >= i {
                        assert(eval_node_at(self.nodes@, i as int) is None);
                        return Err(EngineError::SchemaMismatch);
                    }
                    memo[*input].clone()
                },
            };
            assert(Some(out@) == eval_node_at(self.nodes@, i as int));
            memo.push(out);
            i = i + 1;
        }
        let root = memo.len() - 1;
        let f = memo[root].clone();
        proof {
            assert forall|j: int|
                0 <= j < self.nodes@.len() implies (#[trigger] eval_node_at(
                self.nodes@,
                j,
            )) is Some by {
                assert(eval_node_at(self.nodes@, j) == Some(memo@[j]@));
            };
            assert(plan_evaluates(self.nodes@));
            assert(f@ == plan_output(self.nodes@));
        }
        Ok(f)
    }

    /// Whether the plan holds an operator without a propagation rule.
    pub fn has_opaque(&self) -> (r: bool)
        ensures
            r == plan_has_opaque(self.nodes@),
    {
        let mut j: usize = 0;
        while j < self.nodes.len()
            invariant
                j <= self.nodes@.len(),
                forall|t: int| 0 <= t < j ==> !((#[trigger] self.nodes@[t]) is Opaque),
            decreases self.nodes@.len() - j,
        {
            if matches!(&self.nodes[j], PlanNode::Opaque { .. }) {
                return true;
            }
            j = j + 1;
        }
        false
    }
}

proof fn lemma_eval_many_bad(nodes: Seq<PlanNode>, inputs: Seq<usize>, bound: int, bad: int)
    requires
        bound >= 0,
        0 <= bad < inputs.len(),
        inputs[bad] as int >= bound,
    ensures
        eval_many(nodes, inputs, bound) is None,
    decreases inputs.len(),
{
    if inputs.len() > 0 && (inputs[0] as int) < bound {
        if eval_node_at(nodes, inputs[0] as int) is Some {
            lemma_eval_many_bad(nodes, inputs.subrange(1, inputs.len() as int), bound, bad - 1);
        }
    }
}

/// The collect gate's core: pass iff every exposed cell is `Clean`;
/// otherwise a violation naming the first offending column and row,
/// never disclosing the offending raw value.
#[verifier::loop_isolation(false)]
pub fn check_all_clean(frame: &GuardedFrame) -> (result: Result<(), EngineError>)
    ensures
        result is Ok <==> all_clean(frame@),
        result matches Err(e) ==> e matches EngineError::PolicyViolation { column, col, row }
            && col < frame@.len() && row < frame@[col as int].policies.len()
            && frame@[col as int].policies[row as int] != PolicyModel::Clean
            && column@ == frame@[col as int].name && (
        forall|c2: int, i2: int|
            0 <= c2 < col && 0 <= i2 < frame@[c2].policies.len() ==> (
            #[trigger] frame@[c2].policies[i2]) == PolicyModel::Clean) && (forall|i2: int|
            0 <= i2 < row ==> (#[trigger] frame@[col as int].policies[i2]) == PolicyModel::Clean),
{
    let mut c: usize = 0;
    while c < frame.columns.len()
        invariant
            c <= frame@.len(),
            forall|c2: int, i2: int|
                0 <= c2 < c && 0 <= i2 < frame@[c2].policies.len() ==> (
                #[trigger] frame@[c2].policies[i2]) == PolicyModel::Clean,
        decreases frame@.len() - c,
    {
        let col = &frame.columns[c];
        assert(col@ == frame@[c as int]);
        let mut i: usize = 0;
        while i < col.policies.len()
            invariant
                i <= col@.policies.len(),
                forall|i2: int|
                    0 <= i2 < i ==> (#[trigger] frame@[c as int].policies[i2])
                        == PolicyModel::Clean,
            decreases col@.policies.len() - i,
        {
            if !col.policies[i].is_clean() {
                return Err(
                    EngineError::PolicyViolation { column: col.name.clone(), col: c, row: i },
                );
            }
            i = i + 1;
        }
        c = c + 1;
    }
    Ok(())
}

/// One query execution: a plan, an optionally attached session, and the
/// per-execution checking switch.
pub struct QueryExec {
    pub plan: Plan,
    pub ctx_id: Option<usize>,
    pub checking: bool,
}

/// The collect gate is active only when a live session is attached and
/// checking is enabled on the execution.
pub open spec fn gate_active(engine: Engine, exec: QueryExec) -> bool {
    exec.checking && (exec.ctx_id matches Some(id) && id < engine.sessions@.len())
}

impl QueryExec {
    /// A fresh execution of a plan: no session attached, checking off.
    pub fn new(plan: Plan) -> (e: QueryExec)
        ensures
            e.plan == plan,
            e.ctx_id is None,
            !e.checking,
    {
        QueryExec { plan, ctx_id: None, checking: false }
    }

    /// Attaches a session to this execution.
    pub fn set_ctx_id(self, id: usize) -> (e: QueryExec)
        ensures
            e.plan == self.plan,
            e.ctx_id == Some(id),
            e.checking == self.checking,
    {
        QueryExec { plan: self.plan, ctx_id: Some(id), checking: self.checking }
    }

    /// Switches policy checking on or off for this execution.
    pub fn set_policy_checking(self, on: bool) -> (e: QueryExec)
        ensures
            e.plan == self.plan,
            e.ctx_id == self.ctx_id,
            e.checking == on,
    {
        QueryExec { plan: self.plan, ctx_id: self.ctx_id, checking: on }
    }
}

impl Engine {
    /// Materializes one execution.  Policies propagate through every
    /// node in all cases.  When enforcement applies, the result comes
    /// back only if every exposed cell is `Clean` and every operator had
    /// a real propagation rule; otherwise the whole execution fails and
    /// the error names the first offending column.  When enforcement is
    /// off, the guarded frame passes through so that later checked
    /// executions stay sound.
    pub fn collect(&self, exec: &QueryExec) -> (result: Result<GuardedFrame, EngineError>)
        ensures
            result is Ok <==> plan_evaluates(exec.plan.nodes@) && (gate_active(*self, *exec)
                ==> all_clean(plan_output(exec.plan.nodes@)) && !plan_has_opaque(exec.plan.nodes@)),
            result matches Ok(f) ==> f@ == plan_output(exec.plan.nodes@),
            gate_active(*self, *exec) && plan_evaluates(exec.plan.nodes@) && !all_clean(
                plan_output(exec.plan.nodes@),
            ) ==> (result matches Err(e) && e is PolicyViolation),
            gate_active(*self, *exec) && plan_evaluates(exec.plan.nodes@) && all_clean(
                plan_output(exec.plan.nodes@),
            ) && plan_has_opaque(exec.plan.nodes@) ==> result == Err::<
                GuardedFrame,
                EngineError,
            >(EngineError::UnsupportedTransformForDeclassification),
            result matches Err(e) ==> (e matches EngineError::PolicyViolation {
                column,
                col,
                row,
            } ==> plan_evaluates(exec.plan.nodes@) && col < plan_output(exec.plan.nodes@).len()
                && plan_output(exec.plan.nodes@)[col as int].policies[row as int]
                != PolicyModel::Clean && column@ == plan_output(exec.plan.nodes@)[col as int].name),
    {
        let frame = match exec.plan.evaluate() {
            Ok(f) => f,
            Err(e) => {
                return Err(e);
            },
        };
        let active = exec.checking && match exec.ctx_id {
            Some(id) => self.has_session(id),
            None => false,
        };
        if active {
            match check_all_clean(&frame) {
                Ok(()) => {},
                Err(e) => {
                    return Err(e);
                },
            }
            if exec.plan.has_opaque() {
                return Err(EngineError::UnsupportedTransformForDeclassification);
            }
        }
        Ok(frame)
    }
}

} // verus!
