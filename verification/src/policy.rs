//! The policy model: the per-cell label taxonomy and its algebra.
//!
//! A policy is either `Clean` (unrestricted), `Top` (maximally sensitive),
//! or a `Declassify` chain that is gated by a label and becomes its `next`
//! policy once the label's condition is satisfied.  Two policies that feed
//! one derived cell are combined with `join`, the conservative combination
//! over the restriction order `leq`.

use vstd::prelude::*;

verus! {

/// Aggregation methods that a declassification condition can name,
/// matched structurally against the method actually applied.
#[derive(Clone, Copy, Debug, PartialEq, Eq, Structural)]
pub enum AggMethod {
    Max,
    Min,
    Mean,
    Sum,
    First,
    Last,
    Count { include_nulls: bool },
}

/// One way to satisfy an aggregation label: a method together with the
/// smallest group size that discharges the condition.
#[derive(Clone, Copy, Debug, PartialEq, Eq, Structural)]
pub struct AggOp {
    pub how: AggMethod,
    pub group_size: u64,
}

/// The condition attached to a pending declassification.
#[derive(Debug)]
pub enum PolicyLabel {
    /// Never satisfied by any transform the engine applies.
    Top,
    /// Satisfied when the cell is consumed by one of the listed
    /// aggregation methods over a group of at least the paired size.
    Agg { ops: Vec<AggOp> },
}

/// The per-cell information-flow policy.
#[derive(Debug)]
pub enum Policy {
    /// No restriction: the cell may leave the trusted boundary.
    Clean,
    /// Maximally sensitive: no transform ever relaxes it.
    Top,
    /// Gated by `label`; becomes `next` once the condition is satisfied.
    /// Chains may nest: `next` may itself be a `Declassify`.
    Declassify { label: PolicyLabel, next: Box<Policy> },
}

/// Mathematical model of a `PolicyLabel`.
#[verifier::ext_equal]
pub enum LabelModel {
    Top,
    Agg { ops: Seq<AggOp> },
}

/// Mathematical model of a `Policy`.
#[verifier::ext_equal]
pub enum PolicyModel {
    Clean,
    Top,
    Declassify { label: LabelModel, next: Box<PolicyModel> },
}

impl View for PolicyLabel {
    type V = LabelModel;

    open spec fn view(&self) -> LabelModel {
        match self {
            PolicyLabel::Top => LabelModel::Top,
            PolicyLabel::Agg { ops } => LabelModel::Agg { ops: ops@ },
        }
    }
}

/// The model of a policy value, one model constructor per variant.
pub open spec fn policy_model(p: Policy) -> PolicyModel
    decreases p,
{
    match p {
        Policy::Clean => PolicyModel::Clean,
        Policy::Top => PolicyModel::Top,
        Policy::Declassify { label, next } => PolicyModel::Declassify {
            label: label@,
            next: Box::new(policy_model(*next)),
        },
    }
}

impl View for Policy {
    type V = PolicyModel;

    open spec fn view(&self) -> PolicyModel {
        policy_model(*self)
    }
}

/// The restriction order.  `a` is below `b` when `a` equals `b`, `a` is
/// unrestricted, `b` is maximally sensitive, or `a` is what remains of
/// `b` after discharging a prefix of `b`'s pending conditions.
pub open spec fn leq(a: PolicyModel, b: PolicyModel) -> bool
    decreases b,
{
    ||| a == b
    ||| a == PolicyModel::Clean
    ||| b == PolicyModel::Top
    ||| (b matches PolicyModel::Declassify { next, .. } && leq(a, *next))
}

/// Well-formed policies keep `Top` out of declassification chains:
/// a condition whose reward is still `Top` promises nothing.
pub open spec fn policy_wf(p: PolicyModel) -> bool
    decreases p,
{
    match p {
        PolicyModel::Declassify { label: _, next } => !(*next is Top) && policy_wf(*next),
        _ => true,
    }
}

/// Conservative combination of two policies contributing to one derived
/// cell: the more restrictive of comparable policies; `Top` when both
/// sides carry distinct unmet restrictions.
pub open spec fn join_model(a: PolicyModel, b: PolicyModel) -> PolicyModel {
    if leq(a, b) {
        b
    } else if leq(b, a) {
        a
    } else {
        PolicyModel::Top
    }
}

/// Whether applying `how` over a group of `group_size` rows satisfies one
/// of the label's listed conditions.
pub open spec fn op_satisfied(ops: Seq<AggOp>, how: AggMethod, group_size: u64) -> bool {
    exists|i: int|
        0 <= i < ops.len() && ops[i].how == how && group_size >= ops[i].group_size
}

/// One declassification step: a satisfied `Declassify` becomes its `next`
/// policy; every other policy is returned unchanged.  Total, never fails.
pub open spec fn declassify_model(p: PolicyModel, how: AggMethod, group_size: u64) -> PolicyModel {
    match p {
        PolicyModel::Declassify { label, next } => match label {
            LabelModel::Agg { ops } => if op_satisfied(ops, how, group_size) {
                *next
            } else {
                p
            },
            LabelModel::Top => p,
        },
        _ => p,
    }
}

/// Number of pending conditions on a chain.
pub open spec fn chain_len(p: PolicyModel) -> nat
    decreases p,
{
    match p {
        PolicyModel::Declassify { label: _, next } => 1 + chain_len(*next),
        _ => 0,
    }
}

proof fn lemma_top_not_below(b: PolicyModel)
    requires
        policy_wf(b),
        !(b is Top),
    ensures
        !leq(PolicyModel::Top, b),
    decreases b,
{
    match b {
        PolicyModel::Declassify { label: _, next } => {
            lemma_top_not_below(*next);
        },
        _ => {},
    }
}

proof fn lemma_leq_chain_len(a: PolicyModel, b: PolicyModel)
    requires
        policy_wf(b),
        leq(a, b),
        !(a is Clean),
        !(b is Top),
    ensures
        chain_len(a) <= chain_len(b),
        a != b ==> chain_len(a) < chain_len(b),
    decreases b,
{
    if a == b {
    } else {
        match b {
            PolicyModel::Declassify { label: _, next } => {
                if *next is Top {
                    // excluded by well-formedness
                } else {
                    lemma_leq_chain_len(a, *next);
                }
            },
            _ => {},
        }
    }
}

proof fn lemma_leq_antisymmetric(a: PolicyModel, b: PolicyModel)
    requires
        policy_wf(a),
        policy_wf(b),
        leq(a, b),
        leq(b, a),
    ensures
        a == b,
{
    if a == b {
    } else if a is Clean {
        assert(leq(b, PolicyModel::Clean));
    } else if b is Clean {
        assert(leq(a, PolicyModel::Clean));
    } else if a is Top {
        lemma_top_not_below(b);
    } else if b is Top {
        lemma_top_not_below(a);
    } else {
        lemma_leq_chain_len(a, b);
        lemma_leq_chain_len(b, a);
    }
}

proof fn lemma_leq_transitive(a: PolicyModel, b: PolicyModel, c: PolicyModel)
    requires
        policy_wf(a),
        policy_wf(b),
        policy_wf(c),
        leq(a, b),
        leq(b, c),
    ensures
        leq(a, c),
    decreases c,
{
    if a == b || b == c || a is Clean || c is Top {
    } else if b is Top {
        lemma_top_not_below(c);
    } else {
        match c {
            PolicyModel::Declassify { label: _, next } => {
                lemma_leq_transitive(a, b, *next);
            },
            _ => {},
        }
    }
}

proof fn lemma_lower_bounds_comparable(a: PolicyModel, b: PolicyModel, c: PolicyModel)
    requires
        policy_wf(a),
        policy_wf(b),
        policy_wf(c),
        leq(a, c),
        leq(b, c),
        !(c is Top),
    ensures
        leq(a, b) || leq(b, a),
    decreases c,
{
    if a == c || b == c || a is Clean || b is Clean {
    } else {
        match c {
            PolicyModel::Declassify { label: _, next } => {
                lemma_lower_bounds_comparable(a, b, *next);
            },
            _ => {},
        }
    }
}

/// `Clean` is the identity element of `join`.
pub proof fn lemma_join_clean_identity(p: PolicyModel)
    ensures
        join_model(PolicyModel::Clean, p) == p,
        join_model(p, PolicyModel::Clean) == p,
{
}

/// `join` is idempotent.
pub proof fn lemma_join_idempotent(p: PolicyModel)
    ensures
        join_model(p, p) == p,
{
}

/// `join` is commutative.
pub proof fn lemma_join_commutative(a: PolicyModel, b: PolicyModel)
    requires
        policy_wf(a),
        policy_wf(b),
    ensures
        join_model(a, b) == join_model(b, a),
{
    if leq(a, b) && leq(b, a) {
        lemma_leq_antisymmetric(a, b);
    }
}

/// The join of two well-formed policies is well-formed.
pub proof fn lemma_join_wf(a: PolicyModel, b: PolicyModel)
    requires
        policy_wf(a),
        policy_wf(b),
    ensures
        policy_wf(join_model(a, b)),
{
}

/// `join` is associative.
pub proof fn lemma_join_associative(a: PolicyModel, b: PolicyModel, c: PolicyModel)
    requires
        policy_wf(a),
        policy_wf(b),
        policy_wf(c),
    ensures
        join_model(join_model(a, b), c) == join_model(a, join_model(b, c)),
{
    let top = PolicyModel::Top;
    if leq(a, b) {
        if leq(b, a) {
            lemma_leq_antisymmetric(a, b);
        } else {
            // join(a, b) == b
            if leq(b, c) {
                lemma_leq_transitive(a, b, c);
                if leq(c, b) {
                    lemma_leq_antisymmetric(b, c);
                }
                // both sides equal join(a, c) == c
                if leq(c, a) {
                    lemma_leq_transitive(b, c, a);
                }
            } else if leq(c, b) {
                // join(b, c) == b, both sides join(a, b) == b
            } else {
                // b, c incomparable: lhs == join(b, c) == top
                if c is Top {
                    assert(leq(b, c));
                } else {
                    lemma_top_not_below(c);
                }
                assert(join_model(top, c) == top);
                assert(join_model(a, top) == top);
            }
        }
    } else if leq(b, a) {
        // join(a, b) == a
        if leq(b, c) {
            if leq(c, b) {
                lemma_leq_antisymmetric(b, c);
            }
            // rhs == join(a, c), lhs == join(a, c)
        } else if leq(c, b) {
            // join(b, c) == b, rhs == join(a, b) == a
            lemma_leq_transitive(c, b, a);
            if leq(a, c) {
                lemma_leq_antisymmetric(a, c);
            }
        } else {
            // b, c incomparable: rhs == join(a, top) == top
            if a is Top {
                if c is Top {
                    assert(leq(b, c));
                } else {
                    lemma_top_not_below(c);
                }
            } else {
                if leq(a, c) {
                    lemma_leq_transitive(b, a, c);
                }
                if leq(c, a) {
                    lemma_lower_bounds_comparable(b, c, a);
                }
            }
            assert(join_model(a, c) == top);
        }
    } else {
        // a, b incomparable: join(a, b) == top, lhs == join(top, c) == top
        if c is Top {
        } else {
            lemma_top_not_below(c);
        }
        assert(join_model(top, c) == top);
        if leq(b, c) {
            // join(b, c) == c; show a, c incomparable
            if leq(a, c) {
                if c is Top {
                    assert(leq(b, PolicyModel::Top));
                } else {
                    lemma_lower_bounds_comparable(a, b, c);
                }
            }
            if leq(c, a) {
                lemma_leq_transitive(b, c, a);
            }
            assert(join_model(a, c) == top);
        } else if leq(c, b) {
            // join(b, c) == b, rhs == join(a, b) == top
        } else {
            // rhs == join(a, top) == top
            if a is Top {
                assert(leq(b, a));
            }
            lemma_top_not_below(a);
            assert(join_model(a, top) == top);
        }
    }
}

/// Declassification is monotonic: its result is never more restrictive
/// than its input.
pub proof fn lemma_declassify_monotone(p: PolicyModel, how: AggMethod, group_size: u64)
    ensures
        leq(declassify_model(p, how, group_size), p),
{
    match p {
        PolicyModel::Declassify { label, next } => {
            assert(leq(*next, *next));
            assert(leq(*next, p));
        },
        _ => {},
    }
}

/// A well-formed declassification result is well-formed.
pub proof fn lemma_declassify_wf(p: PolicyModel, how: AggMethod, group_size: u64)
    requires
        policy_wf(p),
    ensures
        policy_wf(declassify_model(p, how, group_size)),
{
}

/// Joining a policy with its own declassified form gives back the policy:
/// declassification never adds a restriction that `join` would have to
/// absorb.
pub proof fn lemma_join_absorbs_declassify(p: PolicyModel, how: AggMethod, group_size: u64)
    requires
        policy_wf(p),
    ensures
        join_model(p, declassify_model(p, how, group_size)) == p,
{
    let d = declassify_model(p, how, group_size);
    lemma_declassify_monotone(p, how, group_size);
    lemma_declassify_wf(p, how, group_size);
    if leq(p, d) {
        lemma_leq_antisymmetric(p, d);
    }
}

impl Clone for PolicyLabel {
    /// Structural copy; the clone has the same model.
    fn clone(&self) -> (r: PolicyLabel)
        ensures
            r@ == self@,
    {
        match self {
            PolicyLabel::Top => PolicyLabel::Top,
            PolicyLabel::Agg { ops } => {
                let mut copied: Vec<AggOp> = Vec::new();
                let mut i: usize = 0;
                while i < ops.len()
                    invariant
                        i <= ops.len(),
                        copied@ == ops@.subrange(0, i as int),
                    decreases ops.len() - i,
                {
                    copied.push(ops[i]);
                    i = i + 1;
                }
                assert(copied@ == ops@);
                PolicyLabel::Agg { ops: copied }
            },
        }
    }
}

impl Clone for Policy {
    /// Structural copy; the clone has the same model.
    fn clone(&self) -> (r: Policy)
        ensures
            r@ == self@,
        decreases *self,
    {
        match self {
            Policy::Clean => Policy::Clean,
            Policy::Top => Policy::Top,
            Policy::Declassify { label, next } => Policy::Declassify {
                label: label.clone(),
                next: Box::new((**next).clone()),
            },
        }
    }
}

impl PolicyLabel {
    /// Structural equality of labels, reflected in the model.
    pub fn eq_label(&self, other: &PolicyLabel) -> (r: bool)
        ensures
            r == (self@ == other@),
    {
        match self {
            PolicyLabel::Top => matches!(other, PolicyLabel::Top),
            PolicyLabel::Agg { ops: a } => match other {
                PolicyLabel::Agg { ops: b } => {
                    if a.len() != b.len() {
                        assert(a@ != b@);
                        false
                    } else {
                        let mut i: usize = 0;
                        while i < a.len()
                            invariant
                                i <= a.len(),
                                a.len() == b.len(),
                                self@ == (LabelModel::Agg { ops: a@ }),
                                other@ == (LabelModel::Agg { ops: b@ }),
                                forall|j: int| 0 <= j < i ==> a@[j] == b@[j],
                            decreases a.len() - i,
                        {
                            if a[i] != b[i] {
                                assert(a@[i as int] != b@[i as int]);
                                assert(a@ != b@);
                                return false;
                            }
                            i = i + 1;
                        }
                        assert(a@ =~= b@);
                        true
                    }
                },
                _ => false,
            },
        }
    }
}

impl Policy {
    /// Structural equality of policies, reflected in the model.
    pub fn eq_policy(&self, other: &Policy) -> (r: bool)
        ensures
            r == (self@ == other@),
        decreases *self,
    {
        match self {
            Policy::Clean => matches!(other, Policy::Clean),
            Policy::Top => matches!(other, Policy::Top),
            Policy::Declassify { label: l1, next: n1 } => match other {
                Policy::Declassify { label: l2, next: n2 } => l1.eq_label(l2) && n1.eq_policy(
                    n2,
                ),
                _ => false,
            },
        }
    }

    /// Whether the policy is `Clean`, the only releasable policy.
    pub fn is_clean(&self) -> (r: bool)
        ensures
            r == (self@ == PolicyModel::Clean),
    {
        matches!(self, Policy::Clean)
    }

    /// Whether the model is well-formed (no `Top` inside a chain).
    pub fn check_wf(&self) -> (r: bool)
        ensures
            r == policy_wf(self@),
        decreases *self,
    {
        match self {
            Policy::Declassify { label: _, next } => {
                let tail_top = matches!(&**next, Policy::Top);
                !tail_top && next.check_wf()
            },
            _ => true,
        }
    }

    /// Whether `self` is below `other` in the restriction order.
    pub fn le(&self, other: &Policy) -> (r: bool)
        ensures
            r == leq(self@, other@),
        decreases *other,
    {
        if self.eq_policy(other) {
            true
        } else if matches!(self, Policy::Clean) {
            true
        } else {
            match other {
                Policy::Top => true,
                Policy::Declassify { label: _, next } => self.le(next),
                _ => false,
            }
        }
    }

    /// Conservative combination of two policies feeding one derived cell.
    pub fn join(&self, other: &Policy) -> (r: Policy)
        ensures
            r@ == join_model(self@, other@),
    {
        if self.le(other) {
            other.clone()
        } else if other.le(self) {
            self.clone()
        } else {
            Policy::Top
        }
    }

    /// One declassification step: if the policy is gated by an
    /// aggregation label that `how` over `group_size` rows satisfies,
    /// the policy becomes its `next`; otherwise it is returned unchanged.
    pub fn declassify(&self, how: AggMethod, group_size: u64) -> (r: Policy)
        ensures
            r@ == declassify_model(self@, how, group_size),
    {
        match self {
            Policy::Declassify { label, next } => match label {
                PolicyLabel::Agg { ops } => {
                    let mut i: usize = 0;
                    while i < ops.len()
                        invariant
                            i <= ops.len(),
                            self@ == (PolicyModel::Declassify {
                                label: LabelModel::Agg { ops: ops@ },
                                next: Box::new((**next)@),
                            }),
                            forall|j: int|
                                0 <= j < i ==> !(ops@[j].how == how && group_size
                                    >= ops@[j].group_size),
                        decreases ops.len() - i,
                    {
                        if ops[i].how == how && group_size >= ops[i].group_size {
                            assert(op_satisfied(ops@, how, group_size));
                            return (**next).clone();
                        }
                        i = i + 1;
                    }
                    assert(!op_satisfied(ops@, how, group_size));
                    self.clone()
                },
                PolicyLabel::Top => self.clone(),
            },
            _ => self.clone(),
        }
    }
}

} // verus!
