//! Guarded columns and frames: one policy per cell, aligned to the raw
//! frame's shape.

use vstd::prelude::*;
use crate::policy::{Policy, PolicyModel};
use crate::error::EngineError;

verus! {

/// One guarded column: an ordered sequence of policies, one per row of
/// the paired data column.
#[derive(Debug)]
pub struct GuardedColumn {
    /// The paired raw column's name.
    pub name: String,
    /// One policy per row, positionally aligned with the data.
    pub policies: Vec<Policy>,
}

/// Mathematical model of a guarded column.
#[verifier::ext_equal]
pub struct ColumnModel {
    pub name: Seq<char>,
    pub policies: Seq<PolicyModel>,
}

impl View for GuardedColumn {
    type V = ColumnModel;

    open spec fn view(&self) -> ColumnModel {
        ColumnModel { name: self.name@, policies: self.policies@.map_values(|p: Policy| p@) }
    }
}

/// A guarded frame: one guarded column per schema column, in schema
/// order, all sharing one row count.
#[derive(Debug)]
pub struct GuardedFrame {
    pub columns: Vec<GuardedColumn>,
}

impl View for GuardedFrame {
    type V = Seq<ColumnModel>;

    open spec fn view(&self) -> Seq<ColumnModel> {
        self.columns@.map_values(|c: GuardedColumn| c@)
    }
}

/// Row count of a frame model: the first column's, zero without columns.
pub open spec fn frame_rows(f: Seq<ColumnModel>) -> nat {
    if f.len() == 0 {
        0
    } else {
        f[0].policies.len()
    }
}

/// All columns share one row count.
pub open spec fn frame_uniform(f: Seq<ColumnModel>) -> bool {
    forall|c: int| 0 <= c < f.len() ==> (#[trigger] f[c]).policies.len() == frame_rows(f)
}

impl Clone for GuardedColumn {
    /// Structural copy; the clone has the same model.
    fn clone(&self) -> (r: GuardedColumn)
        ensures
            r@ == self@,
    {
        let mut policies: Vec<Policy> = Vec::new();
        let mut i: usize = 0;
        while i < self.policies.len()
            invariant
                i <= self.policies.len(),
                policies.len() == i,
                forall|j: int| 0 <= j < i ==> policies@[j]@ == self@.policies[j],
            decreases self.policies.len() - i,
        {
            policies.push(self.policies[i].clone());
            i = i + 1;
        }
        let r = GuardedColumn { name: self.name.clone(), policies };
        proof {
            assert(r@.policies =~= self@.policies);
            assert(r@ =~= self@);
        }
        r
    }
}

impl Clone for GuardedFrame {
    /// Structural copy; the clone has the same model.
    fn clone(&self) -> (r: GuardedFrame)
        ensures
            r@ == self@,
    {
        let mut columns: Vec<GuardedColumn> = Vec::new();
        let mut i: usize = 0;
        while i < self.columns.len()
            invariant
                i <= self.columns.len(),
                columns.len() == i,
                forall|j: int| 0 <= j < i ==> columns@[j]@ == self@[j],
            decreases self.columns.len() - i,
        {
            columns.push(self.columns[i].clone());
            i = i + 1;
        }
        let r = GuardedFrame { columns };
        proof {
            assert(r@ =~= self@);
        }
        r
    }
}

impl GuardedColumn {
    /// Builds a guarded column from per-row policies; fails with
    /// `SchemaMismatch` when the length does not match the paired data
    /// column's row count.
    pub fn new(name: String, policies: Vec<Policy>, expected_rows: usize) -> (result: Result<
        GuardedColumn,
        EngineError,
    >)
        ensures
            result is Ok <==> policies@.len() == expected_rows,
            result matches Ok(c) ==> c@ == (ColumnModel {
                name: name@,
                policies: policies@.map_values(|p: Policy| p@),
            }),
            result matches Err(e) ==> e == EngineError::SchemaMismatch,
    {
        if policies.len() == expected_rows {
            Ok(GuardedColumn { name, policies })
        } else {
            Err(EngineError::SchemaMismatch)
        }
    }

    /// Number of rows covered by this column.
    pub fn rows(&self) -> (n: usize)
        ensures
            n == self@.policies.len(),
    {
        self.policies.len()
    }

    /// The policy of one row.
    pub fn policy_at(&self, row: usize) -> (p: &Policy)
        requires
            row < self@.policies.len(),
        ensures
            p@ == self@.policies[row as int],
    {
        &self.policies[row]
    }
}

impl GuardedFrame {
    /// Builds a guarded frame; fails with `SchemaMismatch` unless all
    /// columns share one row count.
    pub fn new(columns: Vec<GuardedColumn>) -> (result: Result<GuardedFrame, EngineError>)
        ensures
            result is Ok <==> frame_uniform(columns@.map_values(|c: GuardedColumn| c@)),
            result matches Ok(f) ==> f@ == columns@.map_values(|c: GuardedColumn| c@),
            result matches Err(e) ==> e == EngineError::SchemaMismatch,
    {
        let ghost model = columns@.map_values(|c: GuardedColumn| c@);
        if columns.len() == 0 {
            let f = GuardedFrame { columns };
            proof {
                assert(f@ =~= model);
            }
            return Ok(f);
        }
        let rows0 = columns[0].policies.len();
        let mut c: usize = 1;
        while c < columns.len()
            invariant
                1 <= c <= columns.len(),
                columns.len() > 0,
                rows0 == model[0].policies.len(),
                model == columns@.map_values(|col: GuardedColumn| col@),
                forall|j: int| 0 <= j < c ==> (#[trigger] model[j]).policies.len() == rows0,
            decreases columns.len() - c,
        {
            if columns[c].policies.len() != rows0 {
                assert(model[c as int].policies.len() != frame_rows(model));
                return Err(EngineError::SchemaMismatch);
            }
            c = c + 1;
        }
        let f = GuardedFrame { columns };
        proof {
            assert(f@ =~= model);
        }
        Ok(f)
    }

    /// Number of columns.
    pub fn num_columns(&self) -> (n: usize)
        ensures
            n == self@.len(),
    {
        self.columns.len()
    }

    /// One column, by position.
    pub fn column(&self, c: usize) -> (col: &GuardedColumn)
        requires
            c < self@.len(),
        ensures
            col@ == self@[c as int],
    {
        &self.columns[c]
    }

    /// Row count: the first column's, zero without columns.
    pub fn rows(&self) -> (n: usize)
        ensures
            n == frame_rows(self@),
    {
        if self.columns.len() == 0 {
            0
        } else {
            self.columns[0].policies.len()
        }
    }

    /// Whether all columns share one row count.
    pub fn is_uniform(&self) -> (r: bool)
        ensures
            r == frame_uniform(self@),
    {
        let mut c: usize = 0;
        let rows0 = self.rows();
        while c < self.columns.len()
            invariant
                c <= self.columns.len(),
                rows0 == frame_rows(self@),
                forall|j: int| 0 <= j < c ==> (#[trigger] self@[j]).policies.len() == rows0,
            decreases self.columns.len() - c,
        {
            if self.columns[c].policies.len() != rows0 {
                assert((self@[c as int]).policies.len() != frame_rows(self@));
                return false;
            }
            c = c + 1;
        }
        true
    }

    /// Validates the frame against a raw frame's schema: same column
    /// names in the same order, and every column holding one policy per
    /// raw row (§ file pairing).
    pub fn matches_schema(&self, names: &Vec<String>, rows: usize) -> (r: bool)
        ensures
            r == schema_match(self@, names@.map_values(|n: String| n@), rows as nat),
    {
        if self.columns.len() != names.len() {
            return false;
        }
        let mut c: usize = 0;
        while c < self.columns.len()
            invariant
                c <= self.columns.len(),
                self.columns.len() == names.len(),
                self@.len() == names@.len(),
                forall|j: int|
                    0 <= j < c ==> (#[trigger] self@[j]).name == names@[j]@
                        && self@[j].policies.len() == rows as nat,
            decreases self.columns.len() - c,
        {
            if !(self.columns[c].name == names[c]) || self.columns[c].policies.len() != rows {
                assert(!((#[trigger] self@[c as int]).name == names@.map_values(|n: String| n@)[c as int]
                    && self@[c as int].policies.len() == rows as nat));
                return false;
            }
            c = c + 1;
        }
        true
    }
}

/// Whether a guarded frame aligns with a raw schema: equal column names
/// in order, one policy per raw row in every column.
pub open spec fn schema_match(f: Seq<ColumnModel>, names: Seq<Seq<char>>, rows: nat) -> bool {
    &&& f.len() == names.len()
    &&& forall|c: int|
        0 <= c < f.len() ==> (#[trigger] f[c]).name == names[c] && f[c].policies.len() == rows
}

} // verus!
