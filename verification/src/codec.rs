//! The columnar side-file format for guarded frames.
//!
//! A policy file holds, little-endian length-prefixed: the column count,
//! then per column its UTF-8 name, its row count, and one serialized
//! policy per row.  Encoding and decoding are each other's inverses,
//! proved below; a malformed byte stream decodes to
//! `InvalidPolicyLabel`.

use vstd::prelude::*;
use crate::policy::{Policy, PolicyLabel, PolicyModel, LabelModel, AggMethod, AggOp};
use crate::frame::{GuardedColumn, GuardedFrame, ColumnModel};
use crate::error::EngineError;
use vstd::utf8::{valid_utf8, decode_utf8, encode_utf8, encode_utf8_valid_utf8,
    encode_utf8_decode_utf8};

verus! {

/// Eight little-endian bytes of a 64-bit count.
pub open spec fn u64_le(n: u64) -> Seq<u8> {
    seq![
        (n & 0xff) as u8,
        ((n >> 8) & 0xff) as u8,
        ((n >> 16) & 0xff) as u8,
        ((n >> 24) & 0xff) as u8,
        ((n >> 32) & 0xff) as u8,
        ((n >> 40) & 0xff) as u8,
        ((n >> 48) & 0xff) as u8,
        ((n >> 56) & 0xff) as u8,
    ]
}

/// The count eight little-endian bytes hold.
pub open spec fn u64_from(
    b0: u8,
    b1: u8,
    b2: u8,
    b3: u8,
    b4: u8,
    b5: u8,
    b6: u8,
    b7: u8,
) -> u64 {
    (b0 as u64) | ((b1 as u64) << 8) | ((b2 as u64) << 16) | ((b3 as u64) << 24) | ((b4 as u64)
        << 32) | ((b5 as u64) << 40) | ((b6 as u64) << 48) | ((b7 as u64) << 56)
}

proof fn lemma_u64_round(n: u64)
    ensures
        u64_from(
            (n & 0xff) as u8,
            ((n >> 8) & 0xff) as u8,
            ((n >> 16) & 0xff) as u8,
            ((n >> 24) & 0xff) as u8,
            ((n >> 32) & 0xff) as u8,
            ((n >> 40) & 0xff) as u8,
            ((n >> 48) & 0xff) as u8,
            ((n >> 56) & 0xff) as u8,
        ) == n,
{
    assert(((n & 0xff) as u8 as u64) | ((((n >> 8) & 0xff) as u8 as u64) << 8) | ((((n >> 16)
        & 0xff) as u8 as u64) << 16) | ((((n >> 24) & 0xff) as u8 as u64) << 24) | ((((n >> 32)
        & 0xff) as u8 as u64) << 32) | ((((n >> 40) & 0xff) as u8 as u64) << 40) | ((((n >> 48)
        & 0xff) as u8 as u64) << 48) | ((((n >> 56) & 0xff) as u8 as u64) << 56) == n)
        by (bit_vector);
}

/// One byte per aggregation method; `Count` carries its null flag.
pub open spec fn enc_method(m: AggMethod) -> Seq<u8> {
    match m {
        AggMethod::Max => seq![0u8],
        AggMethod::Min => seq![1u8],
        AggMethod::Mean => seq![2u8],
        AggMethod::Sum => seq![3u8],
        AggMethod::First => seq![4u8],
        AggMethod::Last => seq![5u8],
        AggMethod::Count { include_nulls } => seq![6u8, if include_nulls { 1u8 } else { 0u8 }],
    }
}

/// One aggregation condition: its method, then its group-size threshold.
pub open spec fn enc_op(op: AggOp) -> Seq<u8> {
    enc_method(op.how) + u64_le(op.group_size)
}

/// The conditions of an aggregation label, from position `t` on.
pub open spec fn enc_ops(ops: Seq<AggOp>, t: int) -> Seq<u8>
    decreases ops.len() - t,
{
    if t < 0 || t >= ops.len() {
        Seq::empty()
    } else {
        enc_op(ops[t]) + enc_ops(ops, t + 1)
    }
}

/// A label: its tag, and for an aggregation label its condition count
/// and conditions.
pub open spec fn enc_label(l: LabelModel) -> Seq<u8> {
    match l {
        LabelModel::Top => seq![0u8],
        LabelModel::Agg { ops } => seq![1u8] + u64_le(ops.len() as u64) + enc_ops(ops, 0),
    }
}

/// A policy: its tag, and for a declassification its label and the
/// policy it becomes.
pub open spec fn enc_policy(p: PolicyModel) -> Seq<u8>
    decreases p,
{
    match p {
        PolicyModel::Clean => seq![0u8],
        PolicyModel::Top => seq![1u8],
        PolicyModel::Declassify { label, next } => seq![2u8] + enc_label(label) + enc_policy(
            *next,
        ),
    }
}

/// A column's policies, from row `t` on.
pub open spec fn enc_policies(ps: Seq<PolicyModel>, t: int) -> Seq<u8>
    decreases ps.len() - t,
{
    if t < 0 || t >= ps.len() {
        Seq::empty()
    } else {
        enc_policy(ps[t]) + enc_policies(ps, t + 1)
    }
}

/// A column: its name's byte length and UTF-8 bytes, its row count, and
/// its policies.
pub open spec fn enc_column(c: ColumnModel) -> Seq<u8> {
    u64_le(encode_utf8(c.name).len() as u64) + encode_utf8(c.name) + u64_le(
        c.policies.len() as u64,
    ) + enc_policies(c.policies, 0)
}

/// A frame's columns, from column `t` on.
pub open spec fn enc_columns(f: Seq<ColumnModel>, t: int) -> Seq<u8>
    decreases f.len() - t,
{
    if t < 0 || t >= f.len() {
        Seq::empty()
    } else {
        enc_column(f[t]) + enc_columns(f, t + 1)
    }
}

/// A whole frame: its column count, then its columns.
pub open spec fn enc_frame(f: Seq<ColumnModel>) -> Seq<u8> {
    u64_le(f.len() as u64) + enc_columns(f, 0)
}

/// Counts stored in the format are 64-bit; a model within these bounds
/// round-trips exactly.  Every frame an executable value views to is
/// within them.
pub open spec fn label_bounds(l: LabelModel) -> bool {
    match l {
        LabelModel::Top => true,
        LabelModel::Agg { ops } => ops.len() <= u64::MAX,
    }
}

pub open spec fn policy_bounds(p: PolicyModel) -> bool
    decreases p,
{
    match p {
        PolicyModel::Declassify { label, next } => label_bounds(label) && policy_bounds(*next),
        _ => true,
    }
}

pub open spec fn column_bounds(c: ColumnModel) -> bool {
    &&& encode_utf8(c.name).len() <= u64::MAX
    &&& c.policies.len() <= u64::MAX
    &&& forall|i: int| 0 <= i < c.policies.len() ==> policy_bounds(#[trigger] c.policies[i])
}

pub open spec fn frame_bounds(f: Seq<ColumnModel>) -> bool {
    f.len() <= u64::MAX && forall|c: int| 0 <= c < f.len() ==> column_bounds(#[trigger] f[c])
}

/// The count the eight bytes at `i` hold, and the next position.
pub open spec fn dec_u64(s: Seq<u8>, i: int) -> Option<(u64, int)> {
    if 0 <= i && i + 8 <= s.len() {
        Some(
            (
                u64_from(
                    s[i],
                    s[i + 1],
                    s[i + 2],
                    s[i + 3],
                    s[i + 4],
                    s[i + 5],
                    s[i + 6],
                    s[i + 7],
                ),
                i + 8,
            ),
        )
    } else {
        None
    }
}

/// One aggregation condition at `i`.
pub open spec fn dec_op(s: Seq<u8>, i: int) -> Option<(AggOp, int)> {
    if 0 <= i < s.len() {
        let tag = s[i];
        if tag == 6u8 {
            if i + 1 < s.len() && (s[i + 1] == 0u8 || s[i + 1] == 1u8) {
                match dec_u64(s, i + 2) {
                    Some((g, j)) => Some(
                        (
                            AggOp {
                                how: AggMethod::Count { include_nulls: s[i + 1] == 1u8 },
                                group_size: g,
                            },
                            j,
                        ),
                    ),
                    None => None,
                }
            } else {
                None
            }
        } else if tag <= 5u8 {
            let how = if tag == 0u8 {
                AggMethod::Max
            } else if tag == 1u8 {
                AggMethod::Min
            } else if tag == 2u8 {
                AggMethod::Mean
            } else if tag == 3u8 {
                AggMethod::Sum
            } else if tag == 4u8 {
                AggMethod::First
            } else {
                AggMethod::Last
            };
            match dec_u64(s, i + 1) {
                Some((g, j)) => Some((AggOp { how, group_size: g }, j)),
                None => None,
            }
        } else {
            None
        }
    } else {
        None
    }
}

/// `n` aggregation conditions from `i` on.
pub open spec fn dec_ops(s: Seq<u8>, i: int, n: int) -> Option<(Seq<AggOp>, int)>
    decreases n,
{
    if n <= 0 {
        Some((Seq::empty(), i))
    } else {
        match dec_op(s, i) {
            Some((op, j)) => match dec_ops(s, j, n - 1) {
                Some((rest, k)) => Some((seq![op] + rest, k)),
                None => None,
            },
            None => None,
        }
    }
}

/// One label at `i`.
pub open spec fn dec_label(s: Seq<u8>, i: int) -> Option<(LabelModel, int)> {
    if 0 <= i < s.len() {
        if s[i] == 0u8 {
            Some((LabelModel::Top, i + 1))
        } else if s[i] == 1u8 {
            match dec_u64(s, i + 1) {
                Some((n, j)) => match dec_ops(s, j, n as int) {
                    Some((ops, k)) => Some((LabelModel::Agg { ops }, k)),
                    None => None,
                },
                None => None,
            }
        } else {
            None
        }
    } else {
        None
    }
}

/// One policy at `i`.
pub open spec fn dec_policy(s: Seq<u8>, i: int) -> Option<(PolicyModel, int)>
    decreases s.len() - i,
{
    if 0 <= i < s.len() {
        if s[i] == 0u8 {
            Some((PolicyModel::Clean, i + 1))
        } else if s[i] == 1u8 {
            Some((PolicyModel::Top, i + 1))
        } else if s[i] == 2u8 {
            match dec_label(s, i + 1) {
                Some((label, j)) => if i + 1 <= j <= s.len() {
                    match dec_policy(s, j) {
                        Some((next, k)) => Some(
                            (PolicyModel::Declassify { label, next: Box::new(next) }, k),
                        ),
                        None => None,
                    }
                } else {
                    None
                },
                None => None,
            }
        } else {
            None
        }
    } else {
        None
    }
}

/// `n` policies from `i` on.
pub open spec fn dec_policies(s: Seq<u8>, i: int, n: int) -> Option<(Seq<PolicyModel>, int)>
    decreases n,
{
    if n <= 0 {
        Some((Seq::empty(), i))
    } else {
        match dec_policy(s, i) {
            Some((p, j)) => match dec_policies(s, j, n - 1) {
                Some((rest, k)) => Some((seq![p] + rest, k)),
                None => None,
            },
            None => None,
        }
    }
}

/// One column at `i`.
pub open spec fn dec_column(s: Seq<u8>, i: int) -> Option<(ColumnModel, int)> {
    match dec_u64(s, i) {
        Some((name_len, j)) => if j + name_len <= s.len() {
            let name_bytes = s.subrange(j, j + name_len as int);
            if valid_utf8(name_bytes) {
                match dec_u64(s, j + name_len as int) {
                    Some((rows, k)) => match dec_policies(s, k, rows as int) {
                        Some((ps, e)) => Some(
                            (ColumnModel { name: decode_utf8(name_bytes), policies: ps }, e),
                        ),
                        None => None,
                    },
                    None => None,
                }
            } else {
                None
            }
        } else {
            None
        },
        None => None,
    }
}

/// `n` columns from `i` on.
pub open spec fn dec_columns(s: Seq<u8>, i: int, n: int) -> Option<(Seq<ColumnModel>, int)>
    decreases n,
{
    if n <= 0 {
        Some((Seq::empty(), i))
    } else {
        match dec_column(s, i) {
            Some((c, j)) => match dec_columns(s, j, n - 1) {
                Some((rest, k)) => Some((seq![c] + rest, k)),
                None => None,
            },
            None => None,
        }
    }
}

/// A whole frame, which must fill the byte stream exactly.
pub open spec fn dec_frame(s: Seq<u8>) -> Option<Seq<ColumnModel>> {
    match dec_u64(s, 0) {
        Some((n, j)) => match dec_columns(s, j, n as int) {
            Some((f, k)) => if k == s.len() {
                Some(f)
            } else {
                None
            },
            None => None,
        },
        None => None,
    }
}

proof fn lemma_dec_u64_round(s: Seq<u8>, i: int, n: u64)
    requires
        0 <= i,
        i + 8 <= s.len(),
        s.subrange(i, i + 8) == u64_le(n),
    ensures
        dec_u64(s, i) == Some((n, i + 8)),
{
    lemma_u64_round(n);
    assert(s[i] == u64_le(n)[0]);
    assert(s[i + 1] == u64_le(n)[1]);
    assert(s[i + 2] == u64_le(n)[2]);
    assert(s[i + 3] == u64_le(n)[3]);
    assert(s[i + 4] == u64_le(n)[4]);
    assert(s[i + 5] == u64_le(n)[5]);
    assert(s[i + 6] == u64_le(n)[6]);
    assert(s[i + 7] == u64_le(n)[7]);
}

proof fn lemma_split(s: Seq<u8>, i: int, front: Seq<u8>, back: Seq<u8>)
    requires
        0 <= i,
        i + front.len() + back.len() <= s.len(),
        s.subrange(i, i + front.len() + back.len()) == front + back,
    ensures
        s.subrange(i, i + front.len() as int) == front,
        s.subrange(i + front.len(), i + front.len() + back.len()) == back,
{
    let whole = front + back;
    assert forall|t: int| 0 <= t < front.len() implies s.subrange(i, i + front.len() as int)[t]
        == #[trigger] front[t] by {
        assert(front[t] == whole[t]);
        assert(s.subrange(i, i + whole.len() as int)[t] == whole[t]);
    };
    assert(s.subrange(i, i + front.len() as int) =~= front);
    assert forall|t: int| 0 <= t < back.len() implies s.subrange(
        i + front.len(),
        i + front.len() + back.len(),
    )[t] == #[trigger] back[t] by {
        assert(back[t] == whole[front.len() + t]);
        assert(s.subrange(i, i + whole.len() as int)[front.len() + t] == whole[front.len() + t]);
    };
    assert(s.subrange(i + front.len(), i + front.len() + back.len()) =~= back);
}

proof fn lemma_byte_at(s: Seq<u8>, i: int, e: Seq<u8>, k: int)
    requires
        0 <= i,
        0 <= k < e.len(),
        i + e.len() <= s.len(),
        s.subrange(i, i + e.len() as int) == e,
    ensures
        s[i + k] == e[k],
{
    assert(s.subrange(i, i + e.len() as int)[k] == s[i + k]);
}

proof fn lemma_dec_op_round(s: Seq<u8>, i: int, op: AggOp)
    requires
        0 <= i,
        i + enc_op(op).len() <= s.len(),
        s.subrange(i, i + enc_op(op).len() as int) == enc_op(op),
    ensures
        dec_op(s, i) == Some((op, i + enc_op(op).len())),
{
    let m = enc_method(op.how);
    let u = u64_le(op.group_size);
    lemma_split(s, i, m, u);
    lemma_byte_at(s, i, m, 0);
    lemma_dec_u64_round(s, i + m.len(), op.group_size);
    match op.how {
        AggMethod::Count { include_nulls } => {
            lemma_byte_at(s, i, m, 1);
        },
        _ => {},
    }
}

proof fn lemma_dec_ops_round(s: Seq<u8>, i: int, ops: Seq<AggOp>, t: int)
    requires
        0 <= i,
        0 <= t <= ops.len(),
        i + enc_ops(ops, t).len() <= s.len(),
        s.subrange(i, i + enc_ops(ops, t).len() as int) == enc_ops(ops, t),
    ensures
        dec_ops(s, i, ops.len() - t) == Some((ops.subrange(t, ops.len() as int), i + enc_ops(
            ops,
            t,
        ).len())),
    decreases ops.len() - t,
{
    if t == ops.len() {
        assert(ops.subrange(t, ops.len() as int) =~= Seq::<AggOp>::empty());
    } else {
        let a = enc_op(ops[t]);
        let rest = enc_ops(ops, t + 1);
        lemma_split(s, i, a, rest);
        lemma_dec_op_round(s, i, ops[t]);
        lemma_dec_ops_round(s, i + a.len(), ops, t + 1);
        assert(seq![ops[t]] + ops.subrange(t + 1, ops.len() as int) =~= ops.subrange(
            t,
            ops.len() as int,
        ));
    }
}

proof fn lemma_dec_label_round(s: Seq<u8>, i: int, l: LabelModel)
    requires
        label_bounds(l),
        0 <= i,
        i + enc_label(l).len() <= s.len(),
        s.subrange(i, i + enc_label(l).len() as int) == enc_label(l),
    ensures
        dec_label(s, i) == Some((l, i + enc_label(l).len())),
{
    match l {
        LabelModel::Top => {
            lemma_byte_at(s, i, enc_label(l), 0);
        },
        LabelModel::Agg { ops } => {
            let n = ops.len() as u64;
            let tag = seq![1u8];
            let count = u64_le(n);
            let body = enc_ops(ops, 0);
            assert(enc_label(l) =~= tag + (count + body));
            lemma_split(s, i, tag, count + body);
            lemma_byte_at(s, i, tag, 0);
            lemma_split(s, i + 1, count, body);
            lemma_dec_u64_round(s, i + 1, n);
            lemma_dec_ops_round(s, i + 9, ops, 0);
            assert(n as int == ops.len());
            assert(ops.subrange(0, ops.len() as int) =~= ops);
        },
    }
}

proof fn lemma_dec_policy_round(s: Seq<u8>, i: int, p: PolicyModel)
    requires
        policy_bounds(p),
        0 <= i,
        i + enc_policy(p).len() <= s.len(),
        s.subrange(i, i + enc_policy(p).len() as int) == enc_policy(p),
    ensures
        dec_policy(s, i) == Some((p, i + enc_policy(p).len())),
    decreases p,
{
    match p {
        PolicyModel::Clean => {
            lemma_byte_at(s, i, enc_policy(p), 0);
        },
        PolicyModel::Top => {
            lemma_byte_at(s, i, enc_policy(p), 0);
        },
        PolicyModel::Declassify { label, next } => {
            let tag = seq![2u8];
            let el = enc_label(label);
            let en = enc_policy(*next);
            assert(enc_policy(p) =~= tag + (el + en));
            lemma_split(s, i, tag, el + en);
            lemma_byte_at(s, i, tag, 0);
            lemma_split(s, i + 1, el, en);
            lemma_dec_label_round(s, i + 1, label);
            let j = i + 1 + el.len();
            lemma_dec_policy_round(s, j, *next);
            assert(PolicyModel::Declassify { label, next: Box::new(*next) } == p);
        },
    }
}

proof fn lemma_dec_policies_round(s: Seq<u8>, i: int, ps: Seq<PolicyModel>, t: int)
    requires
        0 <= i,
        0 <= t <= ps.len(),
        forall|k: int| 0 <= k < ps.len() ==> policy_bounds(#[trigger] ps[k]),
        i + enc_policies(ps, t).len() <= s.len(),
        s.subrange(i, i + enc_policies(ps, t).len() as int) == enc_policies(ps, t),
    ensures
        dec_policies(s, i, ps.len() - t) == Some((ps.subrange(t, ps.len() as int), i
            + enc_policies(ps, t).len())),
    decreases ps.len() - t,
{
    if t == ps.len() {
        assert(ps.subrange(t, ps.len() as int) =~= Seq::<PolicyModel>::empty());
    } else {
        let a = enc_policy(ps[t]);
        let rest = enc_policies(ps, t + 1);
        lemma_split(s, i, a, rest);
        lemma_dec_policy_round(s, i, ps[t]);
        lemma_dec_policies_round(s, i + a.len(), ps, t + 1);
        assert(seq![ps[t]] + ps.subrange(t + 1, ps.len() as int) =~= ps.subrange(
            t,
            ps.len() as int,
        ));
    }
}

proof fn lemma_dec_column_round(s: Seq<u8>, i: int, c: ColumnModel)
    requires
        column_bounds(c),
        0 <= i,
        i + enc_column(c).len() <= s.len(),
        s.subrange(i, i + enc_column(c).len() as int) == enc_column(c),
    ensures
        dec_column(s, i) == Some((c, i + enc_column(c).len())),
{
    let nb = encode_utf8(c.name);
    let nlen = nb.len() as u64;
    let rows = c.policies.len() as u64;
    let eps = enc_policies(c.policies, 0);
    let h1 = u64_le(nlen);
    let h2 = u64_le(rows);
    assert(enc_column(c) =~= h1 + (nb + (h2 + eps)));
    lemma_split(s, i, h1, nb + (h2 + eps));
    lemma_dec_u64_round(s, i, nlen);
    let j = i + 8;
    lemma_split(s, j, nb, h2 + eps);
    encode_utf8_valid_utf8(c.name);
    encode_utf8_decode_utf8(c.name);
    let j2 = j + nb.len();
    lemma_split(s, j2, h2, eps);
    lemma_dec_u64_round(s, j2, rows);
    let j3 = j2 + 8;
    lemma_dec_policies_round(s, j3, c.policies, 0);
    assert(c.policies.subrange(0, c.policies.len() as int) =~= c.policies);
    assert(nlen as int == nb.len());
    assert(rows as int == c.policies.len());
    assert(ColumnModel { name: decode_utf8(nb), policies: c.policies } =~= c);
}

proof fn lemma_dec_columns_round(s: Seq<u8>, i: int, f: Seq<ColumnModel>, t: int)
    requires
        0 <= i,
        0 <= t <= f.len(),
        forall|k: int| 0 <= k < f.len() ==> column_bounds(#[trigger] f[k]),
        i + enc_columns(f, t).len() <= s.len(),
        s.subrange(i, i + enc_columns(f, t).len() as int) == enc_columns(f, t),
    ensures
        dec_columns(s, i, f.len() - t) == Some((f.subrange(t, f.len() as int), i + enc_columns(
            f,
            t,
        ).len())),
    decreases f.len() - t,
{
    if t == f.len() {
        assert(f.subrange(t, f.len() as int) =~= Seq::<ColumnModel>::empty());
    } else {
        let a = enc_column(f[t]);
        let rest = enc_columns(f, t + 1);
        lemma_split(s, i, a, rest);
        lemma_dec_column_round(s, i, f[t]);
        lemma_dec_columns_round(s, i + a.len(), f, t + 1);
        assert(seq![f[t]] + f.subrange(t + 1, f.len() as int) =~= f.subrange(t, f.len() as int));
    }
}

/// The round trip: any guarded frame within the format's count bounds
/// decodes from its own encoding to an identical per-column sequence of
/// policies (and names).  Every frame an executable value views to lies
/// within the bounds.
pub proof fn lemma_codec_round_trip(f: Seq<ColumnModel>)
    requires
        frame_bounds(f),
    ensures
        dec_frame(enc_frame(f)) == Some(f),
{
    let s = enc_frame(f);
    let n = f.len() as u64;
    let ec = enc_columns(f, 0);
    assert(s.subrange(0, s.len() as int) =~= s);
    lemma_split(s, 0, u64_le(n), ec);
    lemma_dec_u64_round(s, 0, n);
    lemma_dec_columns_round(s, 8, f, 0);
    assert(n as int == f.len());
    assert(f.subrange(0, f.len() as int) =~= f);
}

fn push_u64(out: &mut Vec<u8>, n: u64)
    ensures
        final(out)@ == old(out)@ + u64_le(n),
{
    out.push((n & 0xff) as u8);
    out.push(((n >> 8) & 0xff) as u8);
    out.push(((n >> 16) & 0xff) as u8);
    out.push(((n >> 24) & 0xff) as u8);
    out.push(((n >> 32) & 0xff) as u8);
    out.push(((n >> 40) & 0xff) as u8);
    out.push(((n >> 48) & 0xff) as u8);
    out.push(((n >> 56) & 0xff) as u8);
    proof {
        assert(out@ =~= old(out)@ + u64_le(n));
    }
}

fn push_op(out: &mut Vec<u8>, op: &AggOp)
    ensures
        final(out)@ == old(out)@ + enc_op(*op),
{
    match op.how {
        AggMethod::Max => out.push(0u8),
        AggMethod::Min => out.push(1u8),
        AggMethod::Mean => out.push(2u8),
        AggMethod::Sum => out.push(3u8),
        AggMethod::First => out.push(4u8),
        AggMethod::Last => out.push(5u8),
        AggMethod::Count { include_nulls } => {
            out.push(6u8);
            out.push(if include_nulls { 1u8 } else { 0u8 });
        },
    }
    proof {
        assert(out@ =~= old(out)@ + enc_method(op.how));
    }
    push_u64(out, op.group_size);
    proof {
        assert(out@ =~= old(out)@ + enc_op(*op));
    }
}

#[verifier::loop_isolation(false)]
fn push_label(out: &mut Vec<u8>, l: &PolicyLabel)
    ensures
        final(out)@ == old(out)@ + enc_label(l@),
{
    match l {
        PolicyLabel::Top => {
            out.push(0u8);
            proof {
                assert(out@ =~= old(out)@ + enc_label(l@));
            }
        },
        PolicyLabel::Agg { ops } => {
            out.push(1u8);
            push_u64(out, ops.len() as u64);
            let ghost base = out@;
            let mut t: usize = 0;
            while t < ops.len()
                invariant
                    t <= ops@.len(),
                    out@ + enc_ops(ops@, t as int) =~= base + enc_ops(ops@, 0),
                decreases ops@.len() - t,
            {
                let ghost before = out@;
                push_op(out, &ops[t]);
                proof {
                    assert(enc_ops(ops@, t as int) =~= enc_op(ops@[t as int]) + enc_ops(
                        ops@,
                        t as int + 1,
                    ));
                    assert(out@ + enc_ops(ops@, t as int + 1) =~= before + enc_ops(
                        ops@,
                        t as int,
                    ));
                }
                t = t + 1;
            }
            proof {
                assert(enc_ops(ops@, ops@.len() as int) =~= Seq::<u8>::empty());
                assert(out@ + Seq::<u8>::empty() =~= out@);
                assert(out@ =~= base + enc_ops(ops@, 0));
                assert(out@ =~= old(out)@ + enc_label(l@));
            }
        },
    }
}

fn push_policy(out: &mut Vec<u8>, p: &Policy)
    ensures
        final(out)@ == old(out)@ + enc_policy(p@),
    decreases *p,
{
    match p {
        Policy::Clean => {
            out.push(0u8);
            proof {
                assert(out@ =~= old(out)@ + enc_policy(p@));
            }
        },
        Policy::Top => {
            out.push(1u8);
            proof {
                assert(out@ =~= old(out)@ + enc_policy(p@));
            }
        },
        Policy::Declassify { label, next } => {
            out.push(2u8);
            push_label(out, label);
            push_policy(out, next);
            proof {
                assert(out@ =~= old(out)@ + enc_policy(p@));
            }
        },
    }
}

#[verifier::loop_isolation(false)]
fn push_column(out: &mut Vec<u8>, c: &GuardedColumn)
    ensures
        final(out)@ == old(out)@ + enc_column(c@),
{
    let name_bytes = c.name.as_str().as_bytes();
    proof {
        assert(name_bytes@ == encode_utf8(c@.name));
    }
    push_u64(out, name_bytes.len() as u64);
    let ghost base0 = out@;
    let mut t: usize = 0;
    while t < name_bytes.len()
        invariant
            t <= name_bytes@.len(),
            out@ =~= base0 + name_bytes@.subrange(0, t as int),
        decreases name_bytes@.len() - t,
    {
        out.push(name_bytes[t]);
        proof {
            assert(out@ =~= base0 + name_bytes@.subrange(0, t as int + 1));
        }
        t = t + 1;
    }
    proof {
        assert(name_bytes@.subrange(0, name_bytes@.len() as int) =~= name_bytes@);
    }
    push_u64(out, c.policies.len() as u64);
    let ghost base = out@;
    let mut r: usize = 0;
    while r < c.policies.len()
        invariant
            r <= c.policies@.len(),
            out@ + enc_policies(c@.policies, r as int) =~= base + enc_policies(c@.policies, 0),
        decreases c.policies@.len() - r,
    {
        let ghost before = out@;
        push_policy(out, &c.policies[r]);
        proof {
            assert(c@.policies[r as int] == c.policies@[r as int]@);
            assert(enc_policies(c@.policies, r as int) =~= enc_policy(c@.policies[r as int])
                + enc_policies(c@.policies, r as int + 1));
            assert(out@ + enc_policies(c@.policies, r as int + 1) =~= before + enc_policies(
                c@.policies,
                r as int,
            ));
        }
        r = r + 1;
    }
    proof {
        assert(enc_policies(c@.policies, c@.policies.len() as int) =~= Seq::<u8>::empty());
        assert(out@ + Seq::<u8>::empty() =~= out@);
        assert(out@ =~= base + enc_policies(c@.policies, 0));
        assert(out@ =~= old(out)@ + enc_column(c@));
    }
}

/// Serializes a guarded frame to the side-file format.
#[verifier::loop_isolation(false)]
pub fn encode_frame(f: &GuardedFrame) -> (out: Vec<u8>)
    ensures
        out@ == enc_frame(f@),
{
    let mut out: Vec<u8> = Vec::new();
    push_u64(&mut out, f.columns.len() as u64);
    let ghost base = out@;
    let mut t: usize = 0;
    while t < f.columns.len()
        invariant
            t <= f.columns@.len(),
            out@ + enc_columns(f@, t as int) =~= base + enc_columns(f@, 0),
        decreases f.columns@.len() - t,
    {
        let ghost before = out@;
        push_column(&mut out, &f.columns[t]);
        proof {
            assert(f@[t as int] == f.columns@[t as int]@);
            assert(enc_columns(f@, t as int) =~= enc_column(f@[t as int]) + enc_columns(
                f@,
                t as int + 1,
            ));
            assert(out@ + enc_columns(f@, t as int + 1) =~= before + enc_columns(f@, t as int));
        }
        t = t + 1;
    }
    proof {
        assert(enc_columns(f@, f@.len() as int) =~= Seq::<u8>::empty());
        assert(out@ + Seq::<u8>::empty() =~= out@);
        assert(out@ =~= base + enc_columns(f@, 0));
        assert(out@ =~= enc_frame(f@));
    }
    out
}

/// Relies on `String::from_utf8`: it returns `Ok` exactly on valid
/// UTF-8, and the returned string's bytes are the input bytes.
#[verifier::external_body]
fn string_from_utf8(v: Vec<u8>) -> (r: Option<String>)
    ensures
        r matches Some(s) ==> encode_utf8(s@) == v@,
        valid_utf8(v@) ==> r is Some,
{
    String::from_utf8(v).ok()
}

fn read_u64(s: &Vec<u8>, i: usize) -> (r: Option<(u64, usize)>)
    ensures
        r matches Some((n, j)) ==> dec_u64(s@, i as int) == Some((n, j as int)) && i < j
            <= s@.len(),
        r is None ==> dec_u64(s@, i as int) is None,
{
    if s.len() >= 8 && i <= s.len() - 8 {
        let n = (s[i] as u64) | ((s[i + 1] as u64) << 8) | ((s[i + 2] as u64) << 16) | ((s[i
            + 3] as u64) << 24) | ((s[i + 4] as u64) << 32) | ((s[i + 5] as u64) << 40) | ((s[i
            + 6] as u64) << 48) | ((s[i + 7] as u64) << 56);
        Some((n, i + 8))
    } else {
        None
    }
}

fn decode_op(s: &Vec<u8>, i: usize) -> (r: Option<(AggOp, usize)>)
    ensures
        r matches Some((op, j)) ==> dec_op(s@, i as int) == Some((op, j as int)) && i < j
            <= s@.len(),
        r is None ==> dec_op(s@, i as int) is None,
{
    if i >= s.len() {
        return None;
    }
    let tag = s[i];
    if tag == 6u8 {
        if i + 1 < s.len() && (s[i + 1] == 0u8 || s[i + 1] == 1u8) {
            match read_u64(s, i + 2) {
                Some((g, j)) => Some(
                    (
                        AggOp {
                            how: AggMethod::Count { include_nulls: s[i + 1] == 1u8 },
                            group_size: g,
                        },
                        j,
                    ),
                ),
                None => None,
            }
        } else {
            None
        }
    } else if tag <= 5u8 {
        let how = if tag == 0u8 {
            AggMethod::Max
        } else if tag == 1u8 {
            AggMethod::Min
        } else if tag == 2u8 {
            AggMethod::Mean
        } else if tag == 3u8 {
            AggMethod::Sum
        } else if tag == 4u8 {
            AggMethod::First
        } else {
            AggMethod::Last
        };
        match read_u64(s, i + 1) {
            Some((g, j)) => Some((AggOp { how, group_size: g }, j)),
            None => None,
        }
    } else {
        None
    }
}

#[verifier::loop_isolation(false)]
fn decode_ops(s: &Vec<u8>, i: usize, n: u64) -> (r: Option<(Vec<AggOp>, usize)>)
    ensures
        r matches Some((ops, j)) ==> dec_ops(s@, i as int, n as int) == Some((ops@, j as int))
            && i <= j && (n > 0 ==> j <= s@.len()) && (n == 0 ==> j == i),
        r is None ==> dec_ops(s@, i as int, n as int) is None,
{
    let mut acc: Vec<AggOp> = Vec::new();
    let mut cur: usize = i;
    let mut t: u64 = 0;
    while t < n
        invariant
            t <= n,
            i <= cur,
            t > 0 ==> cur <= s@.len(),
            match dec_ops(s@, cur as int, n as int - t as int) {
                Some((rest, k)) => dec_ops(s@, i as int, n as int) == Some((acc@ + rest, k)),
                None => dec_ops(s@, i as int, n as int) is None,
            },
        decreases n - t,
    {
        match decode_op(s, cur) {
            Some((op, j)) => {
                acc.push(op);
                proof {
                    assert(forall|rest: Seq<AggOp>|
                        acc@ + rest =~= acc@.drop_last() + (seq![op] + rest));
                }
                cur = j;
            },
            None => {
                return None;
            },
        }
        t = t + 1;
    }
    proof {
        assert(dec_ops(s@, cur as int, 0) == Some((Seq::<AggOp>::empty(), cur as int)));
        assert(acc@ + Seq::<AggOp>::empty() =~= acc@);
    }
    Some((acc, cur))
}

fn decode_label(s: &Vec<u8>, i: usize) -> (r: Option<(PolicyLabel, usize)>)
    ensures
        r matches Some((l, j)) ==> dec_label(s@, i as int) == Some((l@, j as int)) && i < j
            <= s@.len(),
        r is None ==> dec_label(s@, i as int) is None,
{
    if i >= s.len() {
        return None;
    }
    if s[i] == 0u8 {
        Some((PolicyLabel::Top, i + 1))
    } else if s[i] == 1u8 {
        match read_u64(s, i + 1) {
            Some((n, j)) => match decode_ops(s, j, n) {
                Some((ops, k)) => Some((PolicyLabel::Agg { ops }, k)),
                None => None,
            },
            None => None,
        }
    } else {
        None
    }
}

fn decode_policy(s: &Vec<u8>, i: usize) -> (r: Option<(Policy, usize)>)
    ensures
        r matches Some((p, j)) ==> dec_policy(s@, i as int) == Some((p@, j as int)) && i < j
            <= s@.len(),
        r is None ==> dec_policy(s@, i as int) is None,
    decreases s@.len() - i,
{
    if i >= s.len() {
        return None;
    }
    if s[i] == 0u8 {
        Some((Policy::Clean, i + 1))
    } else if s[i] == 1u8 {
        Some((Policy::Top, i + 1))
    } else if s[i] == 2u8 {
        match decode_label(s, i + 1) {
            Some((label, j)) => match decode_policy(s, j) {
                Some((next, k)) => Some(
                    (Policy::Declassify { label, next: Box::new(next) }, k),
                ),
                None => None,
            },
            None => None,
        }
    } else {
        None
    }
}

#[verifier::loop_isolation(false)]
fn decode_policies(s: &Vec<u8>, i: usize, n: u64) -> (r: Option<(Vec<Policy>, usize)>)
    ensures
        r matches Some((ps, j)) ==> dec_policies(s@, i as int, n as int) == Some(
            (ps@.map_values(|p: Policy| p@), j as int),
        ) && i <= j && (n > 0 ==> j <= s@.len()) && (n == 0 ==> j == i),
        r is None ==> dec_policies(s@, i as int, n as int) is None,
{
    let mut acc: Vec<Policy> = Vec::new();
    let mut cur: usize = i;
    let mut t: u64 = 0;
    while t < n
        invariant
            t <= n,
            i <= cur,
            t > 0 ==> cur <= s@.len(),
            match dec_policies(s@, cur as int, n as int - t as int) {
                Some((rest, k)) => dec_policies(s@, i as int, n as int) == Some(
                    (acc@.map_values(|p: Policy| p@) + rest, k),
                ),
                None => dec_policies(s@, i as int, n as int) is None,
            },
        decreases n - t,
    {
        match decode_policy(s, cur) {
            Some((p, j)) => {
                let ghost pv = p@;
                let ghost prev = acc@.map_values(|q: Policy| q@);
                acc.push(p);
                proof {
                    assert(acc@.map_values(|q: Policy| q@) =~= prev.push(pv));
                    assert(forall|rest: Seq<PolicyModel>|
                        prev.push(pv) + rest =~= prev + (seq![pv] + rest));
                }
                cur = j;
            },
            None => {
                return None;
            },
        }
        t = t + 1;
    }
    proof {
        assert(dec_policies(s@, cur as int, 0) == Some(
            (Seq::<PolicyModel>::empty(), cur as int),
        ));
        assert(acc@.map_values(|q: Policy| q@) + Seq::<PolicyModel>::empty() =~= acc@.map_values(
            |q: Policy| q@,
        ));
    }
    Some((acc, cur))
}

fn decode_column(s: &Vec<u8>, i: usize) -> (r: Option<(GuardedColumn, usize)>)
    ensures
        r matches Some((c, j)) ==> dec_column(s@, i as int) == Some((c@, j as int)) && i <= j
            <= s@.len(),
        r is None ==> dec_column(s@, i as int) is None,
{
    let (name_len, j) = match read_u64(s, i) {
        Some(x) => x,
        None => {
            return None;
        },
    };
    if name_len > (s.len() - j) as u64 {
        return None;
    }
    let name_n = name_len as usize;
    let slen = s.len();
    let mut name_bytes: Vec<u8> = Vec::new();
    let mut t: usize = 0;
    while t < name_n
        invariant
            t <= name_n,
            j + name_n <= slen,
            slen == s@.len(),
            name_bytes@ =~= s@.subrange(j as int, j as int + t as int),
        decreases name_n - t,
    {
        proof {
            assert(j + t < s@.len());
        }
        name_bytes.push(s[j + t]);
        proof {
            assert(name_bytes@ =~= s@.subrange(j as int, j as int + t as int + 1));
        }
        t = t + 1;
    }
    let ghost nb = name_bytes@;
    let name = match string_from_utf8(name_bytes) {
        Some(nm) => {
            proof {
                encode_utf8_decode_utf8(nm@);
                encode_utf8_valid_utf8(nm@);
            }
            nm
        },
        None => {
            proof {
                assert(!valid_utf8(nb));
            }
            return None;
        },
    };
    let (rows, k) = match read_u64(s, j + name_n) {
        Some(x) => x,
        None => {
            return None;
        },
    };
    match decode_policies(s, k, rows) {
        Some((ps, e)) => {
            let col = GuardedColumn { name, policies: ps };
            proof {
                assert(col@ =~= dec_column(s@, i as int).unwrap().0);
            }
            Some((col, e))
        },
        None => None,
    }
}

/// Reads a guarded frame back from the side-file format; a malformed
/// stream yields `InvalidPolicyLabel`.
#[verifier::loop_isolation(false)]
pub fn decode_frame(s: &Vec<u8>) -> (result: Result<GuardedFrame, EngineError>)
    ensures
        result is Ok <==> dec_frame(s@) is Some,
        result matches Ok(f) ==> dec_frame(s@) == Some(f@),
        result matches Err(e) ==> e == EngineError::InvalidPolicyLabel,
{
    let (n, j) = match read_u64(s, 0) {
        Some(x) => x,
        None => {
            return Err(EngineError::InvalidPolicyLabel);
        },
    };
    let mut acc: Vec<GuardedColumn> = Vec::new();
    let mut cur: usize = j;
    let mut t: u64 = 0;
    while t < n
        invariant
            t <= n,
            j <= cur <= s@.len(),
            match dec_columns(s@, cur as int, n as int - t as int) {
                Some((rest, k)) => dec_columns(s@, j as int, n as int) == Some(
                    (acc@.map_values(|c: GuardedColumn| c@) + rest, k),
                ),
                None => dec_columns(s@, j as int, n as int) is None,
            },
        decreases n - t,
    {
        match decode_column(s, cur) {
            Some((c, nx)) => {
                let ghost cv = c@;
                let ghost prev = acc@.map_values(|q: GuardedColumn| q@);
                acc.push(c);
                proof {
                    assert(acc@.map_values(|q: GuardedColumn| q@) =~= prev.push(cv));
                    assert(forall|rest: Seq<ColumnModel>|
                        prev.push(cv) + rest =~= prev + (seq![cv] + rest));
                }
                cur = nx;
            },
            None => {
                return Err(EngineError::InvalidPolicyLabel);
            },
        }
        t = t + 1;
    }
    proof {
        assert(dec_columns(s@, cur as int, 0) == Some((Seq::<ColumnModel>::empty(), cur as int)));
        assert(acc@.map_values(|q: GuardedColumn| q@) + Seq::<ColumnModel>::empty()
            =~= acc@.map_values(|q: GuardedColumn| q@));
    }
    if cur != s.len() {
        return Err(EngineError::InvalidPolicyLabel);
    }
    let f = GuardedFrame { columns: acc };
    proof {
        assert(f@ =~= dec_frame(s@).unwrap());
    }
    Ok(f)
}

} // verus!
