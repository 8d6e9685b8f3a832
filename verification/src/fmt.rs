//! Human-readable display of interpreter results. The interpreter itself
//! is an outside collaborator; what it returns is described here as a
//! closed set of result kinds carrying plain shape data. The formatter is
//! total over that set: a kind with no dedicated rendering yields a
//! diagnostic line rather than ending the session. Numeric element dumps
//! are appended by the caller, which owns the element data.

use crate::shape::join_dims;
use crate::shape::render_joined;
use vstd::prelude::*;

verus! {

/// The closed set of semantic result kinds an interpreter run can yield,
/// reduced to the plain data their display needs: a tensor's shape, an
/// access pattern's shape split at its access axis, or a kind that is
/// only named.
pub enum RunResult {
    Tensor { dims: Vec<usize> },
    Access { dims: Vec<usize>, axis: usize },
    AccessShape { dims: Vec<usize>, axis: usize },
    Num { value: usize },
    Shape { dims: Vec<usize> },
    ComputeType,
    PadType,
    List,
}

/// The text describing an access pattern's shape: the dimensions before
/// the access axis and those from it on, each parenthesised.
pub open spec fn access_shape_text(dims: Seq<usize>, axis: int) -> Seq<char> {
    "(("@ + join_dims(dims.take(axis), ", "@) + "), ("@ + join_dims(dims.skip(axis), ", "@)
        + "))"@
}

/// The display text of each result kind.
pub open spec fn format_result_spec(r: RunResult) -> Seq<char> {
    match r {
        RunResult::Tensor { dims } => "tensor with shape:\n("@ + join_dims(dims@, ", "@)
            + ")\nand value:\n"@,
        RunResult::Access { dims, axis } => "access pattern with shape:\n"@ + access_shape_text(
            dims@,
            axis as int,
        ) + "\nand value:\n"@,
        RunResult::AccessShape { dims, axis } => "access pattern shape literal with value:\n"@
            + access_shape_text(dims@, axis as int),
        RunResult::Num { .. } => "unsupported result kind: number"@,
        RunResult::Shape { .. } => "unsupported result kind: shape"@,
        RunResult::ComputeType => "unsupported result kind: compute type"@,
        RunResult::PadType => "unsupported result kind: pad type"@,
        RunResult::List => "unsupported result kind: list"@,
    }
}

/// The dimensions before index `k`.
fn vec_take(v: &Vec<usize>, k: usize) -> (r: Vec<usize>)
    requires
        k <= v@.len(),
    ensures
        r@ == v@.take(k as int),
{
    let mut r: Vec<usize> = Vec::new();
    let mut i: usize = 0;
    while i < k
        invariant
            i <= k <= v@.len(),
            r@ == v@.take(i as int),
        decreases k - i,
    {
        r.push(v[i]);
        i = i + 1;
        proof {
            assert(v@.take(i as int) =~= v@.take(i - 1).push(v@[i - 1]));
        }
    }
    r
}

/// The dimensions from index `k` on.
fn vec_skip(v: &Vec<usize>, k: usize) -> (r: Vec<usize>)
    requires
        k <= v@.len(),
    ensures
        r@ == v@.skip(k as int),
{
    let mut r: Vec<usize> = Vec::new();
    let mut i: usize = k;
    while i < v.len()
        invariant
            k <= i <= v@.len(),
            r@ == v@.subrange(k as int, i as int),
        decreases v@.len() - i,
    {
        r.push(v[i]);
        i = i + 1;
        proof {
            assert(v@.subrange(k as int, i as int) =~= v@.subrange(k as int, i - 1).push(
                v@[i - 1],
            ));
        }
    }
    proof {
        assert(v@.subrange(k as int, v@.len() as int) =~= v@.skip(k as int));
    }
    r
}

/// Write an access pattern's shape, split at the access axis.
fn render_access_shape(dims: &Vec<usize>, axis: usize) -> (out: String)
    requires
        axis <= dims@.len(),
    ensures
        out@ == access_shape_text(dims@, axis as int),
{
    let before = vec_take(dims, axis);
    let after = vec_skip(dims, axis);
    let mut s = String::from_str("((");
    let a = render_joined(&before, ", ");
    s.append(a.as_str());
    s.append("), (");
    let b = render_joined(&after, ", ");
    s.append(b.as_str());
    s.append("))");
    proof {
        assert(s@ =~= access_shape_text(dims@, axis as int));
    }
    s
}

/// Describe one interpreter result for display. Total over the result
/// kinds: an unsupported kind is named, never fatal. For a tensor or an
/// access pattern the text ends ready for the caller's element dump.
pub fn format_result(r: &RunResult) -> (out: String)
    requires
        r matches RunResult::Access { dims, axis } ==> axis <= dims@.len(),
        r matches RunResult::AccessShape { dims, axis } ==> axis <= dims@.len(),
    ensures
        out@ == format_result_spec(*r),
{
    match r {
        RunResult::Tensor { dims } => {
            let mut s = String::from_str("tensor with shape:\n(");
            let j = render_joined(dims, ", ");
            s.append(j.as_str());
            s.append(")\nand value:\n");
            proof {
                assert(s@ =~= format_result_spec(*r));
            }
            s
        },
        RunResult::Access { dims, axis } => {
            let mut s = String::from_str("access pattern with shape:\n");
            let a = render_access_shape(dims, *axis);
            s.append(a.as_str());
            s.append("\nand value:\n");
            proof {
                assert(s@ =~= format_result_spec(*r));
            }
            s
        },
        RunResult::AccessShape { dims, axis } => {
            let mut s = String::from_str("access pattern shape literal with value:\n");
            let a = render_access_shape(dims, *axis);
            s.append(a.as_str());
            proof {
                assert(s@ =~= format_result_spec(*r));
            }
            s
        },
        RunResult::Num { .. } => String::from_str("unsupported result kind: number"),
        RunResult::Shape { .. } => String::from_str("unsupported result kind: shape"),
        RunResult::ComputeType => String::from_str("unsupported result kind: compute type"),
        RunResult::PadType => String::from_str("unsupported result kind: pad type"),
        RunResult::List => String::from_str("unsupported result kind: list"),
    }
}

} // verus!
