//! Dense arrays generated from a shape and a fill strategy.
//!
//! Elements are stored in signed fixed point at scale `FIXED_ONE`: zero is
//! `0`, one is `FIXED_ONE`, and a random fill draws every element
//! independently and uniformly from two whole units below zero (inclusive)
//! to two whole units above (exclusive). Consumers that want a conventional
//! fractional reading divide by `FIXED_ONE` at the boundary.

use vstd::arithmetic::div_mod::lemma_fundamental_div_mod;
use vstd::arithmetic::mul::lemma_mul_inequality;
use vstd::arithmetic::mul::lemma_mul_is_commutative;
use vstd::arithmetic::mul::lemma_mul_is_distributive_add;
use vstd::prelude::*;

verus! {

/// How a generated array's elements are filled.
#[derive(Clone, Copy, PartialEq, Eq, Structural, Debug)]
pub enum FillStrategy {
    Zeros,
    Ones,
    Random,
}

/// One whole unit in the fixed-point element encoding.
pub const FIXED_ONE: i64 = 0x4_0000_0000_0000;

/// Two whole units; a random element lies in `[-FIXED_TWO, FIXED_TWO)`.
pub const FIXED_TWO: i64 = 0x8_0000_0000_0000;

/// An element drawn by the random fill lies in the two-unit band.
pub open spec fn in_random_range(e: i64) -> bool {
    -FIXED_TWO <= e < FIXED_TWO
}

/// Number of elements of an array of the given shape: the product of the
/// dimensions, `1` for the empty (scalar) shape.
pub open spec fn element_count(dims: Seq<usize>) -> nat
    decreases dims.len(),
{
    if dims.len() == 0 {
        1
    } else {
        (dims[0] as nat) * element_count(dims.drop_first())
    }
}

/// The element count over a concatenation multiplies.
proof fn lemma_element_count_concat(a: Seq<usize>, b: Seq<usize>)
    ensures
        element_count(a + b) == element_count(a) * element_count(b),
    decreases a.len(),
{
    if a.len() == 0 {
        assert(a + b =~= b);
        assert(element_count(a) == 1);
        assert(element_count(a + b) == element_count(b));
        assert(1 * element_count(b) == element_count(b));
    } else {
        assert((a + b).drop_first() =~= a.drop_first() + b);
        lemma_element_count_concat(a.drop_first(), b);
        assert((a + b)[0] == a[0]);
        assert(element_count(a) == (a[0] as nat) * element_count(a.drop_first()));
        assert(element_count(a + b) == (a[0] as nat) * (element_count(a.drop_first())
            * element_count(b)));
        assert((a[0] as nat) * (element_count(a.drop_first()) * element_count(b)) == ((
        a[0] as nat) * element_count(a.drop_first())) * element_count(b)) by (nonlinear_arith);
    }
}

/// A shape with a zero dimension has no elements.
proof fn lemma_element_count_zero(s: Seq<usize>, i: int)
    requires
        0 <= i < s.len(),
        s[i] == 0,
    ensures
        element_count(s) == 0,
    decreases s.len(),
{
    if i == 0 {
    } else {
        lemma_element_count_zero(s.drop_first(), i - 1);
    }
}

/// With no zero dimension, the element count is positive.
proof fn lemma_element_count_pos(s: Seq<usize>)
    requires
        forall|k: int| 0 <= k < s.len() ==> #[trigger] s[k] >= 1,
    ensures
        element_count(s) >= 1,
    decreases s.len(),
{
    if s.len() > 0 {
        lemma_element_count_pos(s.drop_first());
        assert((s[0] as nat) * element_count(s.drop_first()) >= 1) by (nonlinear_arith)
            requires
                s[0] >= 1,
                element_count(s.drop_first()) >= 1;
    }
}

/// With no zero dimension, a prefix never counts more elements than the
/// whole shape.
proof fn lemma_element_count_prefix_le(s: Seq<usize>, k: int)
    requires
        0 <= k <= s.len(),
        forall|j: int| 0 <= j < s.len() ==> #[trigger] s[j] >= 1,
    ensures
        element_count(s.take(k)) <= element_count(s),
{
    assert(s =~= s.take(k) + s.skip(k));
    lemma_element_count_concat(s.take(k), s.skip(k));
    assert(forall|j: int| 0 <= j < s.skip(k).len() ==> #[trigger] s.skip(k)[j] >= 1);
    lemma_element_count_pos(s.skip(k));
    assert(element_count(s.take(k)) <= element_count(s.take(k)) * element_count(s.skip(k)))
        by (nonlinear_arith)
        requires
            element_count(s.skip(k)) >= 1,
    ;
}

/// Appending a dimension multiplies the element count by it.
proof fn lemma_element_count_push(s: Seq<usize>, x: usize)
    ensures
        element_count(s.push(x)) == element_count(s) * (x as nat),
    decreases s.len(),
{
    if s.len() == 0 {
        assert(s.push(x).drop_first() =~= s);
        assert(s.push(x)[0] == x);
        assert(element_count(s) == 1);
        assert(element_count(s.push(x)) == (x as nat) * element_count(s));
        lemma_mul_is_commutative(x as int, element_count(s) as int);
    } else {
        assert(s.push(x).drop_first() =~= s.drop_first().push(x));
        assert(s.push(x)[0] == s[0]);
        lemma_element_count_push(s.drop_first(), x);
        assert(element_count(s) == (s[0] as nat) * element_count(s.drop_first()));
        assert(element_count(s.push(x)) == (s[0] as nat) * (element_count(s.drop_first()) * (
        x as nat)));
        assert((s[0] as nat) * (element_count(s.drop_first()) * (x as nat)) == ((s[0] as nat)
            * element_count(s.drop_first())) * (x as nat)) by (nonlinear_arith);
    }
}

/// Compute the element count of a shape, or report that it exceeds the
/// platform's size limit.
pub fn shape_element_count(dims: &Vec<usize>) -> (r: Option<usize>)
    ensures
        r matches Some(c) ==> c == element_count(dims@),
        r is None ==> element_count(dims@) > usize::MAX,
{
    let n = dims.len();
    let mut i: usize = 0;
    while i < n
        invariant
            i <= n,
            n == dims@.len(),
            forall|k: int| 0 <= k < i ==> #[trigger] dims@[k] >= 1,
        decreases n - i,
    {
        if dims[i] == 0 {
            proof {
                lemma_element_count_zero(dims@, i as int);
            }
            return Some(0);
        }
        i = i + 1;
    }
    let mut acc: usize = 1;
    let mut j: usize = 0;
    while j < n
        invariant
            j <= n,
            n == dims@.len(),
            forall|k: int| 0 <= k < n ==> #[trigger] dims@[k] >= 1,
            acc == element_count(dims@.take(j as int)),
        decreases n - j,
    {
        let d = dims[j];
        proof {
            assert(dims@.take(j + 1) =~= dims@.take(j as int).push(dims@[j as int]));
            lemma_element_count_push(dims@.take(j as int), dims@[j as int]);
            lemma_fundamental_div_mod(usize::MAX as int, d as int);
        }
        let ghost q = usize::MAX as int / d as int;
        let ghost m = usize::MAX as int % d as int;
        if acc > usize::MAX / d {
            proof {
                lemma_mul_inequality(q + 1, acc as int, d as int);
                lemma_mul_is_commutative(q + 1, d as int);
                lemma_mul_is_distributive_add(d as int, q, 1);
                assert((q + 1) * (d as int) == d as int * q + d as int);
                assert(acc * d > usize::MAX);
                lemma_element_count_prefix_le(dims@, j + 1);
            }
            return None;
        }
        proof {
            lemma_mul_inequality(acc as int, q, d as int);
            lemma_mul_is_commutative(q, d as int);
            assert(acc * d <= usize::MAX);
        }
        acc = acc * d;
        j = j + 1;
    }
    proof {
        assert(dims@.take(n as int) =~= dims@);
    }
    Some(acc)
}

/// The mathematical value of a dense array: its shape and its elements in
/// fixed-point units.
pub struct TensorModel {
    pub dims: Seq<usize>,
    pub elems: Seq<i64>,
}

/// A dense array of fixed-point elements in row-major order.
pub struct DenseArray {
    pub dims: Vec<usize>,
    pub elems: Vec<i64>,
}

impl View for DenseArray {
    type V = TensorModel;

    open spec fn view(&self) -> TensorModel {
        TensorModel { dims: self.dims@, elems: self.elems@ }
    }
}

impl DenseArray {
    /// The element list matches the shape.
    pub open spec fn wf(&self) -> bool {
        self@.elems.len() == element_count(self@.dims)
    }

    /// A deep copy with the same shape and elements.
    pub fn duplicate(&self) -> (r: DenseArray)
        ensures
            r@ == self@,
    {
        let dims = copy_usizes(&self.dims);
        let elems = copy_i64s(&self.elems);
        let r = DenseArray { dims, elems };
        proof {
            assert(r@.dims == self@.dims);
            assert(r@.elems == self@.elems);
        }
        r
    }
}

/// Copy a vector of dimensions.
fn copy_usizes(v: &Vec<usize>) -> (r: Vec<usize>)
    ensures
        r@ == v@,
{
    let mut r: Vec<usize> = Vec::new();
    let mut i: usize = 0;
    while i < v.len()
        invariant
            i <= v@.len(),
            r@ == v@.take(i as int),
        decreases v@.len() - i,
    {
        r.push(v[i]);
        i = i + 1;
        proof {
            assert(v@.take(i as int) =~= v@.take(i - 1).push(v@[i - 1]));
        }
    }
    proof {
        assert(v@.take(v@.len() as int) =~= v@);
    }
    r
}

/// Copy a vector of elements.
fn copy_i64s(v: &Vec<i64>) -> (r: Vec<i64>)
    ensures
        r@ == v@,
{
    let mut r: Vec<i64> = Vec::new();
    let mut i: usize = 0;
    while i < v.len()
        invariant
            i <= v@.len(),
            r@ == v@.take(i as int),
        decreases v@.len() - i,
    {
        r.push(v[i]);
        i = i + 1;
        proof {
            assert(v@.take(i as int) =~= v@.take(i - 1).push(v@[i - 1]));
        }
    }
    proof {
        assert(v@.take(v@.len() as int) =~= v@);
    }
    r
}

/// Relies on rand's `Rng::gen_range` over `OsRng`, the operating system's
/// randomness source: the sampled value lies in the half-open range
/// `lo..hi`, and the call returns normally whenever that range is
/// non-empty. Nothing more is assumed: two calls may differ.
#[verifier::external_body]
fn sample_uniform(lo: i64, hi: i64) -> (r: i64)
    requires
        lo < hi,
    ensures
        lo <= r < hi,
{
    rand::Rng::gen_range(&mut rand::rngs::OsRng, lo..hi)
}

/// Generate the dense array of the given shape for a fill strategy: all
/// zeros, all ones, or every element drawn independently and uniformly
/// from the two-unit band `[-FIXED_TWO, FIXED_TWO)`. The element count is
/// exactly the product of the dimensions.
pub fn generate(dims: &Vec<usize>, strategy: FillStrategy) -> (r: DenseArray)
    requires
        element_count(dims@) <= usize::MAX,
    ensures
        r@.dims == dims@,
        r@.elems.len() == element_count(dims@),
        r.wf(),
        strategy is Zeros ==> forall|k: int| 0 <= k < r@.elems.len() ==> r@.elems[k] == 0,
        strategy is Ones ==> forall|k: int| 0 <= k < r@.elems.len() ==> r@.elems[k] == FIXED_ONE,
        strategy is Random ==> forall|k: int|
            0 <= k < r@.elems.len() ==> in_random_range(#[trigger] r@.elems[k]),
{
    let count = shape_element_count(dims).unwrap();
    let mut elems: Vec<i64> = Vec::new();
    let mut i: usize = 0;
    while i < count
        invariant
            i <= count,
            elems@.len() == i,
            strategy is Zeros ==> forall|k: int| 0 <= k < i ==> elems@[k] == 0,
            strategy is Ones ==> forall|k: int| 0 <= k < i ==> elems@[k] == FIXED_ONE,
            strategy is Random ==> forall|k: int|
                0 <= k < i ==> in_random_range(#[trigger] elems@[k]),
        decreases count - i,
    {
        match strategy {
            FillStrategy::Zeros => elems.push(0),
            FillStrategy::Ones => elems.push(FIXED_ONE),
            FillStrategy::Random => {
                let e = sample_uniform(-FIXED_TWO, FIXED_TWO);
                elems.push(e);
            },
        }
        i = i + 1;
    }
    let d = copy_usizes(dims);
    DenseArray { dims: d, elems }
}

} // verus!
