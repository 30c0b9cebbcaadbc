use vstd::arithmetic::div_mod::lemma_fundamental_div_mod;
use vstd::prelude::*;

verus! {

/// Product of the first `n` dimension sizes of `s`: the number of elements
/// of the sub-tensor spanned by those axes.
pub open spec fn shape_prod_prefix(s: Seq<usize>, n: int) -> int
    decreases n,
{
    if n <= 0 {
        1
    } else {
        shape_prod_prefix(s, n - 1) * s[n - 1]
    }
}

/// Number of elements of a tensor of shape `s` in row-major layout.
pub open spec fn shape_prod(s: Seq<usize>) -> int {
    shape_prod_prefix(s, s.len() as int)
}

/// Product of the dimension sizes of `s` from axis `k` to the last axis.
pub open spec fn shape_prod_suffix(s: Seq<usize>, k: int) -> int
    decreases s.len() - k,
{
    if k < 0 || k >= s.len() {
        1
    } else {
        s[k] * shape_prod_suffix(s, k + 1)
    }
}

/// Dimension `j` of shape `s` once left-padded with ones to length `l`.
pub open spec fn padded_dim(s: Seq<usize>, l: int, j: int) -> int {
    if j < l - s.len() {
        1
    } else {
        s[j - (l - s.len())] as int
    }
}

/// Length of the broadcast of two shapes: the longer of the two.
pub open spec fn bc_len(a: Seq<usize>, b: Seq<usize>) -> int {
    if a.len() >= b.len() {
        a.len() as int
    } else {
        b.len() as int
    }
}

/// Two shapes are broadcast-compatible when, aligned from the trailing
/// axis, every pair of dimensions is equal or at least one of them is 1.
pub open spec fn bc_compat(a: Seq<usize>, b: Seq<usize>) -> bool {
    forall|j: int|
        0 <= j < bc_len(a, b) ==> #[trigger] padded_dim(a, bc_len(a, b), j) == padded_dim(
            b,
            bc_len(a, b),
            j,
        ) || padded_dim(a, bc_len(a, b), j) == 1 || padded_dim(b, bc_len(a, b), j) == 1
}

/// Dimension `j` of the broadcast of two shapes, after left-padding the
/// shorter shape with ones: an axis of size 1 repeats against the other
/// operand's axis, which otherwise prevails.
pub open spec fn bc_dim(a: Seq<usize>, b: Seq<usize>, j: int) -> int {
    if padded_dim(a, bc_len(a, b), j) == 1 {
        padded_dim(b, bc_len(a, b), j)
    } else {
        padded_dim(a, bc_len(a, b), j)
    }
}

/// The broadcast of two compatible shapes.
pub open spec fn bc_shape(a: Seq<usize>, b: Seq<usize>) -> Seq<usize> {
    Seq::new(bc_len(a, b) as nat, |j: int| bc_dim(a, b, j) as usize)
}

/// Row-major flat index into an operand of padded shape `r` of the element
/// read for position `f` of the broadcast shape `t`, over the first `n`
/// axes. An axis of size 1 in `r` repeats its single entry against any
/// size of the corresponding axis of `t`.
pub open spec fn src_flat(t: Seq<usize>, r: Seq<usize>, n: int, f: int) -> int
    decreases n,
{
    if n <= 0 {
        0
    } else {
        let d = t[n - 1] as int;
        let rd = r[n - 1] as int;
        src_flat(t, r, n - 1, f / d) * rd + (if rd == 1 {
            0
        } else {
            f % d
        })
    }
}

/// Shape `s` left-padded with ones to length `l`, as a sequence.
pub open spec fn padded(s: Seq<usize>, l: int) -> Seq<usize> {
    Seq::new(l as nat, |j: int| padded_dim(s, l, j) as usize)
}

/// Flat index into the operand of shape `s` read for position `f` of the
/// broadcast shape `t`, in row-major order.
pub open spec fn bc_src(t: Seq<usize>, s: Seq<usize>, f: int) -> int {
    src_flat(t, padded(s, t.len() as int), t.len() as int, f)
}

/// A shape with a zero axis spans no elements.
pub proof fn lemma_shape_prod_zero(s: Seq<usize>, n: int, j: int)
    requires
        0 <= j < n <= s.len(),
        s[j] == 0,
    ensures
        shape_prod_prefix(s, n) == 0,
    decreases n,
{
    if j == n - 1 {
        assert(shape_prod_prefix(s, n) == shape_prod_prefix(s, n - 1) * 0);
    } else {
        lemma_shape_prod_zero(s, n - 1, j);
        assert(shape_prod_prefix(s, n) == 0 * s[n - 1]);
    }
}

/// A shape all of whose first `n` axes are positive spans at least one
/// element over those axes.
pub proof fn lemma_shape_prod_pos(s: Seq<usize>, n: int)
    requires
        n <= s.len(),
        forall|j: int| 0 <= j < n ==> s[j] >= 1,
    ensures
        shape_prod_prefix(s, n) >= 1,
    decreases n,
{
    if n > 0 {
        lemma_shape_prod_pos(s, n - 1);
        let p = shape_prod_prefix(s, n - 1);
        let d = s[n - 1] as int;
        assert(p * d >= 1) by (nonlinear_arith)
            requires
                p >= 1,
                d >= 1,
        ;
    }
}

/// The element count of a shape splits at any axis into the product of
/// the leading and trailing axis products.
pub proof fn lemma_shape_prod_split(s: Seq<usize>, k: int)
    requires
        0 <= k <= s.len(),
    ensures
        shape_prod(s) == shape_prod_prefix(s, k) * shape_prod_suffix(s, k),
    decreases s.len() - k,
{
    if k == s.len() {
        assert(shape_prod_suffix(s, k) == 1);
    } else {
        lemma_shape_prod_split(s, k + 1);
        let p = shape_prod_prefix(s, k);
        let d = s[k] as int;
        let q = shape_prod_suffix(s, k + 1);
        assert(shape_prod_prefix(s, k + 1) == p * d);
        assert(shape_prod_suffix(s, k) == d * q);
        assert((p * d) * q == p * (d * q)) by (nonlinear_arith);
    }
}

/// With all axes positive, the trailing axis product never exceeds the
/// whole element count.
pub proof fn lemma_suffix_le_total(s: Seq<usize>, k: int)
    requires
        0 <= k <= s.len(),
        forall|j: int| 0 <= j < s.len() ==> s[j] >= 1,
    ensures
        1 <= shape_prod_suffix(s, k) <= shape_prod(s),
    decreases s.len() - k,
{
    if k == s.len() {
        lemma_shape_prod_pos(s, s.len() as int);
    } else {
        lemma_suffix_le_total(s, k + 1);
        assert(shape_prod_suffix(s, k) >= 1) by (nonlinear_arith)
            requires
                s[k] >= 1,
                shape_prod_suffix(s, k + 1) >= 1,
                shape_prod_suffix(s, k) == s[k] * shape_prod_suffix(s, k + 1),
        ;
        lemma_shape_prod_split(s, k);
        lemma_shape_prod_pos(s, k);
        let p = shape_prod_prefix(s, k);
        let q = shape_prod_suffix(s, k);
        assert(q <= p * q) by (nonlinear_arith)
            requires
                p >= 1,
                q >= 1,
        ;
    }
}

/// With all axes positive, the leading axis product never exceeds the
/// whole element count.
pub proof fn lemma_prefix_le_total(s: Seq<usize>, k: int)
    requires
        0 <= k <= s.len(),
        forall|j: int| 0 <= j < s.len() ==> s[j] >= 1,
    ensures
        1 <= shape_prod_prefix(s, k) <= shape_prod(s),
{
    lemma_shape_prod_split(s, k);
    lemma_shape_prod_pos(s, k);
    lemma_suffix_le_total(s, k);
    let p = shape_prod_prefix(s, k);
    let q = shape_prod_suffix(s, k);
    assert(p <= p * q) by (nonlinear_arith)
        requires
            p >= 1,
            q >= 1,
    ;
}

/// Left-padding a shape with ones leaves its element count unchanged.
pub proof fn lemma_padded_prod(p: Seq<usize>, s: Seq<usize>, n: int)
    requires
        p.len() >= s.len(),
        forall|j: int| 0 <= j < p.len() ==> p[j] as int == padded_dim(s, p.len() as int, j),
        0 <= n <= p.len(),
    ensures
        shape_prod_prefix(p, n) == if n <= p.len() - s.len() {
            1int
        } else {
            shape_prod_prefix(s, n - (p.len() - s.len()))
        },
    decreases n,
{
    if n > 0 {
        lemma_padded_prod(p, s, n - 1);
        let lead = p.len() - s.len();
        assert(p[n - 1] as int == padded_dim(s, p.len() as int, n - 1));
        if n <= lead {
            assert(padded_dim(s, p.len() as int, n - 1) == 1);
            assert(shape_prod_prefix(p, n) == shape_prod_prefix(p, n - 1) * 1);
        } else {
            let m = n - lead;
            assert(p[n - 1] as int == s[m - 1] as int);
            assert(shape_prod_prefix(s, m) == shape_prod_prefix(s, m - 1) * s[m - 1]);
            if n - 1 <= lead {
                assert(shape_prod_prefix(p, n - 1) == 1);
                assert(shape_prod_prefix(s, m - 1) == 1);
            }
            assert(shape_prod_prefix(p, n) == shape_prod_prefix(p, n - 1) * p[n - 1]);
        }
    }
}

/// Left-padding a shape to any length keeps its element count.
pub proof fn lemma_padded_shape_prod(s: Seq<usize>, l: int)
    requires
        s.len() <= l,
    ensures
        shape_prod(padded(s, l)) == shape_prod(s),
{
    let p = padded(s, l);
    assert forall|j: int| 0 <= j < p.len() implies p[j] as int == padded_dim(
        s,
        p.len() as int,
        j,
    ) by {
        assert(padded_dim(s, l, j) == 1 || padded_dim(s, l, j) == s[j - (l - s.len())] as int);
    }
    lemma_padded_prod(p, s, l);
}

/// Under broadcast compatibility, every padded operand axis equals the
/// broadcast axis or is 1.
pub proof fn lemma_bc_operand_dims(a: Seq<usize>, b: Seq<usize>)
    requires
        bc_compat(a, b),
    ensures
        forall|j: int|
            0 <= j < bc_len(a, b) ==> #[trigger] padded_dim(a, bc_len(a, b), j) == bc_dim(a, b, j)
                || padded_dim(a, bc_len(a, b), j) == 1,
        forall|j: int|
            0 <= j < bc_len(a, b) ==> #[trigger] padded_dim(b, bc_len(a, b), j) == bc_dim(a, b, j)
                || padded_dim(b, bc_len(a, b), j) == 1,
{
    assert forall|j: int| 0 <= j < bc_len(a, b) implies (#[trigger] padded_dim(a, bc_len(a, b), j)
        == bc_dim(a, b, j) || padded_dim(a, bc_len(a, b), j) == 1) && (padded_dim(
        b,
        bc_len(a, b),
        j,
    ) == bc_dim(a, b, j) || padded_dim(b, bc_len(a, b), j) == 1) by {
        let da = padded_dim(a, bc_len(a, b), j);
        let db = padded_dim(b, bc_len(a, b), j);
        assert(da == db || da == 1 || db == 1);
    }
}

/// Reading an operand through its own shape is the identity: position
/// `f` of the output reads element `f` of an operand of equal shape.
pub proof fn lemma_src_flat_identity(t: Seq<usize>, n: int, f: int)
    requires
        0 <= n <= t.len(),
        0 <= f < shape_prod_prefix(t, n),
    ensures
        src_flat(t, t, n, f) == f,
    decreases n,
{
    if n > 0 {
        let d = t[n - 1] as int;
        assert(shape_prod_prefix(t, n) == shape_prod_prefix(t, n - 1) * d);
        if d == 0 {
            assert(shape_prod_prefix(t, n - 1) * 0 == 0) by (nonlinear_arith);
            assert(false);
        }
        lemma_fundamental_div_mod(f, d);
        assert(0 <= f / d && f / d < shape_prod_prefix(t, n - 1)) by (nonlinear_arith)
            requires
                f < shape_prod_prefix(t, n - 1) * d,
                d >= 1,
                f >= 0,
                f == d * (f / d) + f % d,
                0 <= f % d < d,
        ;
        lemma_src_flat_identity(t, n - 1, f / d);
        if d == 1 {
            assert(f % d == 0 && f / d == f) by (nonlinear_arith)
                requires
                    d == 1,
                    f >= 0,
                    f == d * (f / d) + f % d,
                    0 <= f % d < d,
            ;
        } else {
            assert(src_flat(t, t, n, f) == (f / d) * d + f % d);
            assert((f / d) * d == d * (f / d)) by (nonlinear_arith);
        }
    }
}

/// An operand all of whose axes are 1 always reads its single element.
pub proof fn lemma_src_flat_ones(t: Seq<usize>, r: Seq<usize>, n: int, f: int)
    requires
        forall|j: int| 0 <= j < n ==> r[j] == 1,
    ensures
        src_flat(t, r, n, f) == 0,
    decreases n,
{
    if n > 0 {
        lemma_src_flat_ones(t, r, n - 1, f / (t[n - 1] as int));
    }
}

/// A positive element count forces every axis to be positive.
pub proof fn lemma_pos_prod_pos_dims(s: Seq<usize>)
    requires
        shape_prod(s) >= 1,
    ensures
        forall|j: int| 0 <= j < s.len() ==> s[j] >= 1,
{
    assert forall|j: int| 0 <= j < s.len() implies s[j] >= 1 by {
        if s[j] == 0 {
            lemma_shape_prod_zero(s, s.len() as int, j);
        }
    }
}

/// Computes the element count of a shape, reporting `None` when it does
/// not fit a `usize`.
pub fn checked_shape_prod(s: &Vec<usize>) -> (r: Option<usize>)
    ensures
        match r {
            Some(n) => n as int == shape_prod(s@),
            None => shape_prod(s@) > usize::MAX,
        },
{
    let mut i: usize = 0;
    while i < s.len()
        invariant
            0 <= i <= s@.len(),
            forall|j: int| 0 <= j < i ==> s@[j] >= 1,
        decreases s@.len() - i,
    {
        if s[i] == 0 {
            proof {
                lemma_shape_prod_zero(s@, s@.len() as int, i as int);
            }
            return Some(0);
        }
        i += 1;
    }
    let mut acc: usize = 1;
    let mut k: usize = 0;
    while k < s.len()
        invariant
            0 <= k <= s@.len(),
            forall|j: int| 0 <= j < s@.len() ==> s@[j] >= 1,
            acc as int == shape_prod_prefix(s@, k as int),
            acc >= 1,
        decreases s@.len() - k,
    {
        let d = s[k];
        let cap = usize::MAX / d;
        if acc > cap {
            proof {
                lemma_fundamental_div_mod(usize::MAX as int, d as int);
                assert(acc as int * d as int > usize::MAX as int) by (nonlinear_arith)
                    requires
                        acc as int >= (usize::MAX as int) / (d as int) + 1,
                        d as int >= 1,
                        usize::MAX as int == (d as int) * ((usize::MAX as int) / (d as int)) + (
                        usize::MAX as int) % (d as int),
                        (usize::MAX as int) % (d as int) < d as int,
                ;
                assert(shape_prod_prefix(s@, k as int + 1) == acc as int * d as int);
                lemma_prefix_le_total(s@, k as int + 1);
            }
            return None;
        }
        proof {
            lemma_fundamental_div_mod(usize::MAX as int, d as int);
            assert(acc as int * d as int <= usize::MAX as int) by (nonlinear_arith)
                requires
                    acc as int <= (usize::MAX as int) / (d as int),
                    d as int >= 1,
                    usize::MAX as int == (d as int) * ((usize::MAX as int) / (d as int)) + (
                    usize::MAX as int) % (d as int),
                    0 <= (usize::MAX as int) % (d as int),
            ;
            assert((acc as int) * (d as int) >= 1) by (nonlinear_arith)
                requires
                    (acc as int) >= 1,
                    (d as int) >= 1,
            ;
            assert(shape_prod_prefix(s@, k as int + 1) == shape_prod_prefix(s@, k as int) * (d
                as int));
        }
        acc = acc * d;
        k += 1;
    }
    Some(acc)
}

/// Left-pads a shape with ones to length `l`.
pub fn pad_shape(s: &Vec<usize>, l: usize) -> (r: Vec<usize>)
    requires
        s@.len() <= l,
    ensures
        r@.len() == l,
        forall|j: int| 0 <= j < l ==> r@[j] as int == padded_dim(s@, l as int, j),
{
    let lead = l - s.len();
    let mut r: Vec<usize> = Vec::new();
    let mut i: usize = 0;
    while i < lead
        invariant
            0 <= i <= lead,
            lead == l - s@.len(),
            r@.len() == i,
            forall|j: int| 0 <= j < i ==> r@[j] == 1,
        decreases lead - i,
    {
        r.push(1);
        i += 1;
    }
    let mut k: usize = 0;
    while k < s.len()
        invariant
            0 <= k <= s@.len(),
            lead == l - s@.len(),
            r@.len() == lead + k,
            forall|j: int| 0 <= j < lead ==> r@[j] == 1,
            forall|j: int| lead <= j < lead + k ==> r@[j] == s@[j - lead],
        decreases s@.len() - k,
    {
        r.push(s[k]);
        k += 1;
    }
    r
}

/// Computes the broadcast of two shapes, or `None` when they are not
/// broadcast-compatible.
pub fn broadcast_shapes(a: &Vec<usize>, b: &Vec<usize>) -> (r: Option<Vec<usize>>)
    ensures
        match r {
            Some(t) => bc_compat(a@, b@) && t@ == bc_shape(a@, b@),
            None => !bc_compat(a@, b@),
        },
{
    let l = if a.len() >= b.len() {
        a.len()
    } else {
        b.len()
    };
    let mut t: Vec<usize> = Vec::new();
    let mut j: usize = 0;
    while j < l
        invariant
            0 <= j <= l,
            l as int == bc_len(a@, b@),
            t@.len() == j,
            forall|jj: int|
                0 <= jj < j ==> #[trigger] padded_dim(a@, l as int, jj) == padded_dim(
                    b@,
                    l as int,
                    jj,
                ) || padded_dim(a@, l as int, jj) == 1 || padded_dim(b@, l as int, jj) == 1,
            forall|jj: int| 0 <= jj < j ==> t@[jj] as int == bc_dim(a@, b@, jj),
        decreases l - j,
    {
        let da = if j < l - a.len() {
            1
        } else {
            a[j - (l - a.len())]
        };
        let db = if j < l - b.len() {
            1
        } else {
            b[j - (l - b.len())]
        };
        proof {
            assert(da as int == padded_dim(a@, l as int, j as int));
            assert(db as int == padded_dim(b@, l as int, j as int));
        }
        if !(da == db || da == 1 || db == 1) {
            return None;
        }
        t.push(if da == 1 {
            db
        } else {
            da
        });
        j += 1;
    }
    proof {
        assert(t@ =~= bc_shape(a@, b@));
    }
    Some(t)
}

/// Decides whether two shapes are equal axis by axis.
pub fn shapes_equal(a: &Vec<usize>, b: &Vec<usize>) -> (r: bool)
    ensures
        r <==> a@ == b@,
{
    if a.len() != b.len() {
        return false;
    }
    let mut i: usize = 0;
    while i < a.len()
        invariant
            0 <= i <= a@.len(),
            a@.len() == b@.len(),
            forall|j: int| 0 <= j < i ==> a@[j] == b@[j],
        decreases a@.len() - i,
    {
        if a[i] != b[i] {
            return false;
        }
        i += 1;
    }
    proof {
        assert(a@ =~= b@);
    }
    true
}

/// Computes `src_flat(t, r, t.len(), f)`: the flat index of the operand
/// element, under padded operand shape `r`, read for position `f` of the
/// broadcast shape `t`.
pub fn src_index(t: &Vec<usize>, r: &Vec<usize>, f: usize) -> (idx: usize)
    requires
        r@.len() == t@.len(),
        forall|j: int| 0 <= j < t@.len() ==> r@[j] == t@[j] || r@[j] == 1,
        f < shape_prod(t@),
        shape_prod(r@) <= usize::MAX,
    ensures
        idx as int == src_flat(t@, r@, t@.len() as int, f as int),
        idx < shape_prod(r@),
{
    proof {
        lemma_pos_prod_pos_dims(t@);
        assert(forall|j: int| 0 <= j < r@.len() ==> r@[j] >= 1);
    }
    let n = t.len();
    let mut k: usize = n;
    let mut fq: usize = f;
    let mut mult: usize = 1;
    let mut acc: usize = 0;
    while k > 0
        invariant
            0 <= k <= n,
            n == t@.len(),
            r@.len() == t@.len(),
            forall|j: int| 0 <= j < t@.len() ==> r@[j] == t@[j] || r@[j] == 1,
            forall|j: int| 0 <= j < t@.len() ==> t@[j] >= 1,
            forall|j: int| 0 <= j < r@.len() ==> r@[j] >= 1,
            shape_prod(r@) <= usize::MAX,
            mult as int == shape_prod_suffix(r@, k as int),
            acc < mult,
            src_flat(t@, r@, n as int, f as int) == src_flat(t@, r@, k as int, fq as int) * mult
                + acc,
        decreases k,
    {
        let d = t[k - 1];
        let rd = r[k - 1];
        let i = fq % d;
        let ri = if rd == 1 {
            0
        } else {
            i
        };
        proof {
            lemma_suffix_le_total(r@, k as int - 1);
            assert(shape_prod_suffix(r@, k as int - 1) == (rd as int) * (mult as int));
            assert(ri < rd);
            assert((ri as int) * (mult as int) + (acc as int) < (rd as int) * (mult as int))
                by (nonlinear_arith)
                requires
                    (ri as int) <= (rd as int) - 1,
                    (acc as int) < (mult as int),
                    (mult as int) >= 1,
                    (rd as int) >= 1,
            ;
            let x = src_flat(t@, r@, k as int - 1, (fq as int) / (d as int));
            assert(src_flat(t@, r@, k as int, fq as int) == x * (rd as int) + (ri as int));
            assert((x * (rd as int) + (ri as int)) * (mult as int) == x * ((rd as int) * (mult
                as int)) + (ri as int) * (mult as int)) by (nonlinear_arith);
            assert((mult as int) * (rd as int) == (rd as int) * (mult as int))
                by (nonlinear_arith);
        }
        acc = acc + ri * mult;
        mult = mult * rd;
        fq = fq / d;
        k -= 1;
    }
    proof {
        assert(src_flat(t@, r@, 0, fq as int) == 0);
        assert(0 * mult as int == 0) by (nonlinear_arith);
        assert(shape_prod_suffix(r@, 0) == shape_prod(r@)) by {
            lemma_shape_prod_split(r@, 0);
            assert(shape_prod_prefix(r@, 0) == 1);
            assert(1 * shape_prod_suffix(r@, 0) == shape_prod_suffix(r@, 0)) by (nonlinear_arith);
        }
    }
    acc
}

} // verus!
