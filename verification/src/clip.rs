//! Linear constraints along a segment.
//!
//! A constraint is a function that is linear along the segment, given by its
//! value `s` at the start and `e` at the end; it holds where the function is
//! not negative. A family of them holds at one common point of the segment
//! exactly if each holds somewhere and each two hold at a common point.

use vstd::prelude::*;

verus! {

/// `m` times the value, at the fraction `n / m` of the way, of the linear
/// function that is `s` at the start and `e` at the end.
pub open spec fn blend(s: int, e: int, n: int, m: int) -> int {
    (m - n) * s + n * e
}

/// Every constraint holds at the fraction `n / m`.
pub open spec fn all_hold(s: Seq<int>, e: Seq<int>, n: int, m: int) -> bool {
    forall|i: int| 0 <= i < s.len() ==> blend(#[trigger] s[i], e[i], n, m) >= 0
}

/// Some point of the segment meets every constraint.
pub open spec fn feasible(s: Seq<int>, e: Seq<int>) -> bool {
    exists|n: int, m: int| 0 <= n <= m && 0 < m && #[trigger] all_hold(s, e, n, m)
}

/// The place where constraint `i` starts to hold lies no later than the
/// place where constraint `j` ceases to.
pub open spec fn in_order(s: Seq<int>, e: Seq<int>, i: int, j: int) -> bool {
    s[j] * e[i] >= s[i] * e[j]
}

/// Each constraint holds at an end of the segment, and wherever one fails at
/// the start and another at the end, the first starts to hold before the
/// second ceases to.
pub open spec fn pairwise(s: Seq<int>, e: Seq<int>) -> bool {
    &&& forall|i: int| 0 <= i < s.len() ==> #[trigger] s[i] >= 0 || e[i] >= 0
    &&& forall|i: int, j: int|
        0 <= i < s.len() && 0 <= j < s.len() && s[i] < 0 && e[j] < 0 ==> #[trigger] in_order(
            s,
            e,
            i,
            j,
        )
}

proof fn lemma_blend_sign(s: int, e: int, n: int, m: int)
    requires
        0 <= n <= m,
        0 < m,
        blend(s, e, n, m) >= 0,
    ensures
        s >= 0 || e >= 0,
{
    if s < 0 && e < 0 {
        assert((m - n) * s + n * e < 0) by (nonlinear_arith)
            requires
                0 <= n <= m,
                0 < m,
                s < 0,
                e < 0,
        ;
    }
}

proof fn lemma_blend_order(si: int, ei: int, sj: int, ej: int, n: int, m: int)
    requires
        0 <= n <= m,
        0 < m,
        blend(si, ei, n, m) >= 0,
        blend(sj, ej, n, m) >= 0,
        si < 0,
        ej < 0,
    ensures
        sj * ei >= si * ej,
{
    let a = -si;
    let b = -ej;
    assert(n * ei >= (m - n) * a) by (nonlinear_arith)
        requires
            (m - n) * si + n * ei >= 0,
            a == -si,
    ;
    assert((m - n) * sj >= n * b) by (nonlinear_arith)
        requires
            (m - n) * sj + n * ej >= 0,
            b == -ej,
    ;
    assert(n > 0) by (nonlinear_arith)
        requires
            n * ei >= (m - n) * a,
            a > 0,
            0 <= n <= m,
            0 < m,
    ;
    if m == n {
        assert(false) by (nonlinear_arith)
            requires
                (m - n) * sj >= n * b,
                m == n,
                n > 0,
                b > 0,
        ;
    } else {
        let k = m - n;
        assert(ei >= 0) by (nonlinear_arith)
            requires
                n * ei >= k * a,
                k > 0,
                a > 0,
                n > 0,
        ;
        assert(sj >= 0) by (nonlinear_arith)
            requires
                k * sj >= n * b,
                k > 0,
                b > 0,
                n > 0,
        ;
        assert((n * ei) * (k * sj) >= (k * a) * (n * b)) by (nonlinear_arith)
            requires
                n * ei >= k * a,
                k * sj >= n * b,
                k * a >= 0,
                n * b >= 0,
        ;
        assert((n * k) * (sj * ei) >= (n * k) * (a * b)) by (nonlinear_arith)
            requires
                (n * ei) * (k * sj) >= (k * a) * (n * b),
        ;
        assert(sj * ei >= a * b) by (nonlinear_arith)
            requires
                (n * k) * (sj * ei) >= (n * k) * (a * b),
                n > 0,
                k > 0,
        ;
        assert(a * b == si * ej) by (nonlinear_arith)
            requires
                a == -si,
                b == -ej,
        ;
    }
}

proof fn lemma_feasible_pairwise(s: Seq<int>, e: Seq<int>)
    requires
        s.len() == e.len(),
        feasible(s, e),
    ensures
        pairwise(s, e),
{
    let (n, m) = choose|n: int, m: int| 0 <= n <= m && 0 < m && #[trigger] all_hold(s, e, n, m);
    assert forall|i: int| 0 <= i < s.len() implies #[trigger] s[i] >= 0 || e[i] >= 0 by {
        lemma_blend_sign(s[i], e[i], n, m);
    }
    assert forall|i: int, j: int|
        0 <= i < s.len() && 0 <= j < s.len() && s[i] < 0 && e[j] < 0 implies #[trigger] in_order(
        s,
        e,
        i,
        j,
    ) by {
        lemma_blend_order(s[i], e[i], s[j], e[j], n, m);
    }
}

/// Among the constraints that fail at the start, `r` is one that starts to
/// hold last.
spec fn latest(s: Seq<int>, e: Seq<int>, k: int, r: int) -> bool {
    &&& 0 <= r < k
    &&& s[r] < 0
    &&& forall|j: int| 0 <= j < k && s[j] < 0 ==> #[trigger] in_order(s, e, r, j)
}

proof fn lemma_order_chain(si: int, ei: int, sj: int, ej: int, sk: int, ek: int)
    requires
        si < 0,
        sj < 0,
        sk < 0,
        ei >= 0,
        ej >= 0,
        ek >= 0,
        sj * ei >= si * ej,
        sk * ej >= sj * ek,
    ensures
        sk * ei >= si * ek,
{
    let a = -si;
    let b = -sj;
    let c = -sk;
    assert(a * ej >= b * ei) by (nonlinear_arith)
        requires
            sj * ei >= si * ej,
            a == -si,
            b == -sj,
    ;
    assert(b * ek >= c * ej) by (nonlinear_arith)
        requires
            sk * ej >= sj * ek,
            b == -sj,
            c == -sk,
    ;
    assert(c * (a * ej) >= c * (b * ei)) by (nonlinear_arith)
        requires
            a * ej >= b * ei,
            c > 0,
    ;
    assert(a * (b * ek) >= a * (c * ej)) by (nonlinear_arith)
        requires
            b * ek >= c * ej,
            a > 0,
    ;
    assert(b * (a * ek) >= b * (c * ei)) by (nonlinear_arith)
        requires
            c * (a * ej) >= c * (b * ei),
            a * (b * ek) >= a * (c * ej),
    ;
    assert(a * ek >= c * ei) by (nonlinear_arith)
        requires
            b * (a * ek) >= b * (c * ei),
            b > 0,
    ;
    assert(sk * ei >= si * ek) by (nonlinear_arith)
        requires
            a * ek >= c * ei,
            a == -si,
            c == -sk,
    ;
}

proof fn lemma_latest(s: Seq<int>, e: Seq<int>, k: int) -> (r: int)
    requires
        s.len() == e.len(),
        0 <= k <= s.len(),
        forall|i: int| 0 <= i < s.len() ==> #[trigger] s[i] >= 0 || e[i] >= 0,
    ensures
        r == -1 || latest(s, e, k, r),
        r == -1 ==> forall|j: int| 0 <= j < k ==> #[trigger] s[j] >= 0,
    decreases k,
{
    if k == 0 {
        -1
    } else {
        let prev = lemma_latest(s, e, k - 1);
        let c = k - 1;
        if s[c] >= 0 {
            prev
        } else if prev == -1 {
            assert(in_order(s, e, c, c));
            c
        } else if s[c] * e[prev] >= s[prev] * e[c] {
            assert(in_order(s, e, prev, c));
            prev
        } else {
            assert(s[c] >= 0 || e[c] >= 0);
            assert(s[prev] >= 0 || e[prev] >= 0);
            assert forall|j: int| 0 <= j < k && s[j] < 0 implies #[trigger] in_order(
                s,
                e,
                c,
                j,
            ) by {
                if j < c {
                    assert(s[j] >= 0 || e[j] >= 0);
                    assert(in_order(s, e, prev, j));
                    lemma_order_chain(s[c], e[c], s[prev], e[prev], s[j], e[j]);
                }
            }
            c
        }
    }
}

proof fn lemma_pairwise_feasible(s: Seq<int>, e: Seq<int>)
    requires
        s.len() == e.len(),
        pairwise(s, e),
    ensures
        feasible(s, e),
{
    let r = lemma_latest(s, e, s.len() as int);
    if r == -1 {
        assert forall|i: int| 0 <= i < s.len() implies blend(#[trigger] s[i], e[i], 0, 1)
            >= 0 by {}
        assert(all_hold(s, e, 0, 1));
    } else {
        let n = -s[r];
        let m = e[r] - s[r];
        assert(s[r] >= 0 || e[r] >= 0);
        assert forall|j: int| 0 <= j < s.len() implies blend(#[trigger] s[j], e[j], n, m)
            >= 0 by {
            let sr = s[r];
            let er = e[r];
            let sj = s[j];
            let ej = e[j];
            assert(blend(sj, ej, n, m) == sj * er - sr * ej) by (nonlinear_arith)
                requires
                    n == -sr,
                    m == er - sr,
            ;
            if sj < 0 {
                assert(in_order(s, e, r, j));
            } else if ej < 0 {
                assert(in_order(s, e, r, j));
            } else {
                assert(sj * er - sr * ej >= 0) by (nonlinear_arith)
                    requires
                        sj >= 0,
                        er >= 0,
                        sr < 0,
                        ej >= 0,
                ;
            }
        }
        assert(all_hold(s, e, n, m));
    }
}

/// A family of linear constraints holds at a common point of the segment
/// exactly if its members do so pair by pair.
pub proof fn lemma_common_point(s: Seq<int>, e: Seq<int>)
    requires
        s.len() == e.len(),
    ensures
        feasible(s, e) <==> pairwise(s, e),
{
    if feasible(s, e) {
        lemma_feasible_pairwise(s, e);
    }
    if pairwise(s, e) {
        lemma_pairwise_feasible(s, e);
    }
}

} // verus!
