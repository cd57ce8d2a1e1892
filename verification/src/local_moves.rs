//! Neighborhood moves on routes: deterministic permutation transforms
//! parameterized by two positions `i < j`.
//!
//! The shift moves are cyclic rotations of the slice between the two
//! positions; `two_opt` reverses it and `swap` exchanges its endpoints.

use vstd::arithmetic::div_mod::{
    lemma_add_mod_noop, lemma_fundamental_div_mod, lemma_mod_bound, lemma_mod_multiples_vanish,
    lemma_small_mod,
};
use vstd::pervasive::VecAdditionalExecFns;
use vstd::prelude::*;

use crate::route::{is_permutation, Route};

verus! {

/// The slice `[i..=j]` of `post` is the same slice of `pre` rotated left by
/// `c` positions; everything outside the slice is unchanged.
pub open spec fn rotated(pre: Seq<usize>, post: Seq<usize>, i: int, j: int, c: int) -> bool {
    let l = j - i + 1;
    &&& 0 <= i < j < pre.len()
    &&& post.len() == pre.len()
    &&& forall|k: int| 0 <= k < pre.len() && !(i <= k <= j) ==> post[k] == pre[k]
    &&& forall|t: int| 0 <= t < l ==> #[trigger] post[i + t] == pre[i + ((t + c) % l)]
}

/// The slice `[i..=j]` of `post` is the same slice of `pre` reversed.
pub open spec fn two_opt_rel(pre: Seq<usize>, post: Seq<usize>, i: int, j: int) -> bool {
    &&& 0 <= i < j < pre.len()
    &&& post.len() == pre.len()
    &&& forall|k: int| 0 <= k < pre.len() && !(i <= k <= j) ==> post[k] == pre[k]
    &&& forall|k: int| i <= k <= j ==> post[k] == pre[i + j - k]
}

/// Positions `i` and `j` exchanged.
pub open spec fn swap_rel(pre: Seq<usize>, post: Seq<usize>, i: int, j: int) -> bool {
    &&& 0 <= i < j < pre.len()
    &&& post.len() == pre.len()
    &&& forall|k: int| 0 <= k < pre.len() && k != i && k != j ==> post[k] == pre[k]
    &&& post[i] == pre[j]
    &&& post[j] == pre[i]
}

/// The element at `j` moved before position `i`: a rotation right by one.
pub open spec fn one_shift_left_rel(pre: Seq<usize>, post: Seq<usize>, i: int, j: int) -> bool {
    rotated(pre, post, i, j, j - i)
}

/// The element at `i` moved after position `j`: a rotation left by one.
pub open spec fn one_shift_right_rel(pre: Seq<usize>, post: Seq<usize>, i: int, j: int) -> bool {
    rotated(pre, post, i, j, 1)
}

/// The pair at `j - 1, j` moved before position `i`.
pub open spec fn two_shift_left_rel(pre: Seq<usize>, post: Seq<usize>, i: int, j: int) -> bool {
    rotated(pre, post, i, j, j - i - 1)
}

/// The pair at `i, i + 1` moved after position `j`.
pub open spec fn two_shift_right_rel(pre: Seq<usize>, post: Seq<usize>, i: int, j: int) -> bool {
    rotated(pre, post, i, j, 2)
}

/// The triple at `j - 2, j - 1, j` moved before position `i`.
pub open spec fn three_shift_left_rel(pre: Seq<usize>, post: Seq<usize>, i: int, j: int) -> bool {
    rotated(pre, post, i, j, j - i - 2)
}

/// The triple at `i, i + 1, i + 2` moved after position `j`.
pub open spec fn three_shift_right_rel(pre: Seq<usize>, post: Seq<usize>, i: int, j: int) -> bool {
    rotated(pre, post, i, j, 3)
}

/// Indices shifted by the same amount and reduced modulo the same length
/// coincide only when they were equal.
proof fn lemma_mod_inj(x: int, y: int, c: int, l: int)
    requires
        l > 0,
        0 <= x < l,
        0 <= y < l,
        0 <= c,
        (x + c) % l == (y + c) % l,
    ensures
        x == y,
{
    lemma_fundamental_div_mod(x + c, l);
    lemma_fundamental_div_mod(y + c, l);
    let qx = (x + c) / l;
    let qy = (y + c) / l;
    assert(x - y == (qx - qy) * l) by (nonlinear_arith)
        requires
            x + c == l * qx + (x + c) % l,
            y + c == l * qy + (y + c) % l,
            (x + c) % l == (y + c) % l,
    ;
    if qx != qy {
        assert((qx - qy) * l >= l || (qx - qy) * l <= -l) by (nonlinear_arith)
            requires
                l > 0,
                qx != qy,
        ;
    }
}

/// A rotation of a permutation is a permutation.
pub proof fn lemma_rotated_permutation(pre: Seq<usize>, post: Seq<usize>, i: int, j: int, c: int, n: int)
    requires
        rotated(pre, post, i, j, c),
        0 <= c,
        is_permutation(pre, n),
    ensures
        is_permutation(post, n),
{
    let l = j - i + 1;
    assert forall|p: int| 0 <= p < post.len() implies (#[trigger] post[p]) < n by {
        if i <= p <= j {
            lemma_mod_bound(p - i + c, l);
            assert(post[i + (p - i)] == pre[i + ((p - i + c) % l)]);
        }
    }
    assert forall|p: int, q: int| 0 <= p < q < post.len() implies post[p] != post[q] by {
        let sp = source_index(pre, i, j, c, p);
        let sq = source_index(pre, i, j, c, q);
        lemma_source_index(pre, post, i, j, c, p);
        lemma_source_index(pre, post, i, j, c, q);
        if sp == sq {
            if i <= p <= j && i <= q <= j {
                lemma_mod_inj(p - i, q - i, c, l);
                assert(false);
            } else {
                assert(false);
            }
        }
        assert(pre[sp] != pre[sq]);
    }
}

/// The index of `pre` that a rotated sequence reads at position `p`.
spec fn source_index(pre: Seq<usize>, i: int, j: int, c: int, p: int) -> int {
    if i <= p <= j {
        i + ((p - i + c) % (j - i + 1))
    } else {
        p
    }
}

/// The source index is in range, maps the slice into the slice, and gives
/// the rotated value.
proof fn lemma_source_index(pre: Seq<usize>, post: Seq<usize>, i: int, j: int, c: int, p: int)
    requires
        rotated(pre, post, i, j, c),
        0 <= c,
        0 <= p < pre.len(),
    ensures
        0 <= source_index(pre, i, j, c, p) < pre.len(),
        i <= p <= j ==> i <= source_index(pre, i, j, c, p) <= j,
        !(i <= p <= j) ==> source_index(pre, i, j, c, p) == p,
        post[p] == pre[source_index(pre, i, j, c, p)],
{
    if i <= p <= j {
        lemma_mod_bound(p - i + c, j - i + 1);
        assert(post[i + (p - i)] == pre[i + ((p - i + c) % (j - i + 1))]);
    }
}

/// Composing two rotations of the same slice adds their offsets modulo the
/// slice length.
pub proof fn lemma_rotated_compose(
    a: Seq<usize>,
    b: Seq<usize>,
    c: Seq<usize>,
    i: int,
    j: int,
    c1: int,
    c2: int,
)
    requires
        rotated(a, b, i, j, c1),
        rotated(b, c, i, j, c2),
        0 <= c1,
        0 <= c2,
    ensures
        rotated(a, c, i, j, (c1 + c2) % (j - i + 1)),
{
    let l = j - i + 1;
    assert forall|t: int| 0 <= t < l implies #[trigger] c[i + t] == a[i + ((t + (c1 + c2) % l) % l)] by {
        lemma_mod_bound(t + c2, l);
        let u = (t + c2) % l;
        assert(c[i + t] == b[i + u]);
        assert(b[i + u] == a[i + ((u + c1) % l)]);
        assert((u + c1) % l == (t + c1 + c2) % l) by {
            lemma_add_mod_noop(t + c2, c1, l);
            lemma_add_mod_noop(u, c1, l);
            lemma_small_mod(u as nat, l as nat);
        }
        assert((t + (c1 + c2) % l) % l == (t + c1 + c2) % l) by {
            lemma_add_mod_noop(t, (c1 + c2) % l, l);
            lemma_add_mod_noop(t, c1 + c2, l);
            lemma_mod_bound(c1 + c2, l);
            lemma_small_mod(((c1 + c2) % l) as nat, l as nat);
            lemma_small_mod(t as nat, l as nat);
        }
    }
}

/// A rotation by a multiple of the slice length changes nothing.
pub proof fn lemma_rotated_zero(a: Seq<usize>, b: Seq<usize>, i: int, j: int)
    requires
        rotated(a, b, i, j, 0),
    ensures
        a == b,
{
    let l = j - i + 1;
    assert forall|k: int| 0 <= k < a.len() implies a[k] == b[k] by {
        if i <= k <= j {
            lemma_small_mod((k - i) as nat, l as nat);
            assert(b[i + (k - i)] == a[i + ((k - i + 0) % l)]);
        }
    }
    assert(a =~= b);
}

/// Shifting a slice left and then right by the same amount, or right and
/// then left, restores the original route.
pub proof fn lemma_rotated_cancel(
    a: Seq<usize>,
    b: Seq<usize>,
    c: Seq<usize>,
    i: int,
    j: int,
    m: int,
)
    requires
        rotated(a, b, i, j, m),
        rotated(b, c, i, j, j - i + 1 - m),
        0 <= m <= j - i + 1,
    ensures
        c == a,
{
    let l = j - i + 1;
    lemma_rotated_compose(a, b, c, i, j, m, l - m);
    assert((m + (l - m)) % l == 0) by {
        lemma_mod_multiples_vanish(1, 0, l);
    }
    lemma_rotated_zero(a, c, i, j);
}

/// Moving an element before `i` and then moving it back after `j`, with
/// the same positions, restores the original route.
pub proof fn lemma_one_shift_cancel(a: Seq<usize>, b: Seq<usize>, c: Seq<usize>, i: int, j: int)
    requires
        one_shift_left_rel(a, b, i, j),
        one_shift_right_rel(b, c, i, j),
    ensures
        c == a,
{
    lemma_rotated_cancel(a, b, c, i, j, j - i);
}

/// Moving a pair before `i` and then moving it back after `j`, with the
/// same positions, restores the original route.
pub proof fn lemma_two_shift_cancel(a: Seq<usize>, b: Seq<usize>, c: Seq<usize>, i: int, j: int)
    requires
        two_shift_left_rel(a, b, i, j),
        two_shift_right_rel(b, c, i, j),
    ensures
        c == a,
{
    lemma_rotated_cancel(a, b, c, i, j, j - i - 1);
}

/// Moving a triple before `i` and then moving it back after `j`, with the
/// same positions, restores the original route.
pub proof fn lemma_three_shift_cancel(a: Seq<usize>, b: Seq<usize>, c: Seq<usize>, i: int, j: int)
    requires
        three_shift_left_rel(a, b, i, j),
        three_shift_right_rel(b, c, i, j),
        j >= i + 2,
    ensures
        c == a,
{
    lemma_rotated_cancel(a, b, c, i, j, j - i - 2);
}

/// Reversing a slice twice restores the original route.
pub proof fn lemma_two_opt_involution(a: Seq<usize>, b: Seq<usize>, c: Seq<usize>, i: int, j: int)
    requires
        two_opt_rel(a, b, i, j),
        two_opt_rel(b, c, i, j),
    ensures
        c == a,
{
    assert forall|k: int| 0 <= k < a.len() implies a[k] == c[k] by {
        if i <= k <= j {
            assert(c[k] == b[i + j - k]);
            assert(b[i + j - k] == a[i + j - (i + j - k)]);
        }
    }
    assert(a =~= c);
}

/// Exchanging the same two positions twice restores the original route.
pub proof fn lemma_swap_involution(a: Seq<usize>, b: Seq<usize>, c: Seq<usize>, i: int, j: int)
    requires
        swap_rel(a, b, i, j),
        swap_rel(b, c, i, j),
    ensures
        c == a,
{
    assert(a =~= c);
}

/// Reversing a slice of a permutation keeps it a permutation.
pub proof fn lemma_two_opt_permutation(pre: Seq<usize>, post: Seq<usize>, i: int, j: int, n: int)
    requires
        two_opt_rel(pre, post, i, j),
        is_permutation(pre, n),
    ensures
        is_permutation(post, n),
{
    assert forall|p: int| 0 <= p < post.len() implies (#[trigger] post[p]) < n by {
        if i <= p <= j {
            assert(post[p] == pre[i + j - p]);
        }
    }
    assert forall|p: int, q: int| 0 <= p < q < post.len() implies post[p] != post[q] by {
        let sp = if i <= p <= j {
            i + j - p
        } else {
            p
        };
        let sq = if i <= q <= j {
            i + j - q
        } else {
            q
        };
        assert(post[p] == pre[sp]);
        assert(post[q] == pre[sq]);
        assert(sp != sq);
        assert(pre[sp] != pre[sq]);
    }
}

/// Exchanging two positions of a permutation keeps it a permutation.
pub proof fn lemma_swap_permutation(pre: Seq<usize>, post: Seq<usize>, i: int, j: int, n: int)
    requires
        swap_rel(pre, post, i, j),
        is_permutation(pre, n),
    ensures
        is_permutation(post, n),
{
    assert forall|p: int| 0 <= p < post.len() implies (#[trigger] post[p]) < n by {
        if p == i {
            assert(post[p] == pre[j]);
        } else if p == j {
            assert(post[p] == pre[i]);
        }
    }
    assert forall|p: int, q: int| 0 <= p < q < post.len() implies post[p] != post[q] by {
        let sp = if p == i {
            j
        } else if p == j {
            i
        } else {
            p
        };
        let sq = if q == i {
            j
        } else if q == j {
            i
        } else {
            q
        };
        assert(post[p] == pre[sp]);
        assert(post[q] == pre[sq]);
        assert(pre[sp] != pre[sq]);
    }
}

/// Rotates the slice `[i..=j]` right by one: the element at `j` moves to
/// position `i`.
fn rotate_right_once(sequence: &mut Vec<usize>, i: usize, j: usize)
    requires
        i < j < old(sequence)@.len(),
    ensures
        rotated(old(sequence)@, final(sequence)@, i as int, j as int, j - i),
{
    let ghost pre = sequence@;
    let x = sequence.remove(j);
    let ghost mid = sequence@;
    sequence.insert(i, x);
    proof {
        let l: int = j - i + 1;
        let post = sequence@;
        assert forall|t: int| 0 <= t < l implies #[trigger] post[i + t] == pre[i + ((t + (j - i)) % l)] by {
            if t == 0 {
                lemma_mod_multiples_vanish(1, l - 1, l);
                lemma_small_mod((l - 1) as nat, l as nat);
                assert((0 + (j - i)) % l == l - 1);
                assert(post[i as int] == x);
            } else {
                lemma_mod_multiples_vanish(1, t - 1, l);
                lemma_small_mod((t - 1) as nat, l as nat);
                assert((t + (j - i)) % l == t - 1);
                assert(post[i + t] == mid[i + t - 1]);
                assert(mid[i + t - 1] == pre[i + t - 1]);
            }
        }
    }
}

/// Rotates the slice `[i..=j]` left by one: the element at `i` moves to
/// position `j`.
fn rotate_left_once(sequence: &mut Vec<usize>, i: usize, j: usize)
    requires
        i < j < old(sequence)@.len(),
    ensures
        rotated(old(sequence)@, final(sequence)@, i as int, j as int, 1),
{
    let ghost pre = sequence@;
    let x = sequence.remove(i);
    let ghost mid = sequence@;
    sequence.insert(j, x);
    proof {
        let l: int = j - i + 1;
        let post = sequence@;
        assert forall|t: int| 0 <= t < l implies #[trigger] post[i + t] == pre[i + ((t + 1) % l)] by {
            if t == l - 1 {
                lemma_mod_multiples_vanish(1, 0, l);
                assert((t + 1) % l == 0);
                assert(post[j as int] == x);
            } else {
                lemma_small_mod((t + 1) as nat, l as nat);
                assert(post[i + t] == mid[i + t]);
                assert(mid[i + t] == pre[i + t + 1]);
            }
        }
    }
}

/// Reverses the slice `[i..=j]` of the route.
pub fn two_opt(route: &mut Route, i: usize, j: usize)
    requires
        i < j < old(route).sequence@.len(),
    ensures
        two_opt_rel(old(route).sequence@, final(route).sequence@, i as int, j as int),
{
    let ghost pre = route.sequence@;
    let mut l = i;
    let mut r = j;
    while l < r
        invariant
            i <= l <= r + 1,
            r <= j,
            l + r == i + j,
            route.sequence@.len() == pre.len(),
            j < pre.len(),
            forall|k: int|
                0 <= k < pre.len() && !(i <= k <= j) ==> #[trigger] route.sequence@[k] == pre[k],
            forall|k: int| l <= k <= r ==> #[trigger] route.sequence@[k] == pre[k],
            forall|k: int|
                (i <= k < l || r < k <= j) ==> #[trigger] route.sequence@[k] == pre[i + j - k],
        decreases r + 1 - l,
    {
        let ghost before = route.sequence@;
        let a = route.sequence[l];
        let b = route.sequence[r];
        route.sequence.set(l, b);
        route.sequence.set(r, a);
        proof {
            assert(route.sequence@ == before.update(l as int, b).update(r as int, a));
        }
        l += 1;
        r -= 1;
    }
}

/// Exchanges the elements at positions `i` and `j`.
pub fn swap(route: &mut Route, i: usize, j: usize)
    requires
        i < j < old(route).sequence@.len(),
    ensures
        swap_rel(old(route).sequence@, final(route).sequence@, i as int, j as int),
{
    let a = route.sequence[i];
    let b = route.sequence[j];
    route.sequence.set(i, b);
    route.sequence.set(j, a);
}

/// Moves the element at `j` before position `i`.
pub fn one_shift_left(route: &mut Route, i: usize, j: usize)
    requires
        i < j < old(route).sequence@.len(),
    ensures
        one_shift_left_rel(old(route).sequence@, final(route).sequence@, i as int, j as int),
{
    rotate_right_once(&mut route.sequence, i, j);
}

/// Moves the element at `i` after position `j`.
pub fn one_shift_right(route: &mut Route, i: usize, j: usize)
    requires
        i < j < old(route).sequence@.len(),
    ensures
        one_shift_right_rel(old(route).sequence@, final(route).sequence@, i as int, j as int),
{
    rotate_left_once(&mut route.sequence, i, j);
}

/// Moves the pair at `j - 1, j` before position `i`.
pub fn two_shift_left(route: &mut Route, i: usize, j: usize)
    requires
        i + 1 < j < old(route).sequence@.len(),
    ensures
        two_shift_left_rel(old(route).sequence@, final(route).sequence@, i as int, j as int),
{
    let ghost pre = route.sequence@;
    rotate_right_once(&mut route.sequence, i, j);
    let ghost mid = route.sequence@;
    rotate_right_once(&mut route.sequence, i, j);
    proof {
        let l: int = j - i + 1;
        lemma_rotated_compose(pre, mid, route.sequence@, i as int, j as int, j - i, j - i);
        assert((2 * (j - i)) % l == j - i - 1) by {
            lemma_mod_multiples_vanish(1, l - 2, l);
            lemma_small_mod((l - 2) as nat, l as nat);
        }
    }
}

/// Moves the pair at `i, i + 1` after position `j`.
pub fn two_shift_right(route: &mut Route, i: usize, j: usize)
    requires
        i + 1 < j < old(route).sequence@.len(),
    ensures
        two_shift_right_rel(old(route).sequence@, final(route).sequence@, i as int, j as int),
{
    let ghost pre = route.sequence@;
    rotate_left_once(&mut route.sequence, i, j);
    let ghost mid = route.sequence@;
    rotate_left_once(&mut route.sequence, i, j);
    proof {
        let l: int = j - i + 1;
        lemma_rotated_compose(pre, mid, route.sequence@, i as int, j as int, 1, 1);
        assert(2int % l == 2) by {
            lemma_small_mod(2nat, l as nat);
        }
    }
}

/// Moves the triple at `j - 2, j - 1, j` before position `i`.
pub fn three_shift_left(route: &mut Route, i: usize, j: usize)
    requires
        i + 2 < j < old(route).sequence@.len(),
    ensures
        three_shift_left_rel(old(route).sequence@, final(route).sequence@, i as int, j as int),
{
    let ghost pre = route.sequence@;
    rotate_right_once(&mut route.sequence, i, j);
    let ghost mid1 = route.sequence@;
    rotate_right_once(&mut route.sequence, i, j);
    let ghost mid2 = route.sequence@;
    rotate_right_once(&mut route.sequence, i, j);
    proof {
        let l: int = j - i + 1;
        lemma_rotated_compose(pre, mid1, mid2, i as int, j as int, j - i, j - i);
        assert((2 * (j - i)) % l == j - i - 1) by {
            lemma_mod_multiples_vanish(1, l - 2, l);
            lemma_small_mod((l - 2) as nat, l as nat);
        }
        lemma_rotated_compose(pre, mid2, route.sequence@, i as int, j as int, j - i - 1, j - i);
        assert(((j - i - 1) + (j - i)) % l == j - i - 2) by {
            lemma_mod_multiples_vanish(1, l - 3, l);
            lemma_small_mod((l - 3) as nat, l as nat);
        }
    }
}

/// Moves the triple at `i, i + 1, i + 2` after position `j`.
pub fn three_shift_right(route: &mut Route, i: usize, j: usize)
    requires
        i + 2 < j < old(route).sequence@.len(),
    ensures
        three_shift_right_rel(old(route).sequence@, final(route).sequence@, i as int, j as int),
{
    let ghost pre = route.sequence@;
    rotate_left_once(&mut route.sequence, i, j);
    let ghost mid1 = route.sequence@;
    rotate_left_once(&mut route.sequence, i, j);
    let ghost mid2 = route.sequence@;
    rotate_left_once(&mut route.sequence, i, j);
    proof {
        let l: int = j - i + 1;
        lemma_rotated_compose(pre, mid1, mid2, i as int, j as int, 1, 1);
        assert(2int % l == 2) by {
            lemma_small_mod(2nat, l as nat);
        }
        lemma_rotated_compose(pre, mid2, route.sequence@, i as int, j as int, 2, 1);
        assert(3int % l == 3) by {
            lemma_small_mod(3nat, l as nat);
        }
    }
}

} // verus!
