//! Laws of exact matrix arithmetic over fractions: finite sums, the
//! associativity of the product, and powers.

use vstd::prelude::*;
use crate::foundation::rational::{
    lemma_add_congruent, lemma_denominator_product_positive, lemma_mul_congruent, lemma_rat_add_associative,
    lemma_rat_add_commutative, lemma_rat_distributes, lemma_rat_mul_laws, lemma_same_value_transitive, rat_add,
    rat_mul, rat_of_int, same_value, RationalView,
};
use crate::foundation::state_space::{
    dot, identity_entry, identity_matrix, mat_mul, positive_denominators, same_matrix, square, MatrixView,
};

verus! {

/// `sum_{k < n} f(k)`, added from the first term on.
pub open spec fn fsum(f: spec_fn(int) -> RationalView, n: nat) -> RationalView
    decreases n,
{
    if n == 0 {
        rat_of_int(0)
    } else {
        rat_add(fsum(f, (n - 1) as nat), f(n - 1))
    }
}

pub proof fn lemma_fsum_positive(f: spec_fn(int) -> RationalView, n: nat)
    requires
        forall|k: int| 0 <= k < n ==> (#[trigger] f(k)).1 > 0,
    ensures
        fsum(f, n).1 > 0,
    decreases n,
{
    if n > 0 {
        lemma_fsum_positive(f, (n - 1) as nat);
        lemma_denominator_product_positive(fsum(f, (n - 1) as nat), f(n - 1));
    }
}

pub proof fn lemma_fsum_congruent(f: spec_fn(int) -> RationalView, g: spec_fn(int) -> RationalView, n: nat)
    requires
        forall|k: int| 0 <= k < n ==> same_value(#[trigger] f(k), g(k)),
    ensures
        same_value(fsum(f, n), fsum(g, n)),
    decreases n,
{
    if n > 0 {
        lemma_fsum_congruent(f, g, (n - 1) as nat);
        lemma_add_congruent(fsum(f, (n - 1) as nat), fsum(g, (n - 1) as nat), f(n - 1), g(n - 1));
    }
}

/// `(x + y) + (u + v) == (x + u) + (y + v)`, exactly.
proof fn lemma_add_interchange(x: RationalView, y: RationalView, u: RationalView, v: RationalView)
    ensures
        rat_add(rat_add(x, y), rat_add(u, v)) == rat_add(rat_add(x, u), rat_add(y, v)),
{
    lemma_rat_add_associative(x, y, rat_add(u, v));
    lemma_rat_add_associative(y, u, v);
    lemma_rat_add_commutative(y, u);
    lemma_rat_add_associative(u, y, v);
    lemma_rat_add_associative(x, u, rat_add(y, v));
}

/// The termwise sum of two families.
pub open spec fn added(f: spec_fn(int) -> RationalView, g: spec_fn(int) -> RationalView) -> spec_fn(int) -> RationalView {
    |k: int| rat_add(f(k), g(k))
}

/// The family `f` with every term multiplied by `c`.
pub open spec fn scaled(f: spec_fn(int) -> RationalView, c: RationalView) -> spec_fn(int) -> RationalView {
    |k: int| rat_mul(f(k), c)
}

/// Row `i` of a doubly indexed family.
pub open spec fn row_of(g: spec_fn(int, int) -> RationalView, i: int) -> spec_fn(int) -> RationalView {
    |j: int| g(i, j)
}

/// Column `j` of a doubly indexed family.
pub open spec fn column_of(g: spec_fn(int, int) -> RationalView, j: int) -> spec_fn(int) -> RationalView {
    |i: int| g(i, j)
}

/// The sums of the first `m` terms of each row.
pub open spec fn row_sums(g: spec_fn(int, int) -> RationalView, m: nat) -> spec_fn(int) -> RationalView {
    |i: int| fsum(row_of(g, i), m)
}

/// The sums of the first `n` terms of each column.
pub open spec fn column_sums(g: spec_fn(int, int) -> RationalView, n: nat) -> spec_fn(int) -> RationalView {
    |j: int| fsum(column_of(g, j), n)
}

/// The sum of termwise sums is the sum of the two sums, exactly.
pub proof fn lemma_fsum_add(f: spec_fn(int) -> RationalView, g: spec_fn(int) -> RationalView, n: nat)
    ensures
        fsum(added(f, g), n) == rat_add(fsum(f, n), fsum(g, n)),
    decreases n,
{
    if n > 0 {
        lemma_fsum_add(f, g, (n - 1) as nat);
        lemma_add_interchange(fsum(f, (n - 1) as nat), fsum(g, (n - 1) as nat), f(n - 1), g(n - 1));
    } else {
        assert(rat_add(rat_of_int(0), rat_of_int(0)) == rat_of_int(0));
    }
}

/// A sum times `c` is the sum of the terms times `c`, in value.
pub proof fn lemma_fsum_scale(f: spec_fn(int) -> RationalView, c: RationalView, n: nat)
    requires
        forall|k: int| 0 <= k < n ==> (#[trigger] f(k)).1 > 0,
        c.1 > 0,
    ensures
        same_value(rat_mul(fsum(f, n), c), fsum(scaled(f, c), n)),
        fsum(scaled(f, c), n).1 > 0,
    decreases n,
{
    let h = scaled(f, c);
    assert forall|k: int| 0 <= k < n implies (#[trigger] h(k)).1 > 0 by {
        lemma_denominator_product_positive(f(k), c);
    }
    lemma_fsum_positive(h, n);
    if n > 0 {
        let previous = fsum(f, (n - 1) as nat);
        lemma_fsum_scale(f, c, (n - 1) as nat);
        lemma_rat_distributes(previous, f(n - 1), c);
        lemma_add_congruent(rat_mul(previous, c), fsum(h, (n - 1) as nat), rat_mul(f(n - 1), c), h(n - 1));
        lemma_fsum_positive(f, (n - 1) as nat);
        lemma_denominator_product_positive(previous, c);
        lemma_denominator_product_positive(f(n - 1), c);
        lemma_denominator_product_positive(rat_mul(previous, c), rat_mul(f(n - 1), c));
        assert(fsum(f, n) == rat_add(previous, f(n - 1)));
        assert(h(n - 1) == rat_mul(f(n - 1), c));
        assert(fsum(h, n) == rat_add(fsum(h, (n - 1) as nat), h(n - 1)));
        lemma_same_value_transitive(
            rat_mul(fsum(f, n), c),
            rat_add(rat_mul(previous, c), rat_mul(f(n - 1), c)),
            rat_add(fsum(h, (n - 1) as nat), h(n - 1)),
        );
        assert(same_value(rat_mul(fsum(f, n), c), fsum(h, n)));
    } else {
        let z = rat_mul(rat_of_int(0), c);
        assert(z.0 == 0) by (nonlinear_arith)
            requires
                z.0 == 0 * c.0,
        ;
        assert(fsum(h, 0) == rat_of_int(0));
        assert(fsum(f, 0) == rat_of_int(0));
        assert(z.0 * 1 == 0 * z.1) by (nonlinear_arith)
            requires
                z.0 == 0,
        ;
    }
}

/// Double sums can be taken in either order, exactly.
pub proof fn lemma_fsum_exchange(g: spec_fn(int, int) -> RationalView, n: nat, m: nat)
    ensures
        fsum(row_sums(g, m), n) == fsum(column_sums(g, n), m),
    decreases n,
{
    if n > 0 {
        lemma_fsum_exchange(g, (n - 1) as nat, m);
        let previous = column_sums(g, (n - 1) as nat);
        let last = row_of(g, n - 1);
        lemma_fsum_add(previous, last, m);
        assert(added(previous, last) =~= column_sums(g, n));
    } else {
        lemma_fsum_zero(m);
        assert(column_sums(g, 0) =~= (|j: int| rat_of_int(0)));
    }
}

proof fn lemma_fsum_zero(m: nat)
    ensures
        fsum(|j: int| rat_of_int(0), m) == rat_of_int(0),
    decreases m,
{
    if m > 0 {
        lemma_fsum_zero((m - 1) as nat);
    }
}

/// An `n x n` matrix whose entries have positive denominators.
pub open spec fn proper_square(m: MatrixView, n: nat) -> bool {
    &&& m.len() == n
    &&& square(m)
    &&& positive_denominators(m)
}

/// The terms `a[i][k] b[k][j]` of entry `(i, j)` of `a * b`.
pub open spec fn dot_terms(a: MatrixView, b: MatrixView, i: int, j: int) -> spec_fn(int) -> RationalView {
    |k: int| rat_mul(a[i][k], b[k][j])
}

proof fn lemma_dot_is_fsum(a: MatrixView, b: MatrixView, i: int, j: int, count: nat)
    ensures
        dot(a, b, i, j, count) == fsum(dot_terms(a, b, i, j), count),
    decreases count,
{
    if count > 0 {
        lemma_dot_is_fsum(a, b, i, j, (count - 1) as nat);
    }
}

proof fn lemma_same_matrix_reflexive(a: MatrixView)
    requires
        square(a),
    ensures
        same_matrix(a, a),
{
}

proof fn lemma_same_matrix_symmetric(a: MatrixView, b: MatrixView)
    requires
        same_matrix(a, b),
    ensures
        same_matrix(b, a),
{
}

proof fn lemma_same_matrix_transitive(a: MatrixView, b: MatrixView, c: MatrixView, n: nat)
    requires
        same_matrix(a, b),
        same_matrix(b, c),
        proper_square(b, n),
    ensures
        same_matrix(a, c),
{
    assert forall|i: int, j: int| 0 <= i < a.len() && 0 <= j < a[i].len() implies same_value(#[trigger] a[i][j], c[i][j]) by {
        lemma_same_value_transitive(a[i][j], b[i][j], c[i][j]);
    }
}

/// The product of proper squares is a proper square.
pub proof fn lemma_mat_mul_proper(a: MatrixView, b: MatrixView, n: nat)
    requires
        proper_square(a, n),
        proper_square(b, n),
    ensures
        proper_square(mat_mul(a, b), n),
{
    let p = mat_mul(a, b);
    assert forall|i: int, j: int| 0 <= i < p.len() && 0 <= j < p[i].len() implies (#[trigger] p[i][j]).1 > 0 by {
        lemma_dot_is_fsum(a, b, i, j, n);
        assert forall|k: int| 0 <= k < n implies (#[trigger] dot_terms(a, b, i, j)(k)).1 > 0 by {
            lemma_denominator_product_positive(a[i][k], b[k][j]);
        }
        lemma_fsum_positive(dot_terms(a, b, i, j), n);
    }
}

/// Products of matrices with the same values have the same values.
pub proof fn lemma_mat_mul_congruent(a: MatrixView, a2: MatrixView, b: MatrixView, b2: MatrixView, n: nat)
    requires
        proper_square(a, n),
        proper_square(a2, n),
        proper_square(b, n),
        proper_square(b2, n),
        same_matrix(a, a2),
        same_matrix(b, b2),
    ensures
        same_matrix(mat_mul(a, b), mat_mul(a2, b2)),
{
    assert forall|i: int, j: int| 0 <= i < n && 0 <= j < n implies same_value(#[trigger] mat_mul(a, b)[i][j], mat_mul(a2, b2)[i][j]) by {
        lemma_dot_is_fsum(a, b, i, j, n);
        lemma_dot_is_fsum(a2, b2, i, j, n);
        assert forall|k: int| 0 <= k < n implies same_value(#[trigger] dot_terms(a, b, i, j)(k), dot_terms(a2, b2, i, j)(k)) by {
            lemma_mul_congruent(a[i][k], a2[i][k], b[k][j], b2[k][j]);
        }
        lemma_fsum_congruent(dot_terms(a, b, i, j), dot_terms(a2, b2, i, j), n);
    }
}

/// The triple products `a[i][m] b[m][k] c[k][j]` for fixed `(i, j)`.
pub open spec fn triple_terms(a: MatrixView, b: MatrixView, c: MatrixView, i: int, j: int) -> spec_fn(int, int) -> RationalView {
    |m: int, k: int| rat_mul(rat_mul(a[i][m], b[m][k]), c[k][j])
}

/// The matrix product is associative, in value.
pub proof fn lemma_mat_mul_associative(a: MatrixView, b: MatrixView, c: MatrixView, n: nat)
    requires
        proper_square(a, n),
        proper_square(b, n),
        proper_square(c, n),
    ensures
        same_matrix(mat_mul(mat_mul(a, b), c), mat_mul(a, mat_mul(b, c))),
{
    let ab = mat_mul(a, b);
    let bc = mat_mul(b, c);
    lemma_mat_mul_proper(a, b, n);
    lemma_mat_mul_proper(b, c, n);
    assert forall|i: int, j: int| 0 <= i < n && 0 <= j < n implies same_value(#[trigger] mat_mul(ab, c)[i][j], mat_mul(a, bc)[i][j]) by {
        let g = triple_terms(a, b, c, i, j);
        assert forall|m: int, k: int| 0 <= m < n && 0 <= k < n implies (#[trigger] g(m, k)).1 > 0 by {
            lemma_denominator_product_positive(a[i][m], b[m][k]);
            lemma_denominator_product_positive(rat_mul(a[i][m], b[m][k]), c[k][j]);
        }
        // The left side, summed over the middle index last.
        lemma_dot_is_fsum(ab, c, i, j, n);
        assert forall|k: int| 0 <= k < n implies same_value(#[trigger] dot_terms(ab, c, i, j)(k), column_sums(g, n)(k)) by {
            lemma_dot_is_fsum(a, b, i, k, n);
            assert forall|m: int| 0 <= m < n implies (#[trigger] dot_terms(a, b, i, k)(m)).1 > 0 by {
                lemma_denominator_product_positive(a[i][m], b[m][k]);
            }
            lemma_fsum_scale(dot_terms(a, b, i, k), c[k][j], n);
            assert(scaled(dot_terms(a, b, i, k), c[k][j]) =~= column_of(g, k));
        }
        lemma_fsum_congruent(dot_terms(ab, c, i, j), column_sums(g, n), n);
        // The right side, summed over the last index first.
        lemma_dot_is_fsum(a, bc, i, j, n);
        assert forall|m: int| 0 <= m < n implies same_value(#[trigger] dot_terms(a, bc, i, j)(m), row_sums(g, n)(m)) by {
            lemma_dot_is_fsum(b, c, m, j, n);
            assert forall|k: int| 0 <= k < n implies (#[trigger] dot_terms(b, c, m, j)(k)).1 > 0 by {
                lemma_denominator_product_positive(b[m][k], c[k][j]);
            }
            lemma_fsum_scale(dot_terms(b, c, m, j), a[i][m], n);
            lemma_rat_mul_laws(a[i][m], fsum(dot_terms(b, c, m, j), n), a[i][m]);
            assert forall|k: int| (#[trigger] scaled(dot_terms(b, c, m, j), a[i][m])(k)) == row_of(g, m)(k) by {
                lemma_rat_mul_laws(b[m][k], c[k][j], a[i][m]);
                lemma_rat_mul_laws(a[i][m], b[m][k], c[k][j]);
                lemma_rat_mul_laws(a[i][m], rat_mul(b[m][k], c[k][j]), a[i][m]);
            }
            assert(scaled(dot_terms(b, c, m, j), a[i][m]) =~= row_of(g, m));
        }
        lemma_fsum_congruent(dot_terms(a, bc, i, j), row_sums(g, n), n);
        // Both double sums agree.
        lemma_fsum_exchange(g, n, n);
        assert forall|k: int| 0 <= k < n implies (#[trigger] column_sums(g, n)(k)).1 > 0 by {
            assert forall|m: int| 0 <= m < n implies (#[trigger] column_of(g, k)(m)).1 > 0 by {
                assert(column_of(g, k)(m) == g(m, k));
            }
            lemma_fsum_positive(column_of(g, k), n);
        }
        lemma_fsum_positive(column_sums(g, n), n);
        let left = dot(ab, c, i, j, n);
        let middle = fsum(column_sums(g, n), n);
        let right = dot(a, bc, i, j, n);
        assert(same_value(left, middle));
        assert(same_value(right, middle));
        lemma_same_value_transitive(left, middle, right);
    }
}

/// A sum whose only term with a nonzero numerator is term `p` has the value
/// of that term once `p` is included, and zero before.
proof fn lemma_single_term_sum(f: spec_fn(int) -> RationalView, n: nat, p: int, v: RationalView)
    requires
        forall|k: int| 0 <= k < n ==> (#[trigger] f(k)).1 > 0,
        forall|k: int| 0 <= k < n && k != p ==> (#[trigger] f(k)).0 == 0,
        0 <= p < n ==> same_value(f(p), v),
        v.1 > 0,
    ensures
        same_value(fsum(f, n), if p < n && 0 <= p { v } else { rat_of_int(0) }),
        fsum(f, n).1 > 0,
    decreases n,
{
    if n > 0 {
        lemma_single_term_sum(f, (n - 1) as nat, p, v);
        let previous = fsum(f, (n - 1) as nat);
        let term = f(n - 1);
        let total = rat_add(previous, term);
        assert(total.1 == previous.1 * term.1);
        lemma_denominator_product_positive(previous, term);
        if n - 1 == p {
            assert(same_value(previous, rat_of_int(0)));
            assert(previous.0 == 0) by (nonlinear_arith)
                requires
                    previous.0 * 1 == 0 * previous.1,
            ;
            assert(total.0 * v.1 == v.0 * total.1) by (nonlinear_arith)
                requires
                    total.0 == previous.0 * term.1 + term.0 * previous.1,
                    total.1 == previous.1 * term.1,
                    previous.0 == 0,
                    term.0 * v.1 == v.0 * term.1,
            ;
        } else {
            let target = if p < n && 0 <= p { v } else { rat_of_int(0) };
            assert(target == (if p < n - 1 && 0 <= p { v } else { rat_of_int(0) }));
            assert(term.0 == 0);
            assert(total.0 * target.1 == target.0 * total.1) by (nonlinear_arith)
                requires
                    total.0 == previous.0 * term.1 + term.0 * previous.1,
                    total.1 == previous.1 * term.1,
                    term.0 == 0,
                    previous.0 * target.1 == target.0 * previous.1,
            ;
        }
    }
}

/// The identity is a unit for the product on both sides, in value.
pub proof fn lemma_identity_unit(x: MatrixView, n: nat)
    requires
        proper_square(x, n),
    ensures
        same_matrix(mat_mul(identity_matrix(n), x), x),
        same_matrix(mat_mul(x, identity_matrix(n)), x),
{
    let id = identity_matrix(n);
    assert forall|i: int, j: int| 0 <= i < n && 0 <= j < n implies same_value(#[trigger] mat_mul(id, x)[i][j], x[i][j]) by {
        lemma_dot_is_fsum(id, x, i, j, n);
        let f = dot_terms(id, x, i, j);
        assert forall|k: int| 0 <= k < n implies (#[trigger] f(k)).1 > 0 && (k != i ==> f(k).0 == 0) && (k == i ==> same_value(f(k), x[i][j])) by {
            let e = id[i][k];
            assert(e == identity_entry(i, k));
            let t = x[k][j];
            assert(f(k) == rat_mul(e, t));
            assert(f(k).1 == e.1 * t.1);
            assert(f(k).0 == e.0 * t.0);
            if k == i {
                assert(f(k).0 == t.0 && f(k).1 == t.1) by (nonlinear_arith)
                    requires
                        f(k).0 == e.0 * t.0,
                        f(k).1 == e.1 * t.1,
                        e.0 == 1,
                        e.1 == 1,
                ;
            } else {
                assert(f(k).0 == 0 && f(k).1 == t.1) by (nonlinear_arith)
                    requires
                        f(k).0 == e.0 * t.0,
                        f(k).1 == e.1 * t.1,
                        e.0 == 0,
                        e.1 == 1,
                ;
            }
        }
        lemma_single_term_sum(f, n, i, x[i][j]);
    }
    assert forall|i: int, j: int| 0 <= i < n && 0 <= j < n implies same_value(#[trigger] mat_mul(x, id)[i][j], x[i][j]) by {
        lemma_dot_is_fsum(x, id, i, j, n);
        let f = dot_terms(x, id, i, j);
        assert forall|k: int| 0 <= k < n implies (#[trigger] f(k)).1 > 0 && (k != j ==> f(k).0 == 0) && (k == j ==> same_value(f(k), x[i][j])) by {
            let e = id[k][j];
            assert(e == identity_entry(k, j));
            let t = x[i][k];
            assert(f(k) == rat_mul(t, e));
            if k == j {
                assert(f(k).0 == t.0 && f(k).1 == t.1) by (nonlinear_arith)
                    requires
                        f(k).0 == t.0 * e.0,
                        f(k).1 == t.1 * e.1,
                        e.0 == 1,
                        e.1 == 1,
                ;
            } else {
                assert(f(k).0 == 0 && f(k).1 == t.1) by (nonlinear_arith)
                    requires
                        f(k).0 == t.0 * e.0,
                        f(k).1 == t.1 * e.1,
                        e.0 == 0,
                        e.1 == 1,
                ;
            }
        }
        lemma_single_term_sum(f, n, j, x[i][j]);
    }
}

} // verus!
