//! The homogeneous state space of a theory: exact square matrices over the
//! rationals, the Poincare pairing with its inverse, the action of `c_1(TX)`,
//! and the characteristic numbers entering the genus-one anomaly.

use vstd::prelude::*;
use crate::foundation::error::GwError;
use crate::foundation::rational::{
    lemma_add_congruent, lemma_denominator_product_positive, lemma_div_congruent, lemma_mul_congruent,
    lemma_same_value_transitive, lemma_sub_congruent, rat_add, rat_div, rat_mul, rat_of_int, rat_sub,
    same_value, Rational, RationalView,
};
use crate::foundation::theory::{BasisElement, BasisId};
use crate::text::string_from;

verus! {

/// A matrix as rows of fractions: `m[output][input]`.
pub type MatrixView = Seq<Seq<RationalView>>;

pub open spec fn square(m: MatrixView) -> bool {
    forall|i: int| 0 <= i < m.len() ==> #[trigger] m[i].len() == m.len()
}

/// Every entry has a positive denominator (as every `Rational` does).
pub open spec fn positive_denominators(m: MatrixView) -> bool {
    forall|i: int, j: int| 0 <= i < m.len() && 0 <= j < m[i].len() ==> (#[trigger] m[i][j]).1 > 0
}

/// The rows of a matrix given as vectors of rationals.
pub open spec fn rows_view(rows: Seq<Vec<Rational>>) -> MatrixView {
    Seq::new(rows.len(), |i: int| Seq::new(rows[i]@.len(), |j: int| rows[i]@[j]@))
}

pub open spec fn identity_entry(i: int, j: int) -> RationalView {
    if i == j {
        rat_of_int(1)
    } else {
        rat_of_int(0)
    }
}

/// `sum_{m < count} a[i][m] * b[m][j]`.
pub open spec fn dot(a: MatrixView, b: MatrixView, i: int, j: int, count: nat) -> RationalView
    decreases count,
{
    if count == 0 {
        rat_of_int(0)
    } else {
        rat_add(dot(a, b, i, j, (count - 1) as nat), rat_mul(a[i][count - 1], b[count - 1][j]))
    }
}

/// The entries of `a * b` stand for `sum_m a[i][m] b[m][j]`.
pub open spec fn is_product(p: MatrixView, a: MatrixView, b: MatrixView) -> bool {
    &&& p.len() == a.len()
    &&& square(p)
    &&& forall|i: int, j: int| 0 <= i < p.len() && 0 <= j < p.len()
        ==> same_value(#[trigger] p[i][j], dot(a, b, i, j, a.len()))
}

/// Every entry of `a` stands for the corresponding identity entry.
pub open spec fn is_identity(a: MatrixView) -> bool {
    &&& square(a)
    &&& forall|i: int, j: int| 0 <= i < a.len() && 0 <= j < a.len()
        ==> same_value(#[trigger] a[i][j], identity_entry(i, j))
}

/// Whether a `size x size` matrix of rationals passes the allocation guard:
/// `size^2` cells fit in `usize` and in the addressable allocation size.
pub open spec fn matrix_cells_fit(size: nat) -> bool {
    &&& size * size <= usize::MAX
    &&& size * size <= (isize::MAX as nat) / (if vstd::layout::size_of::<Rational>() == 0 {
        1
    } else {
        vstd::layout::size_of::<Rational>()
    })
}

/// A square matrix over the rationals acting on column vectors:
/// `entries[output][input]`.
#[derive(Debug, PartialEq, Eq)]
pub struct StateSpaceMatrix {
    entries: Vec<Vec<Rational>>,
}

impl View for StateSpaceMatrix {
    type V = MatrixView;

    closed spec fn view(&self) -> MatrixView {
        rows_view(self.entries@)
    }
}

impl Clone for StateSpaceMatrix {
    fn clone(&self) -> (m: Self)
        ensures
            m@ == self@,
    {
        proof {
            use_type_invariant(self);
        }
        let size = self.entries.len();
        let mut entries: Vec<Vec<Rational>> = Vec::new();
        while entries.len() < size
            invariant
                size == self.entries@.len(),
                forall|r: int| 0 <= r < size ==> #[trigger] self.entries@[r]@.len() == size,
                entries@.len() <= size,
                forall|r: int| 0 <= r < entries@.len() ==> #[trigger] entries@[r]@.len() == size,
                forall|r: int, j: int| 0 <= r < entries@.len() && 0 <= j < size ==> (#[trigger] entries@[r]@[j])@
                    == self.entries@[r]@[j]@,
            decreases size - entries@.len(),
        {
            let r = entries.len();
            let mut row: Vec<Rational> = Vec::new();
            while row.len() < size
                invariant
                    size == self.entries@.len(),
                    r < size,
                    self.entries@[r as int]@.len() == size,
                    row@.len() <= size,
                    forall|j: int| 0 <= j < row@.len() ==> (#[trigger] row@[j])@ == self.entries@[r as int]@[j]@,
                decreases size - row@.len(),
            {
                let j = row.len();
                row.push(self.entries[r][j].clone());
            }
            entries.push(row);
        }
        proof {
            assert forall|i: int| 0 <= i < size implies #[trigger] rows_view(entries@)[i] =~= rows_view(self.entries@)[i] by {}
            assert(rows_view(entries@) =~= rows_view(self.entries@));
        }
        let m = Self { entries };
        proof {
            assert forall|i: int| 0 <= i < size implies #[trigger] m@[i] =~= self@[i] by {}
            assert(m@ =~= self@);
        }
        m
    }
}

proof fn lemma_add_zero_product(r: RationalView, d: RationalView, z: RationalView)
    requires
        same_value(r, d),
        z.0 == 0,
    ensures
        same_value(r, rat_add(d, z)),
{
    assert(r.0 * (d.1 * z.1) == (d.0 * z.1 + z.0 * d.1) * r.1) by (nonlinear_arith)
        requires
            r.0 * d.1 == d.0 * r.1,
            z.0 == 0,
    ;
}

proof fn lemma_product_zero(a: RationalView, b: RationalView)
    requires
        a.0 == 0 || b.0 == 0,
    ensures
        rat_mul(a, b).0 == 0,
{
    assert(a.0 * b.0 == 0) by (nonlinear_arith)
        requires
            a.0 == 0 || b.0 == 0,
    ;
}

/// One accumulation step of a matrix product entry.
proof fn lemma_dot_step(
    a: MatrixView,
    b: MatrixView,
    i: int,
    j: int,
    m: nat,
    cell: RationalView,
    product: RationalView,
    updated: RationalView,
)
    requires
        cell.1 > 0,
        product.1 > 0,
        same_value(cell, dot(a, b, i, j, m)),
        same_value(product, rat_mul(a[i][m as int], b[m as int][j])),
        same_value(updated, rat_add(cell, product)),
    ensures
        same_value(updated, dot(a, b, i, j, m + 1)),
{
    lemma_add_congruent(cell, dot(a, b, i, j, m), product, rat_mul(a[i][m as int], b[m as int][j]));
    lemma_denominator_product_positive(cell, product);
    lemma_same_value_transitive(
        updated,
        rat_add(cell, product),
        rat_add(dot(a, b, i, j, m), rat_mul(a[i][m as int], b[m as int][j])),
    );
}

/// The allocation guard of a `size x size` matrix.
fn check_matrix_cells(size: usize) -> (result: Result<(), GwError>)
    ensures
        result is Ok <==> matrix_cells_fit(size as nat),
        result matches Err(e) ==> e is UnsupportedInvariant,
{
    let cells = match size.checked_mul(size) {
        Some(c) => c,
        None => {
            return Err(GwError::UnsupportedInvariant(string_from("state-space matrix size overflow")));
        },
    };
    let rational_size = core::mem::size_of::<Rational>();
    let unit = if rational_size == 0 { 1 } else { rational_size };
    if cells > (isize::MAX as usize) / unit {
        return Err(
            GwError::UnsupportedInvariant(
                string_from("state-space matrix exceeds the addressable allocation size"),
            ),
        );
    }
    Ok(())
}

/// Every `Rational` has a positive denominator; collect that fact for all
/// entries of a table.
fn note_positive_denominators(rows: &Vec<Vec<Rational>>)
    ensures
        positive_denominators(rows_view(rows@)),
{
    let mut i: usize = 0;
    while i < rows.len()
        invariant
            i <= rows@.len(),
            forall|r: int, j: int| 0 <= r < i && 0 <= j < rows@[r]@.len() ==> (#[trigger] rows@[r]@[j])@.1 > 0,
        decreases rows@.len() - i,
    {
        let mut j: usize = 0;
        while j < rows[i].len()
            invariant
                i < rows@.len(),
                j <= rows@[i as int]@.len(),
                forall|r: int, c: int| 0 <= r < i && 0 <= c < rows@[r]@.len() ==> (#[trigger] rows@[r]@[c])@.1 > 0,
                forall|c: int| 0 <= c < j ==> (#[trigger] rows@[i as int]@[c])@.1 > 0,
            decreases rows@[i as int]@.len() - j,
        {
            let cell = &rows[i][j];
            proof {
                use_type_invariant(cell);
            }
            j = j + 1;
        }
        i = i + 1;
    }
    proof {
        assert forall|r: int, c: int| 0 <= r < rows_view(rows@).len() && 0 <= c < rows_view(rows@)[r].len()
            implies (#[trigger] rows_view(rows@)[r][c]).1 > 0 by {
            assert(rows_view(rows@)[r][c] == rows@[r]@[c]@);
        }
    }
}

/// A row of `size` zeros.
fn zero_row(size: usize) -> (row: Vec<Rational>)
    ensures
        row@.len() == size,
        forall|j: int| 0 <= j < size ==> (#[trigger] row@[j])@ == rat_of_int(0),
{
    let mut row: Vec<Rational> = Vec::new();
    while row.len() < size
        invariant
            row@.len() <= size,
            forall|j: int| 0 <= j < row@.len() ==> (#[trigger] row@[j])@ == rat_of_int(0),
        decreases size - row@.len(),
    {
        row.push(Rational::zero());
    }
    row
}

impl StateSpaceMatrix {
    #[verifier::type_invariant]
    spec fn is_square_table(self) -> bool {
        &&& forall|i: int| 0 <= i < self.entries@.len() ==> #[trigger] self.entries@[i]@.len() == self.entries@.len()
        &&& positive_denominators(rows_view(self.entries@))
    }

    /// A matrix from its rows, which must form a square.
    pub fn try_new(entries: Vec<Vec<Rational>>) -> (result: Result<Self, GwError>)
        ensures
            result is Ok <==> square(rows_view(entries@)),
            result matches Ok(m) ==> m@ == rows_view(entries@),
            result matches Err(e) ==> (e matches GwError::ConventionMismatch(msg)
                && msg@ == "state-space matrix must be square"@),
    {
        let size = entries.len();
        let mut i: usize = 0;
        while i < size
            invariant
                size == entries@.len(),
                i <= size,
                forall|r: int| 0 <= r < i ==> #[trigger] entries@[r]@.len() == size,
            decreases size - i,
        {
            if entries[i].len() != size {
                proof {
                    assert(rows_view(entries@)[i as int].len() != rows_view(entries@).len());
                }
                return Err(GwError::ConventionMismatch(string_from("state-space matrix must be square")));
            }
            i = i + 1;
        }
        note_positive_denominators(&entries);
        proof {
            assert forall|r: int| 0 <= r < rows_view(entries@).len() implies #[trigger] rows_view(entries@)[r].len()
                == rows_view(entries@).len() by {
                assert(entries@[r]@.len() == size);
            }
        }
        Ok(Self { entries })
    }

    /// The zero matrix, subject to the allocation guard.
    pub fn try_zero(size: usize) -> (result: Result<Self, GwError>)
        ensures
            result is Ok <==> matrix_cells_fit(size as nat),
            result matches Ok(m) ==> m@.len() == size && square(m@) && forall|i: int, j: int|
                0 <= i < size && 0 <= j < size ==> #[trigger] m@[i][j] == rat_of_int(0),
            result matches Err(e) ==> e is UnsupportedInvariant,
    {
        check_matrix_cells(size)?;
        let mut entries: Vec<Vec<Rational>> = Vec::new();
        while entries.len() < size
            invariant
                entries@.len() <= size,
                forall|r: int| 0 <= r < entries@.len() ==> #[trigger] entries@[r]@.len() == size,
                forall|r: int, j: int| 0 <= r < entries@.len() && 0 <= j < size ==> (#[trigger] entries@[r]@[j])@
                    == rat_of_int(0),
            decreases size - entries@.len(),
        {
            entries.push(zero_row(size));
        }
        let m = Self { entries };
        proof {
            assert forall|i: int, j: int| 0 <= i < size && 0 <= j < size implies #[trigger] m@[i][j] == rat_of_int(0) by {
                assert(m.entries@[i]@[j]@ == rat_of_int(0));
            }
        }
        Ok(m)
    }

    /// The zero matrix; the allocation guard must pass.
    pub fn zero(size: usize) -> (m: Self)
        requires
            matrix_cells_fit(size as nat),
        ensures
            m@.len() == size,
            square(m@),
            forall|i: int, j: int| 0 <= i < size && 0 <= j < size ==> #[trigger] m@[i][j] == rat_of_int(0),
    {
        match Self::try_zero(size) {
            Ok(m) => m,
            Err(_) => {
                proof {
                    assert(false);
                }
                Self { entries: Vec::new() }
            },
        }
    }

    /// The identity matrix, subject to the allocation guard.
    pub fn try_identity(size: usize) -> (result: Result<Self, GwError>)
        ensures
            result is Ok <==> matrix_cells_fit(size as nat),
            result matches Ok(m) ==> m@.len() == size && square(m@) && forall|i: int, j: int|
                0 <= i < size && 0 <= j < size ==> #[trigger] m@[i][j] == identity_entry(i, j),
            result matches Err(e) ==> e is UnsupportedInvariant,
    {
        check_matrix_cells(size)?;
        let mut entries: Vec<Vec<Rational>> = Vec::new();
        while entries.len() < size
            invariant
                entries@.len() <= size,
                forall|r: int| 0 <= r < entries@.len() ==> #[trigger] entries@[r]@.len() == size,
                forall|r: int, j: int| 0 <= r < entries@.len() && 0 <= j < size ==> (#[trigger] entries@[r]@[j])@
                    == identity_entry(r, j),
            decreases size - entries@.len(),
        {
            let index = entries.len();
            let mut row = zero_row(size);
            row.set(index, Rational::one());
            entries.push(row);
        }
        let m = Self { entries };
        proof {
            assert forall|i: int, j: int| 0 <= i < size && 0 <= j < size implies #[trigger] m@[i][j] == identity_entry(i, j) by {
                assert(m.entries@[i]@[j]@ == identity_entry(i, j));
            }
        }
        Ok(m)
    }

    /// The identity matrix; the allocation guard must pass.
    pub fn identity(size: usize) -> (m: Self)
        requires
            matrix_cells_fit(size as nat),
        ensures
            m@.len() == size,
            square(m@),
            forall|i: int, j: int| 0 <= i < size && 0 <= j < size ==> #[trigger] m@[i][j] == identity_entry(i, j),
    {
        match Self::try_identity(size) {
            Ok(m) => m,
            Err(_) => {
                proof {
                    assert(false);
                }
                Self { entries: Vec::new() }
            },
        }
    }

    pub fn size(&self) -> (n: usize)
        ensures
            n == self@.len(),
            square(self@),
            positive_denominators(self@),
    {
        proof {
            use_type_invariant(self);
        }
        self.entries.len()
    }

    pub fn entry(&self, output: usize, input: usize) -> (r: &Rational)
        requires
            output < self@.len(),
            input < self@.len(),
        ensures
            r@ == self@[output as int][input as int],
    {
        proof {
            use_type_invariant(self);
        }
        &self.entries[output][input]
    }

    pub fn set_entry(&mut self, output: usize, input: usize, value: Rational)
        requires
            output < old(self)@.len(),
            input < old(self)@.len(),
        ensures
            final(self)@ == old(self)@.update(output as int, old(self)@[output as int].update(input as int, value@)),
    {
        proof {
            use_type_invariant(&*self);
        }
        proof {
            use_type_invariant(&value);
        }
        let ghost before = self.entries@;
        let mut entries: Vec<Vec<Rational>> = Vec::new();
        std::mem::swap(&mut entries, &mut self.entries);
        assert(entries@ == before);
        entries[output].set(input, value);
        proof {
            assert forall|r: int, c: int| 0 <= r < rows_view(entries@).len() && 0 <= c < rows_view(entries@)[r].len()
                implies (#[trigger] rows_view(entries@)[r][c]).1 > 0 by {
                assert(rows_view(entries@)[r][c] == entries@[r]@[c]@);
                if r != output || c != input {
                    assert(entries@[r]@[c] == before[r]@[c]);
                    assert(rows_view(before)[r][c] == before[r]@[c]@);
                }
            }
        }
        self.entries = entries;
        proof {
            let expected = old(self)@.update(output as int, old(self)@[output as int].update(input as int, value@));
            assert(self.entries@.len() == before.len());
            assert forall|i: int| 0 <= i < expected.len() implies #[trigger] self@[i] =~= expected[i] by {
                if i == output {
                    assert(self.entries@[i]@ == before[i]@.update(input as int, value));
                }
            }
            assert(self@ =~= expected);
        }
    }

    pub fn rows(&self) -> (rows: &[Vec<Rational>])
        ensures
            rows_view(rows@) == self@,
    {
        self.entries.as_slice()
    }

    /// `self * rhs` for matrices of equal size.
    pub fn multiply(&self, rhs: &Self) -> (result: Result<Self, GwError>)
        ensures
            self@.len() != rhs@.len() ==> (result matches Err(GwError::ConventionMismatch(msg))
                && msg@ == "cannot multiply state-space matrices of different sizes"@),
            self@.len() == rhs@.len() ==> (result is Ok <==> matrix_cells_fit(self@.len())),
            self@.len() == rhs@.len() && result is Err ==> result matches Err(GwError::UnsupportedInvariant(_)),
            result matches Ok(p) ==> is_product(p@, self@, rhs@),
    {
        proof {
            use_type_invariant(self);
            use_type_invariant(rhs);
        }
        let size = self.entries.len();
        if size != rhs.entries.len() {
            return Err(
                GwError::ConventionMismatch(
                    string_from("cannot multiply state-space matrices of different sizes"),
                ),
            );
        }
        check_matrix_cells(size)?;
        let ghost a = self@;
        let ghost b = rhs@;
        let mut entries: Vec<Vec<Rational>> = Vec::new();
        while entries.len() < size
            invariant
                a == self@,
                b == rhs@,
                size == a.len(),
                size == b.len(),
                square(a),
                square(b),
                entries@.len() <= size,
                forall|r: int| 0 <= r < entries@.len() ==> #[trigger] entries@[r]@.len() == size,
                forall|r: int, j: int| 0 <= r < entries@.len() && 0 <= j < size ==> same_value(
                    (#[trigger] entries@[r]@[j])@,
                    dot(a, b, r, j, size as nat),
                ),
                forall|r: int, j: int| 0 <= r < entries@.len() && 0 <= j < size ==> (#[trigger] entries@[r]@[j])@.1 > 0,
            decreases size - entries@.len(),
        {
            let output = entries.len();
            let row = self.product_row(rhs, output);
            entries.push(row);
        }
        let p = Self { entries };
        proof {
            assert forall|i: int, j: int| 0 <= i < p@.len() && 0 <= j < p@.len() implies same_value(
                #[trigger] p@[i][j],
                dot(a, b, i, j, a.len()),
            ) by {
                assert(p@[i][j] == p.entries@[i]@[j]@);
            }
        }
        Ok(p)
    }

    /// Row `output` of `self * rhs`.
    fn product_row(&self, rhs: &Self, output: usize) -> (row: Vec<Rational>)
        requires
            self@.len() == rhs@.len(),
            output < self@.len(),
        ensures
            row@.len() == self@.len(),
            forall|j: int| 0 <= j < self@.len() ==> same_value(
                (#[trigger] row@[j])@,
                dot(self@, rhs@, output as int, j, self@.len()),
            ),
            forall|j: int| 0 <= j < self@.len() ==> (#[trigger] row@[j])@.1 > 0,
    {
        proof {
            use_type_invariant(self);
            use_type_invariant(rhs);
        }
        let size = self.entries.len();
        let ghost a = self@;
        let ghost b = rhs@;
        let mut row = zero_row(size);
        let mut middle: usize = 0;
        while middle < size
            invariant
                a == self@,
                b == rhs@,
                size == a.len(),
                size == b.len(),
                square(a),
                square(b),
                output < size,
                middle <= size,
                row@.len() == size,
                forall|j: int| 0 <= j < size ==> same_value((#[trigger] row@[j])@, dot(a, b, output as int, j, middle as nat)),
                forall|j: int| 0 <= j < size ==> (#[trigger] row@[j])@.1 > 0,
            decreases size - middle,
        {
            proof {
                use_type_invariant(self);
                use_type_invariant(rhs);
            }
            let left = &self.entries[output][middle];
            proof {
                use_type_invariant(left);
                assert(left@ == a[output as int][middle as int]);
            }
            if left.is_zero() {
                proof {
                    assert forall|j: int| 0 <= j < size implies same_value(
                        (#[trigger] row@[j])@,
                        dot(a, b, output as int, j, middle as nat + 1),
                    ) by {
                        lemma_product_zero(a[output as int][middle as int], b[middle as int][j]);
                        lemma_add_zero_product(
                            row@[j]@,
                            dot(a, b, output as int, j, middle as nat),
                            rat_mul(a[output as int][middle as int], b[middle as int][j]),
                        );
                    }
                }
            } else {
                let ghost before = row@;
                let mut input: usize = 0;
                while input < size
                    invariant
                        a == self@,
                        b == rhs@,
                        size == a.len(),
                        size == b.len(),
                        square(a),
                        square(b),
                        output < size,
                        middle < size,
                        input <= size,
                        left@ == a[output as int][middle as int],
                        row@.len() == size,
                        before.len() == size,
                        forall|j: int| input <= j < size ==> #[trigger] row@[j] == before[j],
                        forall|j: int| 0 <= j < size ==> same_value((#[trigger] before[j])@, dot(a, b, output as int, j, middle as nat)),
                        forall|j: int| 0 <= j < input ==> same_value((#[trigger] row@[j])@, dot(a, b, output as int, j, middle as nat + 1)),
                        forall|j: int| 0 <= j < size ==> (#[trigger] row@[j])@.1 > 0,
                    decreases size - input,
                {
                    proof {
                        use_type_invariant(rhs);
                    }
                    let right = &rhs.entries[middle][input];
                    proof {
                        assert(right@ == b[middle as int][input as int]);
                    }
                    if right.is_zero() {
                        proof {
                            lemma_product_zero(a[output as int][middle as int], b[middle as int][input as int]);
                            lemma_add_zero_product(
                                row@[input as int]@,
                                dot(a, b, output as int, input as int, middle as nat),
                                rat_mul(a[output as int][middle as int], b[middle as int][input as int]),
                            );
                        }
                    } else {
                        let cell = &row[input];
                        let product = left.mul(right);
                        let updated = cell.add(&product);
                        proof {
                            use_type_invariant(cell);
                            use_type_invariant(&product);
                            use_type_invariant(&updated);
                            lemma_dot_step(a, b, output as int, input as int, middle as nat, row@[input as int]@, product@, updated@);
                        }
                        row.set(input, updated);
                    }
                    input = input + 1;
                }
            }
            middle = middle + 1;
        }
        row
    }
}

proof fn lemma_dot_denominator(a: MatrixView, b: MatrixView, i: int, j: int, count: nat)
    requires
        square(a),
        square(b),
        a.len() == b.len(),
        positive_denominators(a),
        positive_denominators(b),
        0 <= i < a.len(),
        0 <= j < a.len(),
        count <= a.len(),
    ensures
        dot(a, b, i, j, count).1 > 0,
    decreases count,
{
    if count > 0 {
        let m = count - 1;
        lemma_dot_denominator(a, b, i, j, (count - 1) as nat);
        assert(a[i][m].1 > 0);
        assert(b[m][j].1 > 0);
        lemma_denominator_product_positive(a[i][m], b[m][j]);
        lemma_denominator_product_positive(dot(a, b, i, j, (count - 1) as nat), rat_mul(a[i][m], b[m][j]));
    }
}

/// The exact matrix product `a * b`.
pub open spec fn mat_mul(a: MatrixView, b: MatrixView) -> MatrixView {
    Seq::new(a.len(), |i: int| Seq::new(a.len(), |j: int| dot(a, b, i, j, a.len())))
}

/// The identity matrix of size `n`.
pub open spec fn identity_matrix(n: nat) -> MatrixView {
    Seq::new(n, |i: int| Seq::new(n, |j: int| identity_entry(i, j)))
}

/// Entrywise equality of the numbers of two matrices of the same shape.
pub open spec fn same_matrix(a: MatrixView, b: MatrixView) -> bool {
    &&& a.len() == b.len()
    &&& forall|i: int| 0 <= i < a.len() ==> (#[trigger] a[i]).len() == b[i].len()
    &&& forall|i: int, j: int| 0 <= i < a.len() && 0 <= j < a[i].len() ==> same_value(#[trigger] a[i][j], b[i][j])
}

/// `m^e` by binary powering: the product, over the binary digits of `e`
/// from the lowest, of the squares `m^(2^i)` whose digit is one.
pub open spec fn binary_power(result: MatrixView, base: MatrixView, e: nat) -> MatrixView
    decreases e,
{
    if e == 0 {
        result
    } else {
        let next = if e % 2 == 1 { mat_mul(result, base) } else { result };
        if e / 2 == 0 {
            next
        } else {
            binary_power(next, mat_mul(base, base), e / 2)
        }
    }
}

/// `b` is an inverse of `a`: `sum_m a[i][m] b[m][j]` is the identity.
pub open spec fn is_inverse_pair(a: MatrixView, b: MatrixView) -> bool {
    forall|i: int, j: int| 0 <= i < a.len() && 0 <= j < a.len() ==> same_value(
        #[trigger] dot(a, b, i, j, a.len()),
        identity_entry(i, j),
    )
}

impl StateSpaceMatrix {
    /// Entrywise equality of the numbers (the rationals are in lowest terms,
    /// so this is also equality of their representations).
    pub fn same_entries(&self, other: &Self) -> (equal: bool)
        ensures
            equal == (self@.len() == other@.len() && forall|i: int, j: int|
                0 <= i < self@.len() && 0 <= j < self@.len() ==> same_value(#[trigger] self@[i][j], other@[i][j])),
    {
        proof {
            use_type_invariant(self);
            use_type_invariant(other);
        }
        let size = self.entries.len();
        if size != other.entries.len() {
            return false;
        }
        let mut i: usize = 0;
        while i < size
            invariant
                size == self@.len(),
                size == other@.len(),
                square(self@),
                square(other@),
                i <= size,
                forall|r: int, c: int| 0 <= r < i && 0 <= c < size ==> same_value(#[trigger] self@[r][c], other@[r][c]),
            decreases size - i,
        {
            proof {
                use_type_invariant(self);
                use_type_invariant(other);
            }
            let mut j: usize = 0;
            while j < size
                invariant
                    size == self@.len(),
                    size == other@.len(),
                    square(self@),
                    square(other@),
                    i < size,
                    j <= size,
                    forall|r: int, c: int| 0 <= r < i && 0 <= c < size ==> same_value(#[trigger] self@[r][c], other@[r][c]),
                    forall|c: int| 0 <= c < j ==> same_value(#[trigger] self@[i as int][c], other@[i as int][c]),
                decreases size - j,
            {
                proof {
                    use_type_invariant(self);
                    use_type_invariant(other);
                }
                if !self.entries[i][j].equals(&other.entries[i][j]) {
                    proof {
                        assert(self@[i as int][j as int] == self.entries@[i as int]@[j as int]@);
                        assert(other@[i as int][j as int] == other.entries@[i as int]@[j as int]@);
                    }
                    return false;
                }
                proof {
                    assert(self@[i as int][j as int] == self.entries@[i as int]@[j as int]@);
                    assert(other@[i as int][j as int] == other.entries@[i as int]@[j as int]@);
                }
                j = j + 1;
            }
            i = i + 1;
        }
        true
    }
}

/// Whether `metric * inverse` stands for the identity, checked exactly.
pub(crate) fn check_inverse(metric: &StateSpaceMatrix, inverse: &StateSpaceMatrix) -> (result: Result<bool, GwError>)
    requires
        metric@.len() == inverse@.len(),
    ensures
        result is Ok <==> matrix_cells_fit(metric@.len()),
        result matches Ok(b) ==> (b == is_inverse_pair(metric@, inverse@)),
        result matches Err(e) ==> e is UnsupportedInvariant,
{
    let n = metric.size();
    let _ = inverse.size();
    let product = match metric.multiply(inverse) {
        Ok(p) => p,
        Err(e) => return Err(e),
    };
    let identity = StateSpaceMatrix::try_identity(n)?;
    let _ = product.size();
    let _ = identity.size();
    let equal = product.same_entries(&identity);
    proof {
        let a = metric@;
        let b = inverse@;
        let p = product@;
        if equal {
            assert forall|i: int, j: int| 0 <= i < a.len() && 0 <= j < a.len() implies same_value(
                #[trigger] dot(a, b, i, j, a.len()),
                identity_entry(i, j),
            ) by {
                assert(same_value(p[i][j], identity@[i][j]));
                assert(p[i][j].1 > 0);
                lemma_same_value_transitive(dot(a, b, i, j, a.len()), p[i][j], identity_entry(i, j));
            }
        } else {
            if is_inverse_pair(a, b) {
                assert forall|i: int, j: int| 0 <= i < n && 0 <= j < n implies same_value(
                    #[trigger] p[i][j],
                    identity@[i][j],
                ) by {
                    lemma_dot_denominator(a, b, i, j, a.len());
                    assert(same_value(dot(a, b, i, j, a.len()), identity_entry(i, j)));
                    lemma_same_value_transitive(p[i][j], dot(a, b, i, j, a.len()), identity_entry(i, j));
                }
            }
        }
    }
    Ok(equal)
}

/// A Poincare pairing together with its inverse.
#[derive(Debug, Clone, PartialEq, Eq)]
pub struct NondegeneratePairing {
    pub metric: StateSpaceMatrix,
    pub inverse: StateSpaceMatrix,
}

impl NondegeneratePairing {
    /// A pairing whose claimed inverse is checked exactly.
    pub fn try_new(metric: StateSpaceMatrix, inverse: StateSpaceMatrix) -> (result: Result<Self, GwError>)
        ensures
            metric@.len() != inverse@.len() ==> (result matches Err(GwError::ConventionMismatch(m))
                && m@ == "pairing and inverse pairing have different sizes"@),
            metric@.len() == inverse@.len() && !matrix_cells_fit(metric@.len()) ==> result matches Err(
                GwError::UnsupportedInvariant(_),
            ),
            metric@.len() == inverse@.len() && matrix_cells_fit(metric@.len()) && !is_inverse_pair(metric@, inverse@)
                ==> (result matches Err(GwError::ConventionMismatch(m))
                && m@ == "claimed inverse Poincare pairing is not an inverse"@),
            result matches Ok(p) ==> p.metric@ == metric@ && p.inverse@ == inverse@
                && is_inverse_pair(metric@, inverse@),
            result is Ok <==> metric@.len() == inverse@.len() && matrix_cells_fit(metric@.len())
                && is_inverse_pair(metric@, inverse@),
    {
        if metric.size() != inverse.size() {
            return Err(
                GwError::ConventionMismatch(string_from("pairing and inverse pairing have different sizes")),
            );
        }
        let valid = check_inverse(&metric, &inverse)?;
        if !valid {
            return Err(
                GwError::ConventionMismatch(string_from("claimed inverse Poincare pairing is not an inverse")),
            );
        }
        Ok(Self { metric, inverse })
    }
}

/// Basis ids are dense and agree with the basis order.
pub open spec fn dense_basis(basis: Seq<BasisElement>) -> bool {
    forall|i: int| 0 <= i < basis.len() ==> (#[trigger] basis[i]).id == BasisId(i as usize)
}

/// The data `StateSpace::try_new` accepts.
pub open spec fn valid_state_space(
    basis: Seq<BasisElement>,
    unit: BasisId,
    pairing: Option<NondegeneratePairing>,
    c1_action: Option<StateSpaceMatrix>,
) -> bool {
    &&& basis.len() > 0
    &&& dense_basis(basis)
    &&& unit.0 < basis.len()
    &&& (pairing matches Some(p) ==> {
        &&& p.metric@.len() == p.inverse@.len()
        &&& matrix_cells_fit(p.metric@.len())
        &&& is_inverse_pair(p.metric@, p.inverse@)
        &&& p.metric@.len() == basis.len()
    })
    &&& (c1_action matches Some(c) ==> c@.len() == basis.len())
}

/// The homogeneous state space: basis, unit, pairing and `c_1` action.
#[derive(Debug, Clone, PartialEq, Eq)]
pub struct StateSpace {
    pub basis: Vec<BasisElement>,
    pub unit: BasisId,
    /// `None` is meaningful: for example, a local theory must supply its
    /// twisted pairing before the compact Virasoro generator may be used.
    pub pairing: Option<NondegeneratePairing>,
    /// Cup product by `c_1(TX)`, in output-row/input-column convention.
    pub c1_action: Option<StateSpaceMatrix>,
}

impl StateSpace {
    pub fn try_new(
        basis: Vec<BasisElement>,
        unit: BasisId,
        pairing: Option<NondegeneratePairing>,
        c1_action: Option<StateSpaceMatrix>,
    ) -> (result: Result<Self, GwError>)
        ensures
            result is Ok <==> valid_state_space(basis@, unit, pairing, c1_action),
            result matches Ok(s) ==> s.basis@ == basis@ && s.unit == unit && s.pairing == pairing
                && s.c1_action == c1_action,
            basis@.len() == 0 ==> (result matches Err(GwError::ConventionMismatch(m))
                && m@ == "state space must contain the unit"@),
            basis@.len() > 0 && !dense_basis(basis@) ==> (result matches Err(GwError::ConventionMismatch(m))
                && m@ == "basis ids must be dense and agree with basis order"@),
            basis@.len() > 0 && dense_basis(basis@) && unit.0 >= basis@.len() ==> (result matches Err(
                GwError::ConventionMismatch(m),
            ) && m@ == "unit basis id is outside the state space"@),
    {
        if basis.len() == 0 {
            return Err(GwError::ConventionMismatch(string_from("state space must contain the unit")));
        }
        let mut index: usize = 0;
        while index < basis.len()
            invariant
                index <= basis@.len(),
                forall|i: int| 0 <= i < index ==> (#[trigger] basis@[i]).id == BasisId(i as usize),
            decreases basis@.len() - index,
        {
            if basis[index].id.0 != index {
                return Err(
                    GwError::ConventionMismatch(string_from("basis ids must be dense and agree with basis order")),
                );
            }
            index = index + 1;
        }
        if unit.0 >= basis.len() {
            return Err(GwError::ConventionMismatch(string_from("unit basis id is outside the state space")));
        }
        if let Some(p) = &pairing {
            if p.metric.size() != p.inverse.size() {
                return Err(
                    GwError::ConventionMismatch(string_from("state-space pairing does not contain a valid inverse")),
                );
            }
            let valid = check_inverse(&p.metric, &p.inverse)?;
            if !valid {
                return Err(
                    GwError::ConventionMismatch(string_from("state-space pairing does not contain a valid inverse")),
                );
            }
            if p.metric.size() != basis.len() {
                return Err(
                    GwError::ConventionMismatch(string_from("geometric matrix size does not match the basis")),
                );
            }
        }
        if let Some(c) = &c1_action {
            if c.size() != basis.len() {
                return Err(
                    GwError::ConventionMismatch(string_from("geometric matrix size does not match the basis")),
                );
            }
        }
        Ok(Self { basis, unit, pairing, c1_action })
    }

    pub fn element(&self, id: BasisId) -> (e: Option<&BasisElement>)
        ensures
            id.0 < self.basis@.len() ==> e == Some(&self.basis@[id.0 as int]),
            id.0 >= self.basis@.len() ==> e is None,
    {
        if id.0 < self.basis.len() {
            Some(&self.basis[id.0])
        } else {
            None
        }
    }
}

/// `((3 - n) c_n - 2 c_1 c_{n-1}) / 48`, the genus-one constant of `L_0`.
pub open spec fn anomaly_value(top: RationalView, c1c: RationalView, dimension: int) -> RationalView {
    rat_div(rat_sub(rat_mul(rat_of_int(3 - dimension), top), rat_mul(rat_of_int(2), c1c)), rat_of_int(48))
}

/// The characteristic numbers of the target entering the Virasoro anomaly.
#[derive(Debug, Clone, PartialEq, Eq)]
pub struct CharacteristicNumbers {
    pub top_chern_integral: Rational,
    pub c1_c_dim_minus_one_integral: Rational,
    pub convention: String,
    pub source: String,
}

impl CharacteristicNumbers {
    pub fn virasoro_anomaly(&self, dimension: usize) -> (r: Rational)
        ensures
            same_value(r@, anomaly_value(self.top_chern_integral@, self.c1_c_dim_minus_one_integral@, dimension as int)),
    {
        let top = &self.top_chern_integral;
        let c1c = &self.c1_c_dim_minus_one_integral;
        let shift = Rational::from_i128(3i128 - dimension as i128);
        let two = Rational::from_i128(2);
        let forty_eight = Rational::from_i128(48);
        let first = shift.mul(top);
        let second = two.mul(c1c);
        let difference = first.sub(&second);
        proof {
            use_type_invariant(&forty_eight);
            assert(forty_eight@.0 != 0) by (nonlinear_arith)
                requires
                    forty_eight@.0 * 1 == 48 * forty_eight@.1,
                    forty_eight@.1 > 0,
            ;
        }
        let r = difference.div(&forty_eight);
        proof {
            use_type_invariant(top);
            use_type_invariant(c1c);
            use_type_invariant(&shift);
            use_type_invariant(&two);
            use_type_invariant(&first);
            use_type_invariant(&second);
            use_type_invariant(&difference);
            use_type_invariant(&forty_eight);
            let a = rat_mul(rat_of_int(3 - dimension as int), top@);
            let b = rat_mul(rat_of_int(2), c1c@);
            lemma_mul_congruent(shift@, rat_of_int(3 - dimension as int), top@, top@);
            lemma_denominator_product_positive(shift@, top@);
            lemma_same_value_transitive(first@, rat_mul(shift@, top@), a);
            lemma_mul_congruent(two@, rat_of_int(2), c1c@, c1c@);
            lemma_denominator_product_positive(two@, c1c@);
            lemma_same_value_transitive(second@, rat_mul(two@, c1c@), b);
            lemma_sub_congruent(first@, a, second@, b);
            lemma_denominator_product_positive(first@, second@);
            lemma_same_value_transitive(difference@, rat_sub(first@, second@), rat_sub(a, b));
            lemma_div_congruent(difference@, rat_sub(a, b), forty_eight@, rat_of_int(48));
            assert(forty_eight@.0 != 0);
            assert(rat_div(difference@, forty_eight@).1 != 0) by (nonlinear_arith)
                requires
                    difference@.1 > 0,
                    forty_eight@.0 != 0,
                    rat_div(difference@, forty_eight@).1 == (if forty_eight@.0 >= 0 {
                        difference@.1 * forty_eight@.0
                    } else {
                        -(difference@.1 * forty_eight@.0)
                    }),
            ;
            lemma_same_value_transitive(r@, rat_div(difference@, forty_eight@), anomaly_value(top@, c1c@, dimension as int));
        }
        r
    }
}

proof fn lemma_dot_congruent(a: MatrixView, a2: MatrixView, b: MatrixView, b2: MatrixView, i: int, j: int, count: nat)
    requires
        same_matrix(a, a2),
        same_matrix(b, b2),
        square(a),
        square(b),
        a.len() == b.len(),
        0 <= i < a.len(),
        0 <= j < a.len(),
        count <= a.len(),
    ensures
        same_value(dot(a, b, i, j, count), dot(a2, b2, i, j, count)),
    decreases count,
{
    if count > 0 {
        let m = count - 1;
        lemma_dot_congruent(a, a2, b, b2, i, j, (count - 1) as nat);
        assert(same_value(a[i][m], a2[i][m]));
        assert(same_value(b[m][j], b2[m][j]));
        lemma_mul_congruent(a[i][m], a2[i][m], b[m][j], b2[m][j]);
        lemma_add_congruent(
            dot(a, b, i, j, (count - 1) as nat),
            dot(a2, b2, i, j, (count - 1) as nat),
            rat_mul(a[i][m], b[m][j]),
            rat_mul(a2[i][m], b2[m][j]),
        );
    }
}

/// A computed product stands for the exact product of matrices standing for
/// its factors.
proof fn lemma_product_tracks(p: MatrixView, a: MatrixView, b: MatrixView, a2: MatrixView, b2: MatrixView)
    requires
        is_product(p, a, b),
        square(a),
        square(b),
        a.len() == b.len(),
        positive_denominators(a),
        positive_denominators(b),
        same_matrix(a, a2),
        same_matrix(b, b2),
    ensures
        same_matrix(p, mat_mul(a2, b2)),
{
    let n = a.len();
    assert forall|i: int, j: int| 0 <= i < n && 0 <= j < n implies same_value(#[trigger] p[i][j], mat_mul(a2, b2)[i][j]) by {
        lemma_dot_congruent(a, a2, b, b2, i, j, n);
        lemma_dot_denominator(a, b, i, j, n);
        lemma_same_value_transitive(p[i][j], dot(a, b, i, j, n), dot(a2, b2, i, j, n));
    }
}

impl StateSpaceMatrix {
    /// `self^exponent` by repeated squaring, subject to the allocation guard.
    pub fn pow(&self, exponent: usize) -> (result: Result<Self, GwError>)
        ensures
            result is Ok <==> matrix_cells_fit(self@.len()),
            result matches Ok(p) ==> p@.len() == self@.len() && same_matrix(
                p@,
                binary_power(identity_matrix(self@.len()), self@, exponent as nat),
            ),
            result matches Err(e) ==> e is UnsupportedInvariant,
    {
        let n = self.size();
        let mut result = Self::try_identity(n)?;
        let mut base = self.clone();
        let mut e = exponent;
        let ghost target = binary_power(identity_matrix(n as nat), self@, exponent as nat);
        let ghost mut r_spec = identity_matrix(n as nat);
        let ghost mut b_spec = self@;
        proof {
            assert(same_matrix(result@, r_spec));
            assert forall|i: int| 0 <= i < n implies (#[trigger] base@[i]).len() == self@[i].len() by {}
        }
        while e > 0
            invariant
                n == self@.len(),
                matrix_cells_fit(n as nat),
                result@.len() == n,
                base@.len() == n,
                same_matrix(result@, r_spec),
                same_matrix(base@, b_spec),
                r_spec.len() == n,
                b_spec.len() == n,
                binary_power(r_spec, b_spec, e as nat) == target,
            decreases e,
        {
            let _ = result.size();
            let _ = base.size();
            if e % 2 == 1 {
                let next = match result.multiply(&base) {
                    Ok(m) => m,
                    Err(_) => {
                        proof {
                            assert(false);
                        }
                        return Err(GwError::UnsupportedInvariant(string_from("state-space matrix size overflow")));
                    },
                };
                proof {
                    lemma_product_tracks(next@, result@, base@, r_spec, b_spec);
                    r_spec = mat_mul(r_spec, b_spec);
                }
                result = next;
            }
            let ghost old_e = e;
            e = e / 2;
            if e > 0 {
                let _ = base.size();
                let squared = match base.multiply(&base) {
                    Ok(m) => m,
                    Err(_) => {
                        proof {
                            assert(false);
                        }
                        return Err(GwError::UnsupportedInvariant(string_from("state-space matrix size overflow")));
                    },
                };
                proof {
                    lemma_product_tracks(squared@, base@, base@, b_spec, b_spec);
                    b_spec = mat_mul(b_spec, b_spec);
                }
                base = squared;
            }
        }
        Ok(result)
    }
}

} // verus!
