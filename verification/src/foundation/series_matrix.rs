//! Matrices whose entries are truncated `q`-series, all with the same
//! truncation.

use vstd::prelude::*;
use crate::foundation::error::GwError;
use crate::foundation::rational::{
    lemma_add_congruent, lemma_add_zero_numerator, lemma_same_value_transitive, rat_add, rat_mul, rat_of_int, same_value,
    Rational, RationalView,
};
use crate::foundation::series::{
    constant_series, convolution, difference_series, integrated_series, lemma_product_positive, negated_series,
    positive_coefficients, product_series, q_derivative_series, same_series, sum_series, zero_series,
    QSeries, SeriesView,
};

verus! {

/// Entry `[r][c]` of a series matrix.
pub type MatrixView = Seq<Seq<SeriesView>>;

/// `rows x cols` entries, each a series with `len` coefficients.
pub open spec fn matrix_shape(m: MatrixView, rows: nat, cols: nat, len: nat) -> bool {
    &&& m.len() == rows
    &&& forall|r: int| 0 <= r < rows ==> (#[trigger] m[r]).len() == cols
    &&& forall|r: int, c: int| 0 <= r < rows && 0 <= c < cols ==> (#[trigger] m[r][c]).len() == len
}

/// A rectangular matrix of truncated series.
#[derive(Debug, PartialEq, Eq)]
pub struct SeriesMatrix {
    rows: usize,
    cols: usize,
    entries: Vec<Vec<QSeries>>,
}

/// Series matrices with plain rational coefficients.
pub type RationalSeriesMatrix = SeriesMatrix;

impl View for SeriesMatrix {
    type V = MatrixView;

    closed spec fn view(&self) -> MatrixView {
        Seq::new(self.rows as nat, |r: int| Seq::new(self.cols as nat, |c: int| self.entries@[r]@[c]@))
    }
}

impl SeriesMatrix {
    /// The rows all have `cols` entries and every entry has the truncation
    /// of the first one.
    #[verifier::type_invariant]
    spec fn well_shaped(self) -> bool {
        &&& self.entries@.len() == self.rows
        &&& forall|r: int| 0 <= r < self.rows ==> (#[trigger] self.entries@[r]).len() == self.cols
        &&& forall|r: int, c: int| 0 <= r < self.rows && 0 <= c < self.cols
            ==> (#[trigger] self.entries@[r]@[c])@.len() == self.entries@[0]@[0]@.len()
        &&& self.rows > 0 && self.cols > 0 ==> self.entries@[0]@[0]@.len() >= 1
    }

    pub closed spec fn row_count(&self) -> nat {
        self.rows as nat
    }

    pub closed spec fn col_count(&self) -> nat {
        self.cols as nat
    }

    /// The truncation degree of the entries; zero for a matrix without
    /// entries.
    pub closed spec fn degree(&self) -> nat {
        if self.rows > 0 && self.cols > 0 {
            (self.entries@[0]@[0]@.len() - 1) as nat
        } else {
            0
        }
    }
}

/// `rows` rows of `cols` zero series.
fn zero_rows(rows: usize, cols: usize, max_degree: usize) -> (out: Vec<Vec<QSeries>>)
    requires
        max_degree < usize::MAX,
    ensures
        out@.len() == rows,
        forall|r: int| 0 <= r < rows ==> (#[trigger] out@[r]).len() == cols,
        forall|r: int, c: int| 0 <= r < rows && 0 <= c < cols
            ==> (#[trigger] out@[r]@[c])@ == zero_series(max_degree as nat + 1),
{
    let mut out: Vec<Vec<QSeries>> = Vec::new();
    let mut r: usize = 0;
    while r < rows
        invariant
            r <= rows,
            max_degree < usize::MAX,
            out@.len() == r,
            forall|i: int| 0 <= i < r ==> (#[trigger] out@[i]).len() == cols,
            forall|i: int, c: int| 0 <= i < r && 0 <= c < cols
                ==> (#[trigger] out@[i]@[c])@ == zero_series(max_degree as nat + 1),
        decreases rows - r,
    {
        let mut row: Vec<QSeries> = Vec::new();
        let mut c: usize = 0;
        while c < cols
            invariant
                c <= cols,
                max_degree < usize::MAX,
                row@.len() == c,
                forall|j: int| 0 <= j < c ==> (#[trigger] row@[j])@ == zero_series(max_degree as nat + 1),
            decreases cols - c,
        {
            row.push(QSeries::zero(max_degree));
            c = c + 1;
        }
        out.push(row);
        r = r + 1;
    }
    out
}

impl SeriesMatrix {
    /// The `rows x cols` zero matrix.
    pub fn zero(rows: usize, cols: usize, max_degree: usize) -> (m: Self)
        requires
            max_degree < usize::MAX,
        ensures
            m.row_count() == rows,
            m.col_count() == cols,
            m.degree() == (if rows > 0 && cols > 0 { max_degree as nat } else { 0 }),
            matrix_shape(m@, rows as nat, cols as nat, max_degree as nat + 1),
            forall|r: int, c: int| 0 <= r < rows && 0 <= c < cols
                ==> (#[trigger] m@[r][c]) == zero_series(max_degree as nat + 1),
    {
        let entries = zero_rows(rows, cols, max_degree);
        SeriesMatrix { rows, cols, entries }
    }

    pub fn rows(&self) -> (n: usize)
        ensures
            n == self.row_count(),
    {
        self.rows
    }

    pub fn cols(&self) -> (n: usize)
        ensures
            n == self.col_count(),
    {
        self.cols
    }
}

/// The values of nested rows of series.
pub open spec fn nested_views(e: Seq<Vec<QSeries>>) -> MatrixView {
    Seq::new(e.len(), |r: int| Seq::new(e[r]@.len(), |c: int| e[r]@[c]@))
}

/// The rows of a `size x size` matrix with `diag(r)` on the diagonal and
/// the zero series elsewhere.
fn identity_rows(size: usize, max_degree: usize) -> (out: Vec<Vec<QSeries>>)
    requires
        max_degree < usize::MAX,
    ensures
        out@.len() == size,
        forall|r: int| 0 <= r < size ==> (#[trigger] out@[r]).len() == size,
        forall|r: int, c: int| 0 <= r < size && 0 <= c < size
            ==> (#[trigger] out@[r]@[c])@ == (if r == c { constant_series(rat_of_int(1), max_degree as nat + 1) } else { zero_series(max_degree as nat + 1) }),
{
    let mut out: Vec<Vec<QSeries>> = Vec::new();
    let mut r: usize = 0;
    while r < size
        invariant
            r <= size,
            max_degree < usize::MAX,
            out@.len() == r,
            forall|i: int| 0 <= i < r ==> (#[trigger] out@[i]).len() == size,
            forall|i: int, c: int| 0 <= i < r && 0 <= c < size
                ==> (#[trigger] out@[i]@[c])@ == (if i == c { constant_series(rat_of_int(1), max_degree as nat + 1) } else { zero_series(max_degree as nat + 1) }),
        decreases size - r,
    {
        let mut row: Vec<QSeries> = Vec::new();
        let mut c: usize = 0;
        while c < size
            invariant
                c <= size,
                r < size,
                max_degree < usize::MAX,
                row@.len() == c,
                forall|j: int| 0 <= j < c ==> (#[trigger] row@[j])@ == (if r == j { constant_series(rat_of_int(1), max_degree as nat + 1) } else { zero_series(max_degree as nat + 1) }),
            decreases size - c,
        {
            if c == r {
                row.push(QSeries::one(max_degree));
            } else {
                row.push(QSeries::zero(max_degree));
            }
            c = c + 1;
        }
        out.push(row);
        r = r + 1;
    }
    out
}

impl SeriesMatrix {
    /// The `size x size` identity matrix.
    pub fn identity(size: usize, max_degree: usize) -> (m: Self)
        requires
            max_degree < usize::MAX,
        ensures
            m.row_count() == size,
            m.col_count() == size,
            m.degree() == (if size > 0 { max_degree as nat } else { 0 }),
            matrix_shape(m@, size as nat, size as nat, max_degree as nat + 1),
            forall|r: int, c: int| 0 <= r < size && 0 <= c < size
                ==> (#[trigger] m@[r][c]) == (if r == c { constant_series(rat_of_int(1), max_degree as nat + 1) } else { zero_series(max_degree as nat + 1) }),
    {
        let entries = identity_rows(size, max_degree);
        SeriesMatrix { rows: size, cols: size, entries }
    }

    /// The matrix with these rows; every row has the length of the first,
    /// and every entry the truncation of the first entry.
    pub fn from_entries(entries: Vec<Vec<QSeries>>) -> (m: Self)
        requires
            forall|r: int| 0 <= r < entries@.len() ==> (#[trigger] entries@[r]).len() == entries@[0].len(),
            forall|r: int, c: int| 0 <= r < entries@.len() && 0 <= c < entries@[0].len()
                ==> (#[trigger] entries@[r]@[c])@.len() == entries@[0]@[0]@.len(),
        ensures
            m.row_count() == entries@.len(),
            m.col_count() == (if entries@.len() > 0 { entries@[0].len() } else { 0 }),
            m@ == nested_views(entries@),
            m.degree() == (if m.row_count() > 0 && m.col_count() > 0 { (entries@[0]@[0]@.len() - 1) as nat } else { 0 }),
    {
        let rows = entries.len();
        let cols = if rows > 0 { entries[0].len() } else { 0 };
        if rows > 0 && cols > 0 {
            entries[0][0].check_denominators();
        }
        let m = SeriesMatrix { rows, cols, entries };
        proof {
            assert(m@ =~= nested_views(m.entries@));
        }
        m
    }

    /// The matrix of constant series with these values.
    pub fn constant(values: Vec<Vec<Rational>>, max_degree: usize) -> (m: Self)
        requires
            max_degree < usize::MAX,
            forall|r: int| 0 <= r < values@.len() ==> (#[trigger] values@[r]).len() == values@[0].len(),
        ensures
            m.row_count() == values@.len(),
            m.col_count() == (if values@.len() > 0 { values@[0].len() } else { 0 }),
            m.degree() == (if m.row_count() > 0 && m.col_count() > 0 { max_degree as nat } else { 0 }),
            matrix_shape(m@, m.row_count(), m.col_count(), max_degree as nat + 1),
            forall|r: int, c: int| 0 <= r < m.row_count() && 0 <= c < m.col_count()
                ==> (#[trigger] m@[r][c]) == constant_series(values@[r]@[c]@, max_degree as nat + 1),
    {
        let rows = values.len();
        let cols = if rows > 0 { values[0].len() } else { 0 };
        let mut entries: Vec<Vec<QSeries>> = Vec::new();
        let mut r: usize = 0;
        while r < rows
            invariant
                r <= rows,
                rows == values@.len(),
                cols == (if values@.len() > 0 { values@[0].len() } else { 0 }),
                max_degree < usize::MAX,
                forall|i: int| 0 <= i < values@.len() ==> (#[trigger] values@[i]).len() == values@[0].len(),
                entries@.len() == r,
                forall|i: int| 0 <= i < r ==> (#[trigger] entries@[i]).len() == cols,
                forall|i: int, c: int| 0 <= i < r && 0 <= c < cols
                    ==> (#[trigger] entries@[i]@[c])@ == constant_series(values@[i]@[c]@, max_degree as nat + 1),
            decreases rows - r,
        {
            let mut row: Vec<QSeries> = Vec::new();
            let mut c: usize = 0;
            while c < cols
                invariant
                    c <= cols,
                    r < rows,
                    rows == values@.len(),
                    cols == values@[r as int].len(),
                    max_degree < usize::MAX,
                    row@.len() == c,
                    forall|j: int| 0 <= j < c ==> (#[trigger] row@[j])@ == constant_series(values@[r as int]@[j]@, max_degree as nat + 1),
                decreases cols - c,
            {
                row.push(QSeries::constant(values[r][c].clone(), max_degree));
                c = c + 1;
            }
            entries.push(row);
            r = r + 1;
        }
        let m = SeriesMatrix { rows, cols, entries };
        proof {
            assert forall|i: int, c: int| 0 <= i < rows && 0 <= c < cols implies (#[trigger] m@[i][c]) == constant_series(values@[i]@[c]@, max_degree as nat + 1) by {
                assert(m@[i][c] == m.entries@[i]@[c]@);
            }
        }
        m
    }

    /// The square matrix with these series on the diagonal, which all have
    /// the same truncation, and zero elsewhere.
    pub fn diagonal(diagonal: Vec<QSeries>) -> (m: Self)
        requires
            forall|i: int| 0 <= i < diagonal@.len() ==> (#[trigger] diagonal@[i])@.len() == diagonal@[0]@.len(),
        ensures
            m.row_count() == diagonal@.len(),
            m.col_count() == diagonal@.len(),
            m.degree() == (if diagonal@.len() > 0 { (diagonal@[0]@.len() - 1) as nat } else { 0 }),
            forall|r: int, c: int| 0 <= r < diagonal@.len() && 0 <= c < diagonal@.len()
                ==> (#[trigger] m@[r][c]) == (if r == c { diagonal@[r]@ } else { zero_series(m.degree() + 1) }),
    {
        let size = diagonal.len();
        let max_degree = if size > 0 { diagonal[0].max_degree() } else { 0 };
        if size > 0 {
            let first = &diagonal[0];
            first.check_denominators();
        }
        let mut entries: Vec<Vec<QSeries>> = Vec::new();
        let mut r: usize = 0;
        while r < size
            invariant
                r <= size,
                size == diagonal@.len(),
                size > 0 ==> max_degree + 1 == diagonal@[0]@.len(),
                size == 0 ==> max_degree == 0,
                max_degree < usize::MAX,
                forall|i: int| 0 <= i < diagonal@.len() ==> (#[trigger] diagonal@[i])@.len() == diagonal@[0]@.len(),
                entries@.len() == r,
                forall|i: int| 0 <= i < r ==> (#[trigger] entries@[i]).len() == size,
                forall|i: int, c: int| 0 <= i < r && 0 <= c < size
                    ==> (#[trigger] entries@[i]@[c])@ == (if i == c { diagonal@[i]@ } else { zero_series(max_degree as nat + 1) }),
            decreases size - r,
        {
            let mut row: Vec<QSeries> = Vec::new();
            let mut c: usize = 0;
            while c < size
                invariant
                    c <= size,
                    r < size,
                    size == diagonal@.len(),
                    max_degree < usize::MAX,
                    row@.len() == c,
                    forall|j: int| 0 <= j < c ==> (#[trigger] row@[j])@ == (if r == j { diagonal@[r as int]@ } else { zero_series(max_degree as nat + 1) }),
                decreases size - c,
            {
                if c == r {
                    row.push(diagonal[r].clone());
                } else {
                    row.push(QSeries::zero(max_degree));
                }
                c = c + 1;
            }
            entries.push(row);
            r = r + 1;
        }
        let m = SeriesMatrix { rows: size, cols: size, entries };
        proof {
            assert forall|i: int, c: int| 0 <= i < size && 0 <= c < size implies (#[trigger] m@[i][c]) == (if i == c { diagonal@[i]@ } else { zero_series(m.degree() + 1) }) by {
                assert(m@[i][c] == m.entries@[i]@[c]@);
            }
        }
        m
    }

    /// The entry in this row and column.
    pub fn entry(&self, row: usize, col: usize) -> (e: &QSeries)
        requires
            row < self.row_count(),
            col < self.col_count(),
        ensures
            e@ == self@[row as int][col as int],
    {
        proof {
            use_type_invariant(self);
        }
        &self.entries[row][col]
    }

    /// The rows of entries.
    pub fn entries(&self) -> (e: &[Vec<QSeries>])
        ensures
            nested_views(e@) == self@,
            e@.len() == self.row_count(),
    {
        proof {
            use_type_invariant(self);
            assert(nested_views(self.entries@) =~= self@);
        }
        self.entries.as_slice()
    }

    /// The truncation degree of the entries, zero when there are none.
    pub fn max_degree(&self) -> (d: usize)
        ensures
            d == self.degree(),
            d < usize::MAX,
    {
        proof {
            use_type_invariant(self);
        }
        if self.rows > 0 && self.cols > 0 {
            self.entries[0][0].max_degree()
        } else {
            0
        }
    }
}

/// Nested rows of series: `rows` rows of `cols` series, each with `len`
/// coefficients.
spec fn uniform(e: Seq<Vec<QSeries>>, rows: nat, cols: nat, len: nat) -> bool {
    &&& e.len() == rows
    &&& forall|r: int| 0 <= r < rows ==> (#[trigger] e[r]).len() == cols
    &&& forall|r: int, c: int| 0 <= r < rows && 0 <= c < cols ==> (#[trigger] e[r]@[c])@.len() == len
}

impl SeriesMatrix {
    /// The length shared by the entries' coefficient lists.
    spec fn entry_len(&self) -> nat {
        if self.rows > 0 && self.cols > 0 {
            self.entries@[0]@[0]@.len()
        } else {
            0
        }
    }

    proof fn lemma_uniform(&self)
        requires
            self.well_shaped(),
        ensures
            uniform(self.entries@, self.rows as nat, self.cols as nat, self.entry_len()),
            self.rows > 0 && self.cols > 0 ==> self.entry_len() == self.degree() + 1,
    {
    }
}

impl Clone for SeriesMatrix {
    fn clone(&self) -> (m: Self)
        ensures
            m@ == self@,
            m.row_count() == self.row_count(),
            m.col_count() == self.col_count(),
            m.degree() == self.degree(),
    {
        proof {
            use_type_invariant(self);
            self.lemma_uniform();
        }
        let ghost len = self.entry_len();
        let mut entries: Vec<Vec<QSeries>> = Vec::new();
        let mut r: usize = 0;
        while r < self.rows
            invariant
                r <= self.rows,
                uniform(self.entries@, self.rows as nat, self.cols as nat, len),
                entries@.len() == r,
                forall|i: int| 0 <= i < r ==> (#[trigger] entries@[i]).len() == self.cols,
                forall|i: int, c: int| 0 <= i < r && 0 <= c < self.cols
                    ==> (#[trigger] entries@[i]@[c])@ == self.entries@[i]@[c]@,
            decreases self.rows - r,
        {
            let mut row: Vec<QSeries> = Vec::new();
            let mut c: usize = 0;
            while c < self.cols
                invariant
                    c <= self.cols,
                    r < self.rows,
                    uniform(self.entries@, self.rows as nat, self.cols as nat, len),
                    row@.len() == c,
                    forall|j: int| 0 <= j < c ==> (#[trigger] row@[j])@ == self.entries@[r as int]@[j]@,
                decreases self.cols - c,
            {
                row.push(self.entries[r][c].clone());
                c = c + 1;
            }
            entries.push(row);
            r = r + 1;
        }
        let m = SeriesMatrix { rows: self.rows, cols: self.cols, entries };
        proof {
            assert(m@ =~~= self@);
        }
        m
    }
}

impl SeriesMatrix {
    /// The transposed matrix.
    pub fn transpose(&self) -> (m: Self)
        ensures
            m.row_count() == self.col_count(),
            m.col_count() == self.row_count(),
            m.degree() == self.degree(),
            forall|r: int, c: int| 0 <= r < self.col_count() && 0 <= c < self.row_count()
                ==> (#[trigger] m@[r][c]) == self@[c][r],
    {
        proof {
            use_type_invariant(self);
            self.lemma_uniform();
        }
        let ghost len = self.entry_len();
        let mut entries: Vec<Vec<QSeries>> = Vec::new();
        let mut r: usize = 0;
        while r < self.cols
            invariant
                r <= self.cols,
                uniform(self.entries@, self.rows as nat, self.cols as nat, len),
                entries@.len() == r,
                forall|i: int| 0 <= i < r ==> (#[trigger] entries@[i]).len() == self.rows,
                forall|i: int, c: int| 0 <= i < r && 0 <= c < self.rows
                    ==> (#[trigger] entries@[i]@[c])@ == self.entries@[c]@[i]@,
            decreases self.cols - r,
        {
            let mut row: Vec<QSeries> = Vec::new();
            let mut c: usize = 0;
            while c < self.rows
                invariant
                    c <= self.rows,
                    r < self.cols,
                    uniform(self.entries@, self.rows as nat, self.cols as nat, len),
                    row@.len() == c,
                    forall|j: int| 0 <= j < c ==> (#[trigger] row@[j])@ == self.entries@[j]@[r as int]@,
                decreases self.rows - c,
            {
                row.push(self.entries[c][r].clone());
                c = c + 1;
            }
            entries.push(row);
            r = r + 1;
        }
        let m = SeriesMatrix { rows: self.cols, cols: self.rows, entries };
        m
    }

    /// Entrywise `q d/dq`.
    pub fn q_derivative(&self) -> (m: Self)
        ensures
            m.row_count() == self.row_count(),
            m.col_count() == self.col_count(),
            m.degree() == self.degree(),
            forall|r: int, c: int| 0 <= r < self.row_count() && 0 <= c < self.col_count()
                ==> same_series(#[trigger] m@[r][c], q_derivative_series(self@[r][c])),
    {
        proof {
            use_type_invariant(self);
            self.lemma_uniform();
        }
        let ghost len = self.entry_len();
        let mut entries: Vec<Vec<QSeries>> = Vec::new();
        let mut r: usize = 0;
        while r < self.rows
            invariant
                r <= self.rows,
                uniform(self.entries@, self.rows as nat, self.cols as nat, len),
                uniform(entries@, r as nat, self.cols as nat, len),
                forall|i: int, c: int| 0 <= i < r && 0 <= c < self.cols
                    ==> same_series(#[trigger] entries@[i]@[c]@, q_derivative_series(self.entries@[i]@[c]@)),
            decreases self.rows - r,
        {
            let mut row: Vec<QSeries> = Vec::new();
            let mut c: usize = 0;
            while c < self.cols
                invariant
                    c <= self.cols,
                    r < self.rows,
                    uniform(self.entries@, self.rows as nat, self.cols as nat, len),
                    row@.len() == c,
                    forall|j: int| 0 <= j < c ==> (#[trigger] row@[j])@.len() == len,
                    forall|j: int| 0 <= j < c ==> same_series(#[trigger] row@[j]@, q_derivative_series(self.entries@[r as int]@[j]@)),
                decreases self.cols - c,
            {
                row.push(self.entries[r][c].q_derivative());
                c = c + 1;
            }
            entries.push(row);
            r = r + 1;
        }
        SeriesMatrix { rows: self.rows, cols: self.cols, entries }
    }

    /// Entrywise negation.
    pub fn neg(&self) -> (m: Self)
        ensures
            m.row_count() == self.row_count(),
            m.col_count() == self.col_count(),
            m.degree() == self.degree(),
            forall|r: int, c: int| 0 <= r < self.row_count() && 0 <= c < self.col_count()
                ==> same_series(#[trigger] m@[r][c], negated_series(self@[r][c])),
    {
        proof {
            use_type_invariant(self);
            self.lemma_uniform();
        }
        let ghost len = self.entry_len();
        let mut entries: Vec<Vec<QSeries>> = Vec::new();
        let mut r: usize = 0;
        while r < self.rows
            invariant
                r <= self.rows,
                uniform(self.entries@, self.rows as nat, self.cols as nat, len),
                uniform(entries@, r as nat, self.cols as nat, len),
                forall|i: int, c: int| 0 <= i < r && 0 <= c < self.cols
                    ==> same_series(#[trigger] entries@[i]@[c]@, negated_series(self.entries@[i]@[c]@)),
            decreases self.rows - r,
        {
            let mut row: Vec<QSeries> = Vec::new();
            let mut c: usize = 0;
            while c < self.cols
                invariant
                    c <= self.cols,
                    r < self.rows,
                    uniform(self.entries@, self.rows as nat, self.cols as nat, len),
                    row@.len() == c,
                    forall|j: int| 0 <= j < c ==> (#[trigger] row@[j])@.len() == len,
                    forall|j: int| 0 <= j < c ==> same_series(#[trigger] row@[j]@, negated_series(self.entries@[r as int]@[j]@)),
                decreases self.cols - c,
            {
                row.push(self.entries[r][c].neg());
                c = c + 1;
            }
            entries.push(row);
            r = r + 1;
        }
        SeriesMatrix { rows: self.rows, cols: self.cols, entries }
    }

    /// Entrywise sum of two matrices of one shape and truncation.
    pub fn add(&self, rhs: &Self) -> (m: Self)
        requires
            self.row_count() == rhs.row_count(),
            self.col_count() == rhs.col_count(),
            self.degree() == rhs.degree(),
        ensures
            m.row_count() == self.row_count(),
            m.col_count() == self.col_count(),
            m.degree() == self.degree(),
            forall|r: int, c: int| 0 <= r < self.row_count() && 0 <= c < self.col_count()
                ==> same_series(#[trigger] m@[r][c], sum_series(self@[r][c], rhs@[r][c])),
    {
        proof {
            use_type_invariant(self);
            use_type_invariant(rhs);
            self.lemma_uniform();
            rhs.lemma_uniform();
        }
        let ghost len = self.entry_len();
        let mut entries: Vec<Vec<QSeries>> = Vec::new();
        let mut r: usize = 0;
        while r < self.rows
            invariant
                r <= self.rows,
                self.rows == rhs.rows,
                self.cols == rhs.cols,
                uniform(self.entries@, self.rows as nat, self.cols as nat, len),
                uniform(rhs.entries@, self.rows as nat, self.cols as nat, len),
                uniform(entries@, r as nat, self.cols as nat, len),
                forall|i: int, c: int| 0 <= i < r && 0 <= c < self.cols
                    ==> same_series(#[trigger] entries@[i]@[c]@, sum_series(self.entries@[i]@[c]@, rhs.entries@[i]@[c]@)),
            decreases self.rows - r,
        {
            let mut row: Vec<QSeries> = Vec::new();
            let mut c: usize = 0;
            while c < self.cols
                invariant
                    c <= self.cols,
                    r < self.rows,
                    self.rows == rhs.rows,
                    self.cols == rhs.cols,
                    uniform(self.entries@, self.rows as nat, self.cols as nat, len),
                    uniform(rhs.entries@, self.rows as nat, self.cols as nat, len),
                    row@.len() == c,
                    forall|j: int| 0 <= j < c ==> (#[trigger] row@[j])@.len() == len,
                    forall|j: int| 0 <= j < c ==> same_series(#[trigger] row@[j]@, sum_series(self.entries@[r as int]@[j]@, rhs.entries@[r as int]@[j]@)),
                decreases self.cols - c,
            {
                row.push(self.entries[r][c].add(&rhs.entries[r][c]));
                c = c + 1;
            }
            entries.push(row);
            r = r + 1;
        }
        SeriesMatrix { rows: self.rows, cols: self.cols, entries }
    }

    /// Add `rhs` entrywise into this matrix.
    pub fn add_assign(&mut self, rhs: &Self)
        requires
            old(self).row_count() == rhs.row_count(),
            old(self).col_count() == rhs.col_count(),
            old(self).degree() == rhs.degree(),
        ensures
            final(self).row_count() == old(self).row_count(),
            final(self).col_count() == old(self).col_count(),
            final(self).degree() == old(self).degree(),
            forall|r: int, c: int| 0 <= r < old(self).row_count() && 0 <= c < old(self).col_count()
                ==> same_series(#[trigger] final(self)@[r][c], sum_series(old(self)@[r][c], rhs@[r][c])),
    {
        let sum = self.add(rhs);
        *self = sum;
    }

    /// Entrywise difference of two matrices of one shape and truncation.
    pub fn sub(&self, rhs: &Self) -> (m: Self)
        requires
            self.row_count() == rhs.row_count(),
            self.col_count() == rhs.col_count(),
            self.degree() == rhs.degree(),
        ensures
            m.row_count() == self.row_count(),
            m.col_count() == self.col_count(),
            m.degree() == self.degree(),
            forall|r: int, c: int| 0 <= r < self.row_count() && 0 <= c < self.col_count()
                ==> same_series(#[trigger] m@[r][c], difference_series(self@[r][c], rhs@[r][c])),
    {
        proof {
            use_type_invariant(self);
            use_type_invariant(rhs);
            self.lemma_uniform();
            rhs.lemma_uniform();
        }
        let ghost len = self.entry_len();
        let mut entries: Vec<Vec<QSeries>> = Vec::new();
        let mut r: usize = 0;
        while r < self.rows
            invariant
                r <= self.rows,
                self.rows == rhs.rows,
                self.cols == rhs.cols,
                uniform(self.entries@, self.rows as nat, self.cols as nat, len),
                uniform(rhs.entries@, self.rows as nat, self.cols as nat, len),
                uniform(entries@, r as nat, self.cols as nat, len),
                forall|i: int, c: int| 0 <= i < r && 0 <= c < self.cols
                    ==> same_series(#[trigger] entries@[i]@[c]@, difference_series(self.entries@[i]@[c]@, rhs.entries@[i]@[c]@)),
            decreases self.rows - r,
        {
            let mut row: Vec<QSeries> = Vec::new();
            let mut c: usize = 0;
            while c < self.cols
                invariant
                    c <= self.cols,
                    r < self.rows,
                    self.rows == rhs.rows,
                    self.cols == rhs.cols,
                    uniform(self.entries@, self.rows as nat, self.cols as nat, len),
                    uniform(rhs.entries@, self.rows as nat, self.cols as nat, len),
                    row@.len() == c,
                    forall|j: int| 0 <= j < c ==> (#[trigger] row@[j])@.len() == len,
                    forall|j: int| 0 <= j < c ==> same_series(#[trigger] row@[j]@, difference_series(self.entries@[r as int]@[j]@, rhs.entries@[r as int]@[j]@)),
                decreases self.cols - c,
            {
                row.push(self.entries[r][c].sub(&rhs.entries[r][c]));
                c = c + 1;
            }
            entries.push(row);
            r = r + 1;
        }
        SeriesMatrix { rows: self.rows, cols: self.cols, entries }
    }

    /// Every coefficient of every entry is zero.
    pub fn is_zero(&self) -> (z: bool)
        ensures
            z == forall|r: int, c: int, i: int| 0 <= r < self.row_count() && 0 <= c < self.col_count() && 0 <= i < self@[r][c].len()
                ==> (#[trigger] self@[r][c][i]).0 == 0,
    {
        proof {
            use_type_invariant(self);
        }
        let mut r: usize = 0;
        while r < self.rows
            invariant
                r <= self.rows,
                self.entries@.len() == self.rows,
                forall|i: int| 0 <= i < self.rows ==> (#[trigger] self.entries@[i]).len() == self.cols,
                forall|i: int, c: int, k: int| 0 <= i < r && 0 <= c < self.cols && 0 <= k < self@[i][c].len()
                    ==> (#[trigger] self@[i][c][k]).0 == 0,
            decreases self.rows - r,
        {
            let mut c: usize = 0;
            while c < self.cols
                invariant
                    c <= self.cols,
                    r < self.rows,
                    self.entries@.len() == self.rows,
                    forall|i: int| 0 <= i < self.rows ==> (#[trigger] self.entries@[i]).len() == self.cols,
                    forall|i: int, j: int, k: int| 0 <= i < r && 0 <= j < self.cols && 0 <= k < self@[i][j].len()
                        ==> (#[trigger] self@[i][j][k]).0 == 0,
                    forall|j: int, k: int| 0 <= j < c && 0 <= k < self@[r as int][j].len()
                        ==> (#[trigger] self@[r as int][j][k]).0 == 0,
                decreases self.cols - c,
            {
                let zero = self.entries[r][c].is_zero();
                proof {
                    assert(self@[r as int][c as int] == self.entries@[r as int]@[c as int]@);
                }
                if !zero {
                    return false;
                }
                c = c + 1;
            }
            r = r + 1;
        }
        true
    }

    /// For rational coefficients, structural zero is zero.
    pub fn is_structurally_zero(&self) -> (z: bool)
        ensures
            z == forall|r: int, c: int, i: int| 0 <= r < self.row_count() && 0 <= c < self.col_count() && 0 <= i < self@[r][c].len()
                ==> (#[trigger] self@[r][c][i]).0 == 0,
    {
        self.is_zero()
    }
}

/// Entry `[r][c]` of the product of `a` and `b`, summed over the first `n`
/// inner indices: `sum_{k < n} a[r][k] b[k][c]`, starting from the zero
/// series with `len` coefficients.
pub open spec fn entry_product_sum(a: MatrixView, b: MatrixView, r: int, c: int, n: nat, len: nat) -> SeriesView
    decreases n,
{
    if n == 0 {
        zero_series(len)
    } else {
        sum_series(entry_product_sum(a, b, r, c, (n - 1) as nat, len), product_series(a[r][n - 1], b[n - 1][c]))
    }
}

/// A product with a factor whose coefficients are all zero has zero
/// numerators.
proof fn lemma_convolution_zero(a: SeriesView, b: SeriesView, d: int, k: nat)
    requires
        a.len() == b.len(),
        0 <= d < a.len(),
        k <= d + 1,
        (forall|i: int| 0 <= i < a.len() ==> (#[trigger] a[i]).0 == 0)
            || (forall|i: int| 0 <= i < b.len() ==> (#[trigger] b[i]).0 == 0),
    ensures
        convolution(a, b, d, k).0 == 0,
    decreases k,
{
    if k > 0 {
        lemma_convolution_zero(a, b, d, (k - 1) as nat);
        let x = a[k - 1];
        let y = b[d - (k - 1)];
        let m = rat_mul(x, y);
        let prev = convolution(a, b, d, (k - 1) as nat);
        assert(x.0 == 0 || y.0 == 0);
        assert(m.0 == 0) by (nonlinear_arith)
            requires
                m.0 == x.0 * y.0,
                x.0 == 0 || y.0 == 0,
        ;
        assert(rat_add(prev, m).0 == 0) by (nonlinear_arith)
            requires
                rat_add(prev, m).0 == prev.0 * m.1 + m.0 * prev.1,
                prev.0 == 0,
                m.0 == 0,
        ;
    }
}

impl SeriesMatrix {
    /// The matrix product; the inner dimensions agree and both factors have
    /// the same truncation.
    pub fn mul(&self, rhs: &Self) -> (m: Self)
        requires
            self.col_count() == rhs.row_count(),
            self.degree() == rhs.degree(),
        ensures
            m.row_count() == self.row_count(),
            m.col_count() == rhs.col_count(),
            m.degree() == (if self.row_count() > 0 && rhs.col_count() > 0 { self.degree() } else { 0 }),
            forall|r: int, c: int| 0 <= r < self.row_count() && 0 <= c < rhs.col_count()
                ==> same_series(#[trigger] m@[r][c], entry_product_sum(self@, rhs@, r, c, self.col_count(), self.degree() + 1)),
    {
        proof {
            use_type_invariant(self);
            use_type_invariant(rhs);
            self.lemma_uniform();
            rhs.lemma_uniform();
        }
        let max_degree = self.max_degree();
        let ghost len = max_degree as nat + 1;
        let ghost a = self@;
        let ghost b = rhs@;
        let mut entries: Vec<Vec<QSeries>> = Vec::new();
        let mut r: usize = 0;
        while r < self.rows
            invariant
                r <= self.rows,
                self.cols == rhs.rows,
                max_degree < usize::MAX,
                len == max_degree + 1,
                a == self@,
                b == rhs@,
                self.cols > 0 ==> uniform(self.entries@, self.rows as nat, self.cols as nat, len),
                self.cols > 0 && rhs.cols > 0 ==> uniform(rhs.entries@, rhs.rows as nat, rhs.cols as nat, len),
                self.entries@.len() == self.rows,
                forall|i: int| 0 <= i < self.rows ==> (#[trigger] self.entries@[i]).len() == self.cols,
                rhs.entries@.len() == rhs.rows,
                forall|i: int| 0 <= i < rhs.rows ==> (#[trigger] rhs.entries@[i]).len() == rhs.cols,
                uniform(entries@, r as nat, rhs.cols as nat, len),
                forall|i: int, c: int| 0 <= i < r && 0 <= c < rhs.cols
                    ==> same_series(#[trigger] entries@[i]@[c]@, entry_product_sum(a, b, i, c, self.cols as nat, len)),
            decreases self.rows - r,
        {
            let mut row: Vec<QSeries> = Vec::new();
            let mut c: usize = 0;
            while c < rhs.cols
                invariant
                    c <= rhs.cols,
                    r < self.rows,
                    self.cols == rhs.rows,
                    max_degree < usize::MAX,
                    len == max_degree + 1,
                    a == self@,
                    b == rhs@,
                    self.cols > 0 ==> uniform(self.entries@, self.rows as nat, self.cols as nat, len),
                    self.cols > 0 && rhs.cols > 0 ==> uniform(rhs.entries@, rhs.rows as nat, rhs.cols as nat, len),
                    self.entries@.len() == self.rows,
                    forall|i: int| 0 <= i < self.rows ==> (#[trigger] self.entries@[i]).len() == self.cols,
                    rhs.entries@.len() == rhs.rows,
                    forall|i: int| 0 <= i < rhs.rows ==> (#[trigger] rhs.entries@[i]).len() == rhs.cols,
                    row@.len() == c,
                    forall|j: int| 0 <= j < c ==> (#[trigger] row@[j])@.len() == len,
                    forall|j: int| 0 <= j < c ==> same_series(#[trigger] row@[j]@, entry_product_sum(a, b, r as int, j, self.cols as nat, len)),
                decreases rhs.cols - c,
            {
                let mut total = QSeries::zero(max_degree);
                let mut k: usize = 0;
                while k < self.cols
                    invariant
                        k <= self.cols,
                        r < self.rows,
                        c < rhs.cols,
                        self.cols == rhs.rows,
                        len == max_degree + 1,
                        a == self@,
                        b == rhs@,
                        self.cols > 0 ==> uniform(self.entries@, self.rows as nat, self.cols as nat, len),
                        self.cols > 0 && rhs.cols > 0 ==> uniform(rhs.entries@, rhs.rows as nat, rhs.cols as nat, len),
                        self.entries@.len() == self.rows,
                        forall|i: int| 0 <= i < self.rows ==> (#[trigger] self.entries@[i]).len() == self.cols,
                        rhs.entries@.len() == rhs.rows,
                        forall|i: int| 0 <= i < rhs.rows ==> (#[trigger] rhs.entries@[i]).len() == rhs.cols,
                        total@.len() == len,
                        same_series(total@, entry_product_sum(a, b, r as int, c as int, k as nat, len)),
                    decreases self.cols - k,
                {
                    let left = &self.entries[r][k];
                    let right = &rhs.entries[k][c];
                    left.check_denominators();
                    right.check_denominators();
                    total.check_denominators();
                    let ghost before = total@;
                    let ghost s = entry_product_sum(a, b, r as int, c as int, k as nat, len);
                    let ghost p = product_series(left@, right@);
                    proof {
                        assert(a[r as int][k as int] == left@);
                        assert(b[k as int][c as int] == right@);
                        assert(entry_product_sum(a, b, r as int, c as int, (k + 1) as nat, len) == sum_series(s, p));
                        lemma_product_positive(left@, right@);
                    }
                    if left.is_structurally_zero() || right.is_structurally_zero() {
                        proof {
                            assert forall|i: int| 0 <= i < len implies same_value(#[trigger] before[i], sum_series(s, p)[i]) by {
                                lemma_convolution_zero(left@, right@, i, (i + 1) as nat);
                                lemma_add_zero_numerator(before[i], s[i], p[i]);
                            }
                        }
                    } else {
                        total.add_product_assign(left, right);
                        proof {
                            assert forall|i: int| 0 <= i < len implies same_value(#[trigger] total@[i], sum_series(s, p)[i]) by {
                                lemma_add_congruent(before[i], s[i], p[i], p[i]);
                                assert(rat_add(before[i], p[i]).1 == before[i].1 * p[i].1);
                                assert(before[i].1 * p[i].1 > 0) by (nonlinear_arith)
                                    requires
                                        before[i].1 > 0,
                                        p[i].1 > 0,
                                ;
                                lemma_same_value_transitive(total@[i], rat_add(before[i], p[i]), rat_add(s[i], p[i]));
                            }
                        }
                    }
                    k = k + 1;
                }
                row.push(total);
                c = c + 1;
            }
            entries.push(row);
            r = r + 1;
        }
        SeriesMatrix { rows: self.rows, cols: rhs.cols, entries }
    }
}

/// Integrate `q d/dq` entrywise with zero integration constants; refused
/// when some entry has a nonzero constant term.
pub fn integrate_q_derivative_zero_constant_matrix(matrix: &SeriesMatrix) -> (r: Result<SeriesMatrix, GwError>)
    ensures
        r is Err <==> exists|i: int, j: int| 0 <= i < matrix.row_count() && 0 <= j < matrix.col_count()
            && (#[trigger] matrix@[i][j])[0].0 != 0,
        r matches Err(e) ==> (e matches GwError::AlgebraFailure(m)
            && m@ == "cannot integrate q d/dq with nonzero constant term and zero integration constant"@),
        r matches Ok(m) ==> {
            &&& m.row_count() == matrix.row_count()
            &&& m.col_count() == matrix.col_count()
            &&& m.degree() == matrix.degree()
            &&& forall|i: int, j: int| 0 <= i < matrix.row_count() && 0 <= j < matrix.col_count()
                ==> same_series(#[trigger] m@[i][j], integrated_series(matrix@[i][j]))
        },
{
    proof {
        use_type_invariant(matrix);
        matrix.lemma_uniform();
    }
    let ghost len = matrix.entry_len();
    let mut entries: Vec<Vec<QSeries>> = Vec::new();
    let mut r: usize = 0;
    while r < matrix.rows
        invariant
            r <= matrix.rows,
            uniform(matrix.entries@, matrix.rows as nat, matrix.cols as nat, len),
            uniform(entries@, r as nat, matrix.cols as nat, len),
            forall|i: int, j: int| 0 <= i < r && 0 <= j < matrix.cols ==> (#[trigger] matrix@[i][j])[0].0 == 0,
            forall|i: int, j: int| 0 <= i < r && 0 <= j < matrix.cols
                ==> same_series(#[trigger] entries@[i]@[j]@, integrated_series(matrix.entries@[i]@[j]@)),
        decreases matrix.rows - r,
    {
        let mut row: Vec<QSeries> = Vec::new();
        let mut c: usize = 0;
        while c < matrix.cols
            invariant
                c <= matrix.cols,
                r < matrix.rows,
                uniform(matrix.entries@, matrix.rows as nat, matrix.cols as nat, len),
                row@.len() == c,
                forall|j: int| 0 <= j < c ==> (#[trigger] row@[j])@.len() == len,
                forall|j: int| 0 <= j < c ==> (#[trigger] matrix@[r as int][j])[0].0 == 0,
                forall|j: int| 0 <= j < c ==> same_series(#[trigger] row@[j]@, integrated_series(matrix.entries@[r as int]@[j]@)),
            decreases matrix.cols - c,
        {
            proof {
                assert(matrix@[r as int][c as int] == matrix.entries@[r as int]@[c as int]@);
            }
            match matrix.entries[r][c].integrate_q_derivative_zero_constant() {
                Ok(series) => {
                    row.push(series);
                },
                Err(e) => {
                    return Err(e);
                },
            }
            c = c + 1;
        }
        entries.push(row);
        r = r + 1;
    }
    let m = SeriesMatrix { rows: matrix.rows, cols: matrix.cols, entries };
    Ok(m)
}

/// The `n x n` identity matrix of series with `len` coefficients.
pub open spec fn identity_view(n: nat, len: nat) -> MatrixView {
    Seq::new(n, |i: int| Seq::new(n, |j: int| if i == j { constant_series(rat_of_int(1), len) } else { zero_series(len) }))
}

/// `sum_{i < k} x[i] 1[d - i]` is zero until `k` passes `d`, then `x[d]`.
proof fn lemma_convolution_unit(x: SeriesView, d: int, k: nat)
    requires
        0 <= d < x.len(),
        k <= d + 1,
        positive_coefficients(x),
    ensures
        same_value(convolution(x, constant_series(rat_of_int(1), x.len()), d, k), if k == d + 1 { x[d] } else { rat_of_int(0) }),
        convolution(x, constant_series(rat_of_int(1), x.len()), d, k).1 > 0,
    decreases k,
{
    let one = constant_series(rat_of_int(1), x.len());
    if k > 0 {
        lemma_convolution_unit(x, d, (k - 1) as nat);
        let previous = convolution(x, one, d, (k - 1) as nat);
        let a = x[k - 1];
        let b = one[d - (k - 1)];
        let m = rat_mul(a, b);
        assert(convolution(x, one, d, k) == rat_add(previous, m));
        assert(a.1 > 0);
        if k - 1 < d {
            assert(b == rat_of_int(0));
            assert(m.0 == 0 && m.1 == a.1) by (nonlinear_arith)
                requires
                    m.0 == a.0 * b.0,
                    m.1 == a.1 * b.1,
                    b.0 == 0,
                    b.1 == 1,
            ;
            lemma_add_zero_numerator(rat_of_int(0), previous, m);
            assert(same_value(previous, rat_of_int(0)));
            let total = rat_add(previous, m);
            assert(total.0 == previous.0 * m.1 + m.0 * previous.1);
            assert(total.0 == 0) by (nonlinear_arith)
                requires
                    total.0 == previous.0 * m.1 + m.0 * previous.1,
                    m.0 == 0,
                    previous.0 * 1 == 0 * previous.1,
            ;
            assert(total.1 > 0) by (nonlinear_arith)
                requires
                    total.1 == previous.1 * m.1,
                    previous.1 > 0,
                    m.1 > 0,
            ;
        } else {
            assert(b == rat_of_int(1));
            assert(m.0 == a.0 && m.1 == a.1) by (nonlinear_arith)
                requires
                    m.0 == a.0 * b.0,
                    m.1 == a.1 * b.1,
                    b.0 == 1,
                    b.1 == 1,
            ;
            let total = rat_add(previous, m);
            assert(previous.0 == 0) by (nonlinear_arith)
                requires
                    previous.0 * 1 == 0 * previous.1,
            ;
            assert(total.0 * a.1 == a.0 * total.1) by (nonlinear_arith)
                requires
                    total.0 == previous.0 * m.1 + m.0 * previous.1,
                    total.1 == previous.1 * m.1,
                    previous.0 == 0,
                    m.0 == a.0,
                    m.1 == a.1,
            ;
            assert(total.1 > 0) by (nonlinear_arith)
                requires
                    total.1 == previous.1 * m.1,
                    previous.1 > 0,
                    m.1 > 0,
            ;
        }
    }
}

/// A product with the zero series has zero numerators and positive
/// denominators.
proof fn lemma_product_with_zero(x: SeriesView)
    requires
        positive_coefficients(x),
    ensures
        forall|d: int| 0 <= d < x.len() ==> (#[trigger] product_series(x, zero_series(x.len()))[d]).0 == 0,
        positive_coefficients(product_series(x, zero_series(x.len()))),
{
    let z = zero_series(x.len());
    lemma_product_positive(x, z);
    assert forall|d: int| 0 <= d < x.len() implies (#[trigger] product_series(x, z)[d]).0 == 0 by {
        lemma_convolution_zero(x, z, d, (d + 1) as nat);
    }
}

/// `sum_{j < k} m[r][j] I[j][c]` is zero until `k` passes `c`, then
/// `m[r][c]`, with positive denominators throughout.
proof fn lemma_identity_partial_sum(m: MatrixView, rows: nat, n: nat, len: nat, r: int, c: int, k: nat)
    requires
        matrix_shape(m, rows, n, len),
        0 <= r < rows,
        0 <= c < n,
        k <= n,
        forall|i: int, j: int| 0 <= i < rows && 0 <= j < n ==> positive_coefficients(#[trigger] m[i][j]),
    ensures
        entry_product_sum(m, identity_view(n, len), r, c, k, len).len() == len,
        positive_coefficients(entry_product_sum(m, identity_view(n, len), r, c, k, len)),
        same_series(entry_product_sum(m, identity_view(n, len), r, c, k, len), if k > c { m[r][c] } else { zero_series(len) }),
    decreases k,
{
    let id = identity_view(n, len);
    if k > 0 {
        lemma_identity_partial_sum(m, rows, n, len, r, c, (k - 1) as nat);
        let previous = entry_product_sum(m, id, r, c, (k - 1) as nat, len);
        let x = m[r][k - 1];
        let p = product_series(x, id[k - 1][c]);
        assert(entry_product_sum(m, id, r, c, k, len) == sum_series(previous, p));
        assert(positive_coefficients(x));
        if k - 1 == c {
            assert(id[k - 1][c] == constant_series(rat_of_int(1), len));
            assert(same_series(previous, zero_series(len)));
            assert forall|d: int| 0 <= d < len implies same_value(#[trigger] sum_series(previous, p)[d], x[d]) && sum_series(previous, p)[d].1 > 0 by {
                lemma_convolution_unit(x, d, (d + 1) as nat);
                let a = previous[d];
                let b = p[d];
                assert(same_value(b, x[d]));
                assert(a.0 == 0) by (nonlinear_arith)
                    requires
                        a.0 * 1 == 0 * a.1,
                ;
                let t = rat_add(a, b);
                assert(t.0 * x[d].1 == x[d].0 * t.1) by (nonlinear_arith)
                    requires
                        t.0 == a.0 * b.1 + b.0 * a.1,
                        t.1 == a.1 * b.1,
                        a.0 == 0,
                        b.0 * x[d].1 == x[d].0 * b.1,
                ;
                assert(t.1 > 0) by (nonlinear_arith)
                    requires
                        t.1 == a.1 * b.1,
                        a.1 > 0,
                        b.1 > 0,
                ;
            }
        } else {
            assert(id[k - 1][c] == zero_series(len));
            lemma_product_with_zero(x);
            assert forall|d: int| 0 <= d < len implies same_value(#[trigger] sum_series(previous, p)[d], (if k > c { m[r][c] } else { zero_series(len) })[d]) && sum_series(previous, p)[d].1 > 0 by {
                let target = (if k > c { m[r][c] } else { zero_series(len) })[d];
                assert((if k - 1 > c { m[r][c] } else { zero_series(len) }) == (if k > c { m[r][c] } else { zero_series(len) }));
                assert(same_value(previous[d], target));
                lemma_add_zero_numerator(target, previous[d], p[d]);
                assert(same_value(sum_series(previous, p)[d], target)) by {
                    let a = previous[d];
                    let b = p[d];
                    let t = rat_add(a, b);
                    assert(t.0 * target.1 == target.0 * t.1) by (nonlinear_arith)
                        requires
                            t.0 == a.0 * b.1 + b.0 * a.1,
                            t.1 == a.1 * b.1,
                            b.0 == 0,
                            a.0 * target.1 == target.0 * a.1,
                    ;
                }
                assert(sum_series(previous, p)[d].1 > 0) by (nonlinear_arith)
                    requires
                        sum_series(previous, p)[d].1 == previous[d].1 * p[d].1,
                        previous[d].1 > 0,
                        p[d].1 > 0,
                ;
            }
        }
    } else {
        assert(entry_product_sum(m, id, r, c, 0, len) == zero_series(len));
    }
}

/// Multiplying by the identity on the right gives each entry back, in value.
pub proof fn lemma_identity_is_right_unit(m: MatrixView, rows: nat, n: nat, len: nat)
    requires
        matrix_shape(m, rows, n, len),
        forall|i: int, j: int| 0 <= i < rows && 0 <= j < n ==> positive_coefficients(#[trigger] m[i][j]),
    ensures
        forall|r: int, c: int| 0 <= r < rows && 0 <= c < n
            ==> same_series(#[trigger] entry_product_sum(m, identity_view(n, len), r, c, n, len), m[r][c]),
{
    assert forall|r: int, c: int| 0 <= r < rows && 0 <= c < n
        implies same_series(#[trigger] entry_product_sum(m, identity_view(n, len), r, c, n, len), m[r][c]) by {
        lemma_identity_partial_sum(m, rows, n, len, r, c, n);
    }
}

} // verus!
