use vstd::prelude::*;
use crate::algebra::{
    fits_elem, ints, lemma_position, multiply_outcome, product, product_cell, MatrixView,
};
use crate::error::EngineError;
use crate::text::{
    decimal_text, digits, joined, joined_so_far, lemma_joined_step, push_decimal, push_natural,
};
use crate::vector::{dot_product, Vector};
use vstd::string::*;

verus! {

/// A matrix that owns its elements, stored row after row.
#[derive(Debug, Clone, PartialEq, Eq)]
pub struct Matrix {
    pub data: Vec<i32>,
    pub rows: usize,
    pub cols: usize,
}

impl View for Matrix {
    type V = MatrixView;

    open spec fn view(&self) -> MatrixView {
        MatrixView { rows: self.rows as nat, cols: self.cols as nat, cells: ints(self.data@) }
    }
}

impl Matrix {
    /// The buffer holds exactly `rows * cols` elements.
    pub open spec fn wf(&self) -> bool {
        self@.wf()
    }

    /// Takes the buffer and the shape as they are; whether they agree is
    /// what `wf` says.
    pub fn new(data: Vec<i32>, rows: usize, cols: usize) -> (m: Self)
        ensures
            m.data == data,
            m.rows == rows,
            m.cols == cols,
            m.wf() <==> data@.len() == rows * cols,
    {
        Self { data, rows, cols }
    }

    /// A copy of row `i`.
    pub fn row(&self, i: usize) -> (v: Vector)
        requires
            self.wf(),
            i < self.rows,
        ensures
            v@ == self@.row(i as int),
    {
        let len: usize = self.data.len();
        let mut out: Vec<i32> = Vec::with_capacity(self.cols);
        let mut k: usize = 0;
        while k < self.cols
            invariant
                self.wf(),
                len == self.data@.len(),
                i < self.rows,
                k <= self.cols,
                out@.len() == k,
                forall|t: int| 0 <= t < k ==> out@[t] as int == self@.at(i as int, t),
            decreases self.cols - k,
        {
            proof {
                lemma_position(self.rows as int, self.cols as int, i as int, k as int);
                assert(self.data@.len() == self@.cells.len());
            }
            out.push(self.data[i * self.cols + k]);
            k = k + 1;
        }
        let v = Vector::new(out);
        assert(v@ =~= self@.row(i as int));
        v
    }

    /// A copy of column `j`.
    pub fn col(&self, j: usize) -> (v: Vector)
        requires
            self.wf(),
            j < self.cols,
        ensures
            v@ == self@.col(j as int),
    {
        let len: usize = self.data.len();
        let mut out: Vec<i32> = Vec::with_capacity(self.rows);
        let mut k: usize = 0;
        while k < self.rows
            invariant
                self.wf(),
                len == self.data@.len(),
                j < self.cols,
                k <= self.rows,
                out@.len() == k,
                forall|t: int| 0 <= t < k ==> out@[t] as int == self@.at(t, j as int),
            decreases self.rows - k,
        {
            proof {
                lemma_position(self.rows as int, self.cols as int, k as int, j as int);
                assert(self.data@.len() == self@.cells.len());
            }
            out.push(self.data[k * self.cols + j]);
            k = k + 1;
        }
        let v = Vector::new(out);
        assert(v@ =~= self@.col(j as int));
        v
    }
}

/// Row `i` of `m` as text: its cells in decimal, a space between neighbours.
pub open spec fn row_text(m: MatrixView, i: int) -> Seq<char> {
    joined(Seq::new(m.cols, |j: int| decimal_text(m.at(i, j))), seq![' '])
}

/// `m` as text: the rows between braces, a comma and a space between neighbours.
pub open spec fn matrix_text(m: MatrixView) -> Seq<char> {
    seq!['{'] + joined(Seq::new(m.rows, |i: int| row_text(m, i)), seq![',', ' ']) + seq!['}']
}

/// `m` as text with its shape in front.
pub open spec fn shaped_text(m: MatrixView) -> Seq<char> {
    seq!['M', 'a', 't', 'r', 'i', 'x', '('] + digits(m.rows) + seq![',', ' '] + digits(m.cols)
        + seq![')', ',', ':', ' '] + matrix_text(m)
}

impl Matrix {
    fn push_row(&self, out: &mut String, i: usize)
        requires
            self.wf(),
            i < self.rows,
        ensures
            final(out)@ == old(out)@ + row_text(self@, i as int),
    {
        let ghost parts = Seq::new(self@.cols, |j: int| decimal_text(self@.at(i as int, j)));
        let ghost sep = seq![' '];
        let len: usize = self.data.len();
        let mut j: usize = 0;
        assert(joined_so_far(parts, sep, 0) =~= Seq::<char>::empty());
        assert(out@ =~= old(out)@ + joined_so_far(parts, sep, 0));
        while j < self.cols
            invariant
                self.wf(),
                i < self.rows,
                j <= self.cols,
                len == self.data@.len(),
                sep == seq![' '],
                parts == Seq::new(self@.cols, |j: int| decimal_text(self@.at(i as int, j))),
                out@ == old(out)@ + joined_so_far(parts, sep, j as int),
            decreases self.cols - j,
        {
            let ghost before = out@;
            proof {
                lemma_position(self.rows as int, self.cols as int, i as int, j as int);
                assert(self.data@.len() == self@.cells.len());
                lemma_joined_step(parts, sep, j as int);
            }
            push_decimal(out, self.data[i * self.cols + j] as i64);
            if j != self.cols - 1 {
                proof {
                    reveal_strlit(" ");
                }
                out.append(" ");
                assert(" "@ =~= sep);
            }
            assert(out@ =~= old(out)@ + joined_so_far(parts, sep, j + 1));
            j = j + 1;
        }
        assert(parts.take(parts.len() as int) =~= parts);
    }

    /// The matrix as text, for a reader: `{1 2 3, 4 5 6}` for two rows of three.
    pub fn render(&self) -> (s: String)
        requires
            self.wf(),
        ensures
            s@ == matrix_text(self@),
    {
        let ghost parts = Seq::new(self@.rows, |i: int| row_text(self@, i));
        let ghost sep = seq![',', ' '];
        proof {
            reveal_strlit("{");
            reveal_strlit("}");
            reveal_strlit(", ");
        }
        let mut out = String::new();
        out.append("{");
        let mut i: usize = 0;
        assert(joined_so_far(parts, sep, 0) =~= Seq::<char>::empty());
        assert(out@ =~= seq!['{'] + joined_so_far(parts, sep, 0));
        while i < self.rows
            invariant
                self.wf(),
                i <= self.rows,
                sep == seq![',', ' '],
                ", "@ == sep,
                parts == Seq::new(self@.rows, |i: int| row_text(self@, i)),
                out@ == seq!['{'] + joined_so_far(parts, sep, i as int),
            decreases self.rows - i,
        {
            proof {
                lemma_joined_step(parts, sep, i as int);
            }
            self.push_row(&mut out, i);
            if i != self.rows - 1 {
                out.append(", ");
            }
            assert(out@ =~= seq!['{'] + joined_so_far(parts, sep, i + 1));
            i = i + 1;
        }
        out.append("}");
        proof {
            assert(parts.take(parts.len() as int) =~= parts);
            assert(out@ =~= matrix_text(self@));
        }
        out
    }

    /// The matrix as text with its shape in front: `Matrix(2, 3),: {1 2 3, 4 5 6}`.
    pub fn describe(&self) -> (s: String)
        requires
            self.wf(),
        ensures
            s@ == shaped_text(self@),
    {
        proof {
            reveal_strlit("Matrix(");
            reveal_strlit(", ");
            reveal_strlit("),: ");
        }
        let mut out = String::new();
        out.append("Matrix(");
        push_natural(&mut out, self.rows as u64);
        out.append(", ");
        push_natural(&mut out, self.cols as u64);
        out.append("),: ");
        let body = self.render();
        out.append(body.as_str());
        proof {
            assert("Matrix("@ =~= seq!['M', 'a', 't', 'r', 'i', 'x', '(']);
            assert(", "@ =~= seq![',', ' ']);
            assert("),: "@ =~= seq![')', ',', ':', ' ']);
            assert(out@ =~= shaped_text(self@));
        }
        out
    }
}

/// The product `a * b`, computed cell by cell on the calling thread.
pub fn multiply(a: Matrix, b: Matrix) -> (r: Result<Matrix, EngineError>)
    requires
        a.wf(),
        b.wf(),
    ensures
        match r {
            Ok(m) => multiply_outcome(a@, b@) == Ok::<MatrixView, EngineError>(m@),
            Err(e) => multiply_outcome(a@, b@) == Err::<MatrixView, EngineError>(e),
        },
{
    if a.cols != b.rows {
        return Err(EngineError::ShapeMismatch);
    }
    let total: usize = match a.rows.checked_mul(b.cols) {
        Some(n) => n,
        None => {
            return Err(EngineError::Overflow);
        },
    };
    let ghost want = product(a@, b@);
    let mut data: Vec<i32> = Vec::new();
    let mut i: usize = 0;
    while i < a.rows
        invariant
            a.wf(),
            b.wf(),
            a.cols == b.rows,
            total == a.rows * b.cols,
            want == product(a@, b@),
            i <= a.rows,
            data@.len() == i * b.cols,
            forall|k: int| 0 <= k < data@.len() ==> data@[k] as int == #[trigger] want.cells[k],
        decreases a.rows - i,
    {
        let mut j: usize = 0;
        while j < b.cols
            invariant
                a.wf(),
                b.wf(),
                a.cols == b.rows,
                total == a.rows * b.cols,
                want == product(a@, b@),
                i < a.rows,
                j <= b.cols,
                data@.len() == i * b.cols + j,
                forall|k: int| 0 <= k < data@.len() ==> data@[k] as int == #[trigger] want.cells[k],
            decreases b.cols - j,
        {
            let ghost k = i * b.cols + j;
            proof {
                lemma_position(a.rows as int, b.cols as int, i as int, j as int);
                assert(want.cells[k] == product_cell(a@, b@, k));
            }
            let row = a.row(i);
            let col = b.col(j);
            match dot_product(row, col) {
                Ok(v) => {
                    data.push(v);
                },
                Err(e) => {
                    proof {
                        assert(!fits_elem(want.cells[k]));
                    }
                    return Err(e);
                },
            }
            j = j + 1;
        }
        proof {
            assert(i * b.cols + b.cols == (i + 1) * b.cols) by (nonlinear_arith);
        }
        i = i + 1;
    }
    let m = Matrix { data, rows: a.rows, cols: b.cols };
    proof {
        assert(m@.cells =~= want.cells);
        assert(want.fits()) by {
            assert forall|k: int| 0 <= k < want.cells.len() implies fits_elem(
                #[trigger] want.cells[k],
            ) by {
                assert(data@[k] as int == want.cells[k]);
            }
        }
    }
    Ok(m)
}

} // verus!
