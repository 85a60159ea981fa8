//! Dense matrices stored row by row.
use vstd::arithmetic::div_mod::{
    lemma_div_multiples_vanish, lemma_fundamental_div_mod, lemma_fundamental_div_mod_converse,
    lemma_mod_multiples_basic,
};
use vstd::prelude::*;

verus! {

/// A matrix of `width` columns whose rows lie one after another in `values`.
pub struct RowMajorMatrix<T> {
    pub values: Vec<T>,
    pub width: usize,
}

/// The number of rows of a matrix of `len` entries in rows of `width`.
pub open spec fn rows_of(len: nat, width: nat) -> nat {
    if width == 0 {
        0
    } else {
        len / width
    }
}

/// The number of rows `offset, offset + stride, ...` below `height`.
pub open spec fn strided_height(height: nat, stride: nat, offset: nat) -> nat {
    if offset >= height || stride == 0 {
        0
    } else {
        ((height - offset - 1) / (stride as int) + 1) as nat
    }
}

/// The entries of the rows `offset, offset + stride, ...` of the matrix with
/// the entries `values` in rows of `width`.
pub open spec fn strided_values<T>(values: Seq<T>, width: nat, stride: nat, offset: nat) -> Seq<T> {
    Seq::new(
        strided_height(rows_of(values.len(), width), stride, offset) * width,
        |idx: int|
            values[(offset + (idx / (width as int)) * stride) * width + idx % (width as int)],
    )
}

/// Every `stride`-th row of `count * stride` rows: `count` rows.
pub proof fn lemma_strided_height(count: nat, stride: nat)
    requires
        stride > 0,
    ensures
        strided_height(count * stride, stride, 0) == count,
{
    if count > 0 {
        assert(count * stride >= stride) by (nonlinear_arith)
            requires
                count >= 1,
                stride > 0,
        ;
        assert(count * stride - 1 == stride * (count - 1) + (stride - 1)) by (nonlinear_arith);
        lemma_fundamental_div_mod_converse(
            count * stride - 1,
            stride as int,
            count - 1,
            stride - 1,
        );
    } else {
        assert(count * stride == 0);
    }
}

/// The position of the entry in row `row` and column `col` determines both.
pub proof fn lemma_entry_index(width: int, row: int, col: int)
    requires
        0 <= row,
        0 <= col < width,
    ensures
        (row * width + col) / width == row,
        (row * width + col) % width == col,
        row * width + col >= 0,
{
    lemma_fundamental_div_mod_converse(row * width + col, width, row, col);
    assert(row * width >= 0) by (nonlinear_arith)
        requires
            row >= 0,
            width > 0,
    ;
}

/// The entry in row `row` and column `col` lies inside a matrix of `height`
/// rows.
pub proof fn lemma_entry_in_bounds(width: int, height: int, row: int, col: int)
    requires
        0 <= row < height,
        0 <= col < width,
    ensures
        0 <= row * width + col < height * width,
{
    assert(row * width + col < height * width && row * width >= 0) by (nonlinear_arith)
        requires
            0 <= row < height,
            0 <= col < width,
    ;
}

impl<T: Copy> RowMajorMatrix<T> {
    /// The rows are complete.
    pub open spec fn wf(&self) -> bool {
        if self.width == 0 {
            self.values@.len() == 0
        } else {
            self.values@.len() % (self.width as nat) == 0
        }
    }

    pub open spec fn height_spec(&self) -> nat {
        rows_of(self.values@.len(), self.width as nat)
    }

    /// The entry in row `row` and column `col`.
    pub open spec fn at(&self, row: int, col: int) -> T {
        self.values@[row * self.width + col]
    }

    /// Row `row`, as a sequence of `width` entries.
    pub open spec fn row(&self, row: int) -> Seq<T> {
        self.values@.subrange(row * self.width, row * self.width + self.width)
    }

    /// The entries of a well-formed matrix are `height * width` many.
    pub proof fn lemma_len(&self)
        requires
            self.wf(),
        ensures
            self.values@.len() == self.height_spec() * self.width,
    {
        let len = self.values@.len() as int;
        let width = self.width as int;
        if width > 0 {
            lemma_fundamental_div_mod(len, width);
            assert(len % width == 0);
            assert(self.height_spec() == len / width);
            assert(width * (len / width) == (len / width) * width) by (nonlinear_arith);
        } else {
            assert(self.height_spec() * self.width == 0);
        }
    }

    pub fn new(values: Vec<T>, width: usize) -> (r: Self)
        requires
            width == 0 ==> values@.len() == 0,
            width > 0 ==> values@.len() % (width as nat) == 0,
        ensures
            r.wf(),
            r.values == values,
            r.width == width,
    {
        RowMajorMatrix { values, width }
    }

    pub fn width(&self) -> (r: usize)
        ensures
            r == self.width,
    {
        self.width
    }

    pub fn height(&self) -> (r: usize)
        ensures
            r == self.height_spec(),
    {
        if self.width == 0 {
            0
        } else {
            self.values.len() / self.width
        }
    }

    pub fn get(&self, row: usize, col: usize) -> (r: T)
        requires
            self.wf(),
            row < self.height_spec(),
            col < self.width,
        ensures
            r == self.at(row as int, col as int),
    {
        let len = self.values.len();
        proof {
            self.lemma_len();
            lemma_entry_in_bounds(
                self.width as int,
                self.height_spec() as int,
                row as int,
                col as int,
            );
            assert(row * self.width + col < len);
            assert(row * self.width >= 0) by (nonlinear_arith);
        }
        self.values[row * self.width + col]
    }

    /// A copy of row `row`.
    pub fn row_vec(&self, row: usize) -> (r: Vec<T>)
        requires
            self.wf(),
            row < self.height_spec(),
        ensures
            r@ == self.row(row as int),
            r@.len() == self.width,
            forall|col: int| 0 <= col < self.width ==> #[trigger] r@[col] == self.at(row as int, col),
            0 <= row * self.width,
            row * self.width + self.width <= self.values@.len(),
    {
        let mut r: Vec<T> = Vec::new();
        let mut col: usize = 0;
        proof {
            self.lemma_len();
            lemma_entry_in_bounds(
                self.width as int + 1,
                self.height_spec() as int,
                row as int,
                0,
            );
            assert(row * self.width + self.width <= self.height_spec() * self.width)
                by (nonlinear_arith)
                requires
                    row < self.height_spec(),
            ;
        }
        proof {
            assert(row * self.width >= 0) by (nonlinear_arith);
        }
        while col < self.width
            invariant
                col <= self.width,
                self.wf(),
                row < self.height_spec(),
                row * self.width >= 0,
                row * self.width + self.width <= self.values@.len(),
                r@ == self.values@.subrange(row * self.width, row * self.width + col),
            decreases self.width - col,
        {
            r.push(self.get(row, col));
            proof {
                assert(r@ =~= self.values@.subrange(
                    row * self.width,
                    row * self.width + col + 1,
                ));
            }
            col += 1;
        }
        r
    }

    /// The matrix of the rows `offset, offset + stride, offset + 2 stride, ...`.
    pub fn vertically_strided(&self, stride: usize, offset: usize) -> (r: Self)
        requires
            self.wf(),
            stride > 0,
        ensures
            r.wf(),
            r.width == self.width,
            r.height_spec() == strided_height(self.height_spec(), stride as nat, offset as nat),
            r.values@.len() == r.height_spec() * self.width,
            r.values@ == strided_values(
                self.values@,
                self.width as nat,
                stride as nat,
                offset as nat,
            ),
            forall|i: int, col: int|
                0 <= i < r.height_spec() && 0 <= col < self.width ==> #[trigger] r.at(i, col)
                    == self.at(offset + i * stride, col),
    {
        let height = self.height();
        let width = self.width;
        let mut values: Vec<T> = Vec::new();
        let mut row: usize = offset;
        let mut count: usize = 0;
        let mut done = offset >= height;
        proof {
            self.lemma_len();
            assert(0 * stride == 0 && 0 * width == 0);
        }
        while !done
            invariant
                self.wf(),
                stride > 0,
                width == self.width,
                height == self.height_spec(),
                self.values@.len() == height * width,
                !done ==> row == offset + count * stride && row < height,
                done ==> count == strided_height(height as nat, stride as nat, offset as nat),
                count <= height,
                values@.len() == count * width,
                forall|i: int, col: int|
                    0 <= i < count && 0 <= col < width ==> #[trigger] values@[i * width + col]
                        == self.at(offset + i * stride, col),
            decreases height - row + (if done { 0int } else { 1int }),
        {
            proof {
                assert(count * stride >= count) by (nonlinear_arith)
                    requires
                        stride >= 1,
                        count >= 0,
                ;
            }
            let mut col: usize = 0;
            while col < width
                invariant
                    col <= width,
                    row < height,
                    count < height,
                    self.wf(),
                    width == self.width,
                    height == self.height_spec(),
                    self.values@.len() == height * width,
                    row == offset + count * stride,
                    values@.len() == count * width + col,
                    forall|i: int, c: int|
                        0 <= i < count && 0 <= c < width ==> #[trigger] values@[i * width + c]
                            == self.at(offset + i * stride, c),
                    forall|c: int|
                        0 <= c < col ==> #[trigger] values@[count * width + c] == self.at(
                            row as int,
                            c,
                        ),
                decreases width - col,
            {
                let ghost before = values@;
                values.push(self.get(row, col));
                proof {
                    assert forall|i: int, c: int| 0 <= i < count && 0 <= c < width implies (
                    #[trigger] values@[i * width + c]) == self.at(offset + i * stride, c) by {
                        lemma_entry_in_bounds(width as int, count as int, i, c);
                        assert(values@[i * width + c] == before[i * width + c]);
                    }
                    assert forall|c: int| 0 <= c < col + 1 implies (#[trigger] values@[count
                        * width + c]) == self.at(row as int, c) by {
                        if c < col {
                            assert(values@[count * width + c] == before[count * width + c]);
                        }
                    }
                }
                col += 1;
            }
            proof {
                assert((count + 1) * width == count * width + width) by (nonlinear_arith);
                assert((count + 1) * stride == count * stride + stride) by (nonlinear_arith);
            }
            if stride >= height - row {
                done = true;
                proof {
                    lemma_fundamental_div_mod_converse(
                        height - offset - 1,
                        stride as int,
                        count as int,
                        height - offset - 1 - count * stride,
                    );
                }
            } else {
                row += stride;
            }
            count += 1;
        }
        proof {
            if width > 0 {
                lemma_div_multiples_vanish(count as int, width as int);
                lemma_mod_multiples_basic(count as int, width as int);
            }
            let target = strided_values(
                self.values@,
                self.width as nat,
                stride as nat,
                offset as nat,
            );
            assert(values@.len() == target.len());
            assert forall|idx: int| 0 <= idx < values@.len() implies values@[idx]
                == target[idx] by {
                let (i, col) = (idx / (width as int), idx % (width as int));
                lemma_fundamental_div_mod(idx, width as int);
                assert(width * i == i * width) by (nonlinear_arith);
                assert(i < count) by (nonlinear_arith)
                    requires
                        i * width + col < count * width,
                        0 <= col < width,
                ;
                assert(values@[i * width + col] == self.at(offset + i * stride, col));
            }
            assert(values@ =~= target);
        }
        RowMajorMatrix { values, width }
    }
}

} // verus!
