use crate::codec::PlinkSnpType;
use vstd::prelude::*;

verus! {

/// Sum of a sequence of genotype values.
pub open spec fn geno_seq_sum(s: Seq<u8>) -> int
    decreases s.len(),
{
    if s.len() == 0 {
        0
    } else {
        geno_seq_sum(s.drop_last()) + s.last()
    }
}

pub proof fn lemma_geno_seq_sum_bounds(s: Seq<u8>)
    requires
        forall|i: int| 0 <= i < s.len() ==> s[i] <= 2,
    ensures
        0 <= geno_seq_sum(s) <= 2 * s.len(),
    decreases s.len(),
{
    if s.len() > 0 {
        lemma_geno_seq_sum_bounds(s.drop_last());
    }
}

/// Numerator over denominator `num_people` of the dominance value of one
/// genotype: with allele frequency p = col_sum / (2 * num_people), the value
/// is 4p - 2 for genotype 2, 2p for genotype 1 and 0 for genotype 0, so the
/// numerators are 2 * col_sum - 2 * num_people, col_sum and 0.
pub open spec fn dominance_numerator(geno: int, col_sum: int, num_people: int) -> int {
    if geno == 2 {
        2 * col_sum - 2 * num_people
    } else if geno == 1 {
        col_sum
    } else {
        0
    }
}

/// Numerator over denominator `genos.len()` of the value that individual
/// `i` of a decoded SNP column contributes to a numeric matrix: the plain
/// genotype for an additive column, the dominance value otherwise.
pub open spec fn column_numerator(genos: Seq<u8>, snp_type: PlinkSnpType, i: int) -> int {
    if snp_type == PlinkSnpType::Additive {
        genos[i] * genos.len()
    } else {
        dominance_numerator(genos[i] as int, geno_seq_sum(genos), genos.len() as int)
    }
}

/// A dense real-valued matrix with individuals as rows and SNPs as columns,
/// column-major in memory. Entries are exact rationals: the integer
/// numerator at (i, j) over the common denominator `num_rows` (the number
/// of individuals). An additive genotype g is stored as g * num_rows.
pub struct GenotypeMatrix {
    values: Vec<i64>,
    num_rows: usize,
    num_cols: usize,
}

impl GenotypeMatrix {
    pub closed spec fn rows(self) -> int {
        self.num_rows as int
    }

    pub closed spec fn cols(self) -> int {
        self.num_cols as int
    }

    /// The numerator of the entry in row `i`, column `j`.
    pub closed spec fn entry(self, i: int, j: int) -> int {
        self.values@[j * self.num_rows + i] as int
    }

    pub closed spec fn wf(self) -> bool {
        &&& self.values@.len() == self.num_rows * self.num_cols
        &&& 1 <= self.num_rows <= 0x4000_0000
        &&& forall|k: int|
            0 <= k < self.values@.len() ==> -2 * (self.num_rows as int) <= #[trigger] self.values@[k]
                <= 2 * (self.num_rows as int)
    }

    /// Assembles a matrix from a column-major buffer of numerators.
    pub fn from_column_major(values: Vec<i64>, num_rows: usize, num_cols: usize) -> (m:
        GenotypeMatrix)
        requires
            values@.len() == num_rows * num_cols,
            1 <= num_rows <= 0x4000_0000,
            forall|k: int|
                0 <= k < values@.len() ==> -2 * (num_rows as int) <= #[trigger] values@[k] <= 2 * (
                num_rows as int),
        ensures
            m.wf(),
            m.rows() == num_rows,
            m.cols() == num_cols,
            forall|i: int, j: int|
                0 <= i < num_rows && 0 <= j < num_cols ==> #[trigger] m.entry(i, j) == values@[j
                    * num_rows + i],
    {
        let m = GenotypeMatrix { values, num_rows, num_cols };
        proof {
            assert forall|i: int, j: int|
                0 <= i < num_rows && 0 <= j < num_cols implies #[trigger] m.entry(i, j)
                == m.values@[j * num_rows + i] by {}
        }
        m
    }

    /// (number of rows, number of columns).
    pub fn dim(&self) -> (r: (usize, usize))
        ensures
            r.0 == self.rows(),
            r.1 == self.cols(),
    {
        (self.num_rows, self.num_cols)
    }

    /// The common denominator of all entries.
    pub fn denominator(&self) -> (r: usize)
        ensures
            r == self.rows(),
    {
        self.num_rows
    }

    /// The numerator of the entry in row `i`, column `j`.
    pub fn get(&self, i: usize, j: usize) -> (r: i64)
        requires
            self.wf(),
            i < self.rows(),
            j < self.cols(),
        ensures
            r == self.entry(i as int, j as int),
            -2 * self.rows() <= r <= 2 * self.rows(),
    {
        let len = self.values.len();
        proof {
            assert(j * self.num_rows + i < len) by (nonlinear_arith)
                requires
                    0 <= i < self.num_rows,
                    0 <= j < self.num_cols,
                    len == self.num_rows * self.num_cols,
            ;
        }
        self.values[j * self.num_rows + i]
    }

    /// Gives up the column-major numerator buffer.
    pub fn into_values(self) -> (r: Vec<i64>)
        requires
            self.wf(),
        ensures
            r@.len() == self.rows() * self.cols(),
            forall|i: int, j: int|
                0 <= i < self.rows() && 0 <= j < self.cols() ==> r@[j * self.rows() + i]
                    == #[trigger] self.entry(i, j),
    {
        self.values
    }
}

/// Sum of the numerators of the first `upto` rows of column `j`.
pub open spec fn column_entry_sum(m: GenotypeMatrix, j: int, upto: int) -> int
    decreases upto,
{
    if upto <= 0 {
        0
    } else {
        column_entry_sum(m, j, upto - 1) + m.entry(upto - 1, j)
    }
}

/// Computes the sum of a vector of genotype values.
pub fn geno_vec_sum(genos: &Vec<u8>) -> (sum: u64)
    requires
        genos@.len() <= 0x4000_0000,
        forall|i: int| 0 <= i < genos@.len() ==> genos@[i] <= 2,
    ensures
        sum == geno_seq_sum(genos@),
        sum <= 2 * genos@.len(),
{
    let n = genos.len();
    let mut sum: u64 = 0;
    let mut i: usize = 0;
    while i < n
        invariant
            n == genos@.len(),
            n <= 0x4000_0000,
            forall|t: int| 0 <= t < n ==> genos@[t] <= 2,
            i <= n,
            sum == geno_seq_sum(genos@.subrange(0, i as int)),
            sum <= 2 * i,
        decreases n - i,
    {
        proof {
            let sub = genos@.subrange(0, i as int + 1);
            assert(sub.drop_last() =~= genos@.subrange(0, i as int));
            assert(sub.last() == genos@[i as int]);
        }
        sum = sum + genos[i] as u64;
        i += 1;
    }
    proof {
        assert(genos@.subrange(0, n as int) =~= genos@);
    }
    sum
}

/// Replaces each decoded genotype of one column with the numerator of its
/// dominance value over the denominator `genos.len()`.
pub fn convert_geno_vec_to_dominance_representation(genos: &Vec<u8>) -> (r: Vec<i64>)
    requires
        1 <= genos@.len() <= 0x4000_0000,
        forall|i: int| 0 <= i < genos@.len() ==> genos@[i] <= 2,
    ensures
        r@.len() == genos@.len(),
        forall|i: int|
            0 <= i < r@.len() ==> #[trigger] r@[i] == dominance_numerator(
                genos@[i] as int,
                geno_seq_sum(genos@),
                genos@.len() as int,
            ),
        forall|i: int|
            0 <= i < r@.len() ==> -2 * (genos@.len() as int) <= #[trigger] r@[i] <= 2 * (
            genos@.len() as int),
{
    let n = genos.len();
    let sum = geno_vec_sum(genos);
    let s = sum as i64;
    let nn = n as i64;
    proof {
        lemma_geno_seq_sum_bounds(genos@);
    }
    let mut r: Vec<i64> = Vec::new();
    let mut i: usize = 0;
    while i < n
        invariant
            n == genos@.len(),
            1 <= n <= 0x4000_0000,
            forall|t: int| 0 <= t < n ==> genos@[t] <= 2,
            s == geno_seq_sum(genos@),
            0 <= s <= 2 * n,
            nn == n,
            i <= n,
            r@.len() == i,
            forall|t: int|
                0 <= t < i ==> #[trigger] r@[t] == dominance_numerator(
                    genos@[t] as int,
                    geno_seq_sum(genos@),
                    n as int,
                ),
            forall|t: int| 0 <= t < i ==> -2 * (n as int) <= #[trigger] r@[t] <= 2 * (n as int),
        decreases n - i,
    {
        let g = genos[i];
        if g == 2 {
            r.push(2 * s - 2 * nn);
        } else if g == 1 {
            r.push(s);
        } else {
            r.push(0);
        }
        i += 1;
    }
    r
}

/// Applies the dominance transform to every column of a matrix of plain
/// additive genotype values (each entry is a genotype in {0, 1, 2} stored
/// over the matrix's denominator). Column by column, with p the column's
/// allele frequency, genotype 2 becomes 4p - 2, genotype 1 becomes 2p and
/// genotype 0 stays 0.
pub fn convert_geno_arr_to_dominance_representation(geno_arr: GenotypeMatrix) -> (r:
    GenotypeMatrix)
    requires
        geno_arr.wf(),
        forall|i: int, j: int|
            0 <= i < geno_arr.rows() && 0 <= j < geno_arr.cols() ==> #[trigger] geno_arr.entry(
                i,
                j,
            ) == 0 || geno_arr.entry(i, j) == geno_arr.rows() || geno_arr.entry(i, j) == 2
                * geno_arr.rows(),
    ensures
        r.wf(),
        r.rows() == geno_arr.rows(),
        r.cols() == geno_arr.cols(),
        forall|i: int, j: int|
            0 <= i < r.rows() && 0 <= j < r.cols() ==> #[trigger] r.entry(i, j)
                == dominance_numerator(
                geno_arr.entry(i, j) / geno_arr.rows(),
                column_entry_sum(geno_arr, j, geno_arr.rows()) / geno_arr.rows(),
                geno_arr.rows(),
            ),
{
    let (num_rows, num_cols) = geno_arr.dim();
    let nn = num_rows as i64;
    let mut values: Vec<i64> = Vec::new();
    let mut j: usize = 0;
    while j < num_cols
        invariant
            geno_arr.wf(),
            forall|a: int, b: int|
                0 <= a < geno_arr.rows() && 0 <= b < geno_arr.cols() ==> #[trigger] geno_arr.entry(
                    a,
                    b,
                ) == 0 || geno_arr.entry(a, b) == geno_arr.rows() || geno_arr.entry(a, b) == 2
                    * geno_arr.rows(),
            num_rows == geno_arr.rows(),
            num_cols == geno_arr.cols(),
            nn == num_rows,
            j <= num_cols,
            values@.len() == j * num_rows,
            forall|a: int, b: int|
                0 <= a < num_rows && 0 <= b < j ==> values@[b * num_rows + a]
                    == #[trigger] dominance_numerator(
                    geno_arr.entry(a, b) / geno_arr.rows(),
                    column_entry_sum(geno_arr, b, geno_arr.rows()) / geno_arr.rows(),
                    geno_arr.rows(),
                ),
            forall|k: int|
                0 <= k < values@.len() ==> -2 * (num_rows as int) <= #[trigger] values@[k] <= 2 * (
                num_rows as int),
        decreases num_cols - j,
    {
        let mut genos: Vec<u8> = Vec::new();
        let mut i: usize = 0;
        while i < num_rows
            invariant
                geno_arr.wf(),
                forall|a: int, b: int|
                    0 <= a < geno_arr.rows() && 0 <= b < geno_arr.cols()
                        ==> #[trigger] geno_arr.entry(a, b) == 0 || geno_arr.entry(a, b)
                        == geno_arr.rows() || geno_arr.entry(a, b) == 2 * geno_arr.rows(),
                num_rows == geno_arr.rows(),
                num_cols == geno_arr.cols(),
                nn == num_rows,
                j < num_cols,
                i <= num_rows,
                genos@.len() == i,
                forall|t: int| 0 <= t < i ==> #[trigger] genos@[t] <= 2,
                forall|t: int|
                    0 <= t < i ==> #[trigger] genos@[t] == geno_arr.entry(t, j as int)
                        / geno_arr.rows(),
            decreases num_rows - i,
        {
            let e = geno_arr.get(i, j);
            let g = (e / nn) as u8;
            proof {
                assert(geno_arr.entry(i as int, j as int) == 0 || geno_arr.entry(
                    i as int,
                    j as int,
                ) == geno_arr.rows() || geno_arr.entry(i as int, j as int) == 2
                    * geno_arr.rows());
                assert(e == 0 || e == nn || e == 2 * nn);
                assert(e / nn == 0 || e / nn == 1 || e / nn == 2) by (nonlinear_arith)
                    requires
                        nn >= 1,
                        e == 0 || e == nn || e == 2 * nn,
                ;
            }
            genos.push(g);
            i += 1;
        }
        proof {
            lemma_column_sum_matches(geno_arr, genos@, j as int, num_rows as int);
            assert((num_rows as int) * geno_seq_sum(genos@) / (num_rows as int)
                == geno_seq_sum(genos@)) by (nonlinear_arith)
                requires
                    num_rows >= 1,
            ;
        }
        let dom = convert_geno_vec_to_dominance_representation(&genos);
        let ghost old_values = values@;
        let mut dom_vec = dom;
        values.append(&mut dom_vec);
        proof {
            assert((j + 1) * (num_rows as int) == j * (num_rows as int) + (num_rows as int))
                by (nonlinear_arith);
            assert(values@.len() == (j + 1) * (num_rows as int));
            assert forall|a: int, b: int| 0 <= a < num_rows && 0 <= b < j + 1 implies values@[b
                * num_rows + a] == #[trigger] dominance_numerator(
                geno_arr.entry(a, b) / geno_arr.rows(),
                column_entry_sum(geno_arr, b, geno_arr.rows()) / geno_arr.rows(),
                geno_arr.rows(),
            ) by {
                assert(b * num_rows + a < (b + 1) * (num_rows as int) <= values@.len())
                    by (nonlinear_arith)
                    requires
                        0 <= a < num_rows,
                        0 <= b < j + 1,
                        values@.len() == (j + 1) * (num_rows as int),
                ;
                if b < j {
                    assert(b * num_rows + a < j * (num_rows as int)) by (nonlinear_arith)
                        requires
                            0 <= a < num_rows,
                            0 <= b < j,
                    ;
                    assert(values@[b * num_rows + a] == old_values[b * num_rows + a]);
                } else {
                    assert(values@[b * num_rows + a] == dom@[a]);
                }
            }
        }
        j += 1;
    }
    proof {
        assert((num_cols as int) * (num_rows as int) == (num_rows as int) * (num_cols as int))
            by (nonlinear_arith);
    }
    let r = GenotypeMatrix::from_column_major(values, num_rows, num_cols);
    r
}

/// The numerator sum of a column of plain genotype entries is the genotype
/// sum scaled by the denominator.
proof fn lemma_column_sum_matches(m: GenotypeMatrix, genos: Seq<u8>, j: int, upto: int)
    requires
        m.wf(),
        0 <= j < m.cols(),
        0 <= upto <= m.rows(),
        genos.len() >= upto,
        forall|t: int|
            0 <= t < upto ==> #[trigger] genos[t] == m.entry(t, j) / m.rows() && (m.entry(t, j)
                == 0 || m.entry(t, j) == m.rows() || m.entry(t, j) == 2 * m.rows()),
    ensures
        upto == genos.len() ==> column_entry_sum(m, j, upto) == m.rows() * geno_seq_sum(genos),
        column_entry_sum(m, j, upto) == m.rows() * geno_seq_sum(genos.subrange(0, upto)),
    decreases upto,
{
    if upto > 0 {
        lemma_column_sum_matches(m, genos, j, upto - 1);
        let sub = genos.subrange(0, upto);
        assert(sub.drop_last() =~= genos.subrange(0, upto - 1));
        assert(sub.last() == genos[upto - 1]);
        let e = m.entry(upto - 1, j);
        let n = m.rows();
        assert(genos[upto - 1] == e / n);
        assert(e == 0 || e == n || e == 2 * n);
        assert(e / n == 0 || e / n == 1 || e / n == 2) by (nonlinear_arith)
            requires
                n >= 1,
                e == 0 || e == n || e == 2 * n,
        ;
        assert(e == n * (e / n)) by (nonlinear_arith)
            requires
                n >= 1,
                e == 0 || e == n || e == 2 * n,
                e / n == 0 || e / n == 1 || e / n == 2,
        ;
        assert(n * geno_seq_sum(sub) == n * geno_seq_sum(sub.drop_last()) + n * sub.last())
            by (nonlinear_arith)
            requires
                geno_seq_sum(sub) == geno_seq_sum(sub.drop_last()) + sub.last(),
        ;
    } else {
        assert(genos.subrange(0, 0) =~= Seq::<u8>::empty());
    }
    if upto == genos.len() {
        assert(genos.subrange(0, upto) =~= genos);
    }
}

} // verus!
