use crate::bed::{copy_bytes, usize_div_ceil, MAX_NUM_PEOPLE};
use crate::codec::{decode_snp_block, PlinkSnpType};
use crate::error::Error;
use crate::file_index::{
    file_of_snp, lemma_file_of_snp_in_range, local_snp_index, snp_type_of, snps_before,
    total_snps, FileSnpIndexer,
};
use crate::matrix::{
    column_numerator, convert_geno_vec_to_dominance_representation, GenotypeMatrix,
};
use crate::model::{bytes_per_snp_spec, snp_genos, snp_value, NUM_MAGIC_BYTES};
use crate::range_set::SnpRangeSet;
use vstd::arithmetic::div_mod::{
    lemma_fundamental_div_mod, lemma_fundamental_div_mod_converse,
};
use vstd::prelude::*;

verus! {

/// Copies a list of byte buffers.
pub fn copy_byte_matrix(v: &Vec<Vec<u8>>) -> (r: Vec<Vec<u8>>)
    ensures
        r@.len() == v@.len(),
        forall|f: int| 0 <= f < v@.len() ==> #[trigger] r@[f]@ == v@[f]@,
{
    let n = v.len();
    let mut r: Vec<Vec<u8>> = Vec::new();
    let mut i: usize = 0;
    while i < n
        invariant
            n == v@.len(),
            i <= n,
            r@.len() == i,
            forall|f: int| 0 <= f < i ==> #[trigger] r@[f]@ == v@[f]@,
        decreases n - i,
    {
        r.push(copy_bytes(&v[i]));
        i += 1;
    }
    r
}

/// Copies a list of (SNP count, kind) pairs.
pub fn copy_counts(v: &Vec<(usize, PlinkSnpType)>) -> (r: Vec<(usize, PlinkSnpType)>)
    ensures
        r@ == v@,
{
    let n = v.len();
    let mut r: Vec<(usize, PlinkSnpType)> = Vec::new();
    let mut i: usize = 0;
    while i < n
        invariant
            n == v@.len(),
            i <= n,
            r@ =~= v@.subrange(0, i as int),
        decreases n - i,
    {
        r.push(v[i]);
        i += 1;
    }
    proof {
        assert(v@.subrange(0, n as int) =~= v@);
    }
    r
}

/// A pull-model iterator of genotype matrix chunks over a restricted range
/// of the logical SNP axis. Forward pulls consume ranks from the front,
/// reverse pulls from the back; the outstanding window is the rank interval
/// [cursor, end). Every SNP block is read by absolute offset into the
/// backing byte buffers, so sequential and random pulls decode the same
/// columns; stream-level read scheduling belongs to the caller that fills
/// the buffers.
pub struct PlinkColChunkIter {
    bed_data_list: Vec<Vec<u8>>,
    file_num_snps: Vec<(usize, PlinkSnpType)>,
    file_snp_indexer: FileSnpIndexer,
    range: SnpRangeSet,
    num_snps_per_iter: usize,
    num_people: usize,
    num_snps_in_range: usize,
    range_cursor: usize,
}

impl PlinkColChunkIter {
    /// The (SNP count, kind) pair of each backing file.
    pub closed spec fn list(self) -> Seq<(usize, PlinkSnpType)> {
        self.file_num_snps@
    }

    /// The bytes of each backing file.
    pub closed spec fn data(self) -> Seq<Seq<u8>> {
        Seq::new(self.bed_data_list@.len(), |f: int| self.bed_data_list@[f]@)
    }

    /// The number of individuals.
    pub closed spec fn people(self) -> int {
        self.num_people as int
    }

    /// The bound on SNP columns per pulled chunk.
    pub closed spec fn chunk(self) -> int {
        self.num_snps_per_iter as int
    }

    /// The ranks already consumed from the front.
    pub closed spec fn cursor(self) -> int {
        self.range_cursor as int
    }

    /// The first rank already consumed from the back.
    pub closed spec fn end_rank(self) -> int {
        self.num_snps_in_range as int
    }

    /// The members of the restricted range, in ascending order.
    pub closed spec fn members(self) -> Seq<int> {
        self.range.members()
    }

    /// The numerator (over denominator `people()`) of individual `i`'s
    /// matrix value for global SNP `snp`.
    pub open spec fn value(self, snp: int, i: int) -> int {
        snp_value(self.data(), self.list(), self.people(), snp, i)
    }

    pub closed spec fn wf(self) -> bool {
        &&& self.file_snp_indexer.wf()
        &&& self.file_snp_indexer.list() == self.file_num_snps@
        &&& self.data().len() == self.list().len()
        &&& self.list().len() >= 1
        &&& 1 <= self.num_people <= MAX_NUM_PEOPLE
        &&& 1 <= self.num_snps_per_iter
        &&& forall|f: int| 0 <= f < self.list().len() ==> (#[trigger] self.list()[f]).0 >= 1
        &&& forall|f: int|
            0 <= f < self.list().len() ==> (#[trigger] self.data()[f]).len() >= NUM_MAGIC_BYTES
                + self.list()[f].0 * bytes_per_snp_spec(self.people())
        &&& total_snps(self.list()) <= usize::MAX
        &&& self.range.wf()
        &&& forall|k: int|
            0 <= k < self.members().len() ==> 0 <= #[trigger] self.members()[k] < total_snps(
                self.list(),
            )
        &&& self.cursor() <= self.end_rank() <= self.members().len()
    }

    /// Builds an iterator over the given backing data, restricted to
    /// `range`, pulling up to `num_snps_per_iter` SNP columns per chunk.
    pub fn new(
        bed_data_list: Vec<Vec<u8>>,
        file_num_snps: Vec<(usize, PlinkSnpType)>,
        range: SnpRangeSet,
        num_snps_per_iter: usize,
        num_people: usize,
    ) -> (r: Result<PlinkColChunkIter, Error>)
        requires
            bed_data_list@.len() == file_num_snps@.len(),
            file_num_snps@.len() >= 1,
            1 <= num_people <= MAX_NUM_PEOPLE,
            forall|f: int| 0 <= f < file_num_snps@.len() ==> (#[trigger] file_num_snps@[f]).0 >= 1,
            forall|f: int|
                0 <= f < file_num_snps@.len() ==> (#[trigger] bed_data_list@[f])@.len()
                    >= NUM_MAGIC_BYTES + file_num_snps@[f].0 * bytes_per_snp_spec(
                    num_people as int,
                ),
            total_snps(file_num_snps@) <= usize::MAX,
            range.wf(),
        ensures
            r is Ok <==> num_snps_per_iter >= 1 && (forall|k: int|
                0 <= k < range.members().len() ==> 0 <= #[trigger] range.members()[k]
                    < total_snps(file_num_snps@)),
            r matches Ok(it) ==> {
                &&& it.wf()
                &&& it.data().len() == bed_data_list@.len()
                &&& forall|f: int|
                    0 <= f < bed_data_list@.len() ==> #[trigger] it.data()[f]
                        == bed_data_list@[f]@
                &&& it.list() == file_num_snps@
                &&& it.people() == num_people
                &&& it.chunk() == num_snps_per_iter
                &&& it.members() == range.members()
                &&& it.cursor() == 0
                &&& it.end_rank() == range.members().len()
            },
            r matches Err(e) ==> (e == Error::ZeroChunkSize && num_snps_per_iter == 0) || (e
                == Error::RangeOutOfBounds && num_snps_per_iter >= 1),
    {
        if num_snps_per_iter == 0 {
            return Err(Error::ZeroChunkSize);
        }
        let total = total_num_snps_of(&file_num_snps);
        if !range.fits_below(total) {
            return Err(Error::RangeOutOfBounds);
        }
        let num_snps_in_range = range.size();
        let file_snp_indexer = FileSnpIndexer::new(copy_counts(&file_num_snps));
        let it = PlinkColChunkIter {
            bed_data_list,
            file_num_snps,
            file_snp_indexer,
            range,
            num_snps_per_iter,
            num_people,
            num_snps_in_range,
            range_cursor: 0,
        };
        Ok(it)
    }

    /// How many SNP ranks are still outstanding.
    pub fn num_snps_outstanding(&self) -> (r: usize)
        requires
            self.wf(),
        ensures
            r == self.end_rank() - self.cursor(),
    {
        self.num_snps_in_range - self.range_cursor
    }

    /// How many chunks a full forward traversal still yields.
    pub fn len(&self) -> (r: usize)
        requires
            self.wf(),
        ensures
            r == (self.end_rank() - self.cursor() + self.chunk() - 1) / self.chunk(),
    {
        usize_div_ceil(self.num_snps_in_range - self.range_cursor, self.num_snps_per_iter)
    }

    /// Reads the `count` SNP columns of ranks [start_rank, start_rank +
    /// count) into a column-major numerator buffer.
    fn read_columns(&self, start_rank: usize, count: usize) -> (values: Vec<i64>)
        requires
            self.wf(),
            start_rank + count <= self.members().len(),
        ensures
            values@.len() == count * self.people(),
            forall|k: int|
                0 <= k < values@.len() ==> #[trigger] values@[k] == self.value(
                    self.members()[start_rank + k / self.people()],
                    k % self.people(),
                ),
            forall|k: int|
                0 <= k < values@.len() ==> -2 * self.people() <= #[trigger] values@[k] <= 2
                    * self.people(),
    {
        let num_people = self.num_people;
        let nn = num_people as i64;
        let bytes_per_snp = usize_div_ceil(num_people, 4);
        let range_size = self.range.size();
        let num_files = self.file_num_snps.len();
        let mut values: Vec<i64> = Vec::new();
        let mut t: usize = 0;
        while t < count
            invariant
                self.wf(),
                range_size == self.members().len(),
                num_files == self.list().len(),
                start_rank + count <= self.members().len(),
                num_people == self.people(),
                nn == num_people,
                bytes_per_snp == bytes_per_snp_spec(self.people()),
                t <= count,
                values@.len() == t * self.people(),
                forall|k: int|
                    0 <= k < values@.len() ==> #[trigger] values@[k] == self.value(
                        self.members()[start_rank + k / self.people()],
                        k % self.people(),
                    ),
                forall|k: int|
                    0 <= k < values@.len() ==> -2 * self.people() <= #[trigger] values@[k] <= 2
                        * self.people(),
            decreases count - t,
        {
            let ghost list = self.list();
            let rank = start_rank + t;
            let snp = self.range.rank_get(rank);
            proof {
                assert(self.members()[rank as int] < total_snps(list));
            }
            let resolved = self.file_snp_indexer.get_file_snp_index(snp);
            let (file_index, local, snp_type) = match resolved {
                Some(x) => x,
                None => {
                    proof {
                        assert(false);
                    }
                    (0, 0, PlinkSnpType::Additive)
                },
            };
            proof {
                lemma_file_of_snp_in_range(list, 0, snp as int);
                let fo = file_of_snp(list, snp as int);
                assert(snps_before(list, fo) <= snp < snps_before(list, fo + 1));
                assert(snps_before(list, fo + 1) == snps_before(list, fo) + list[fo].0);
                assert(0 <= local_snp_index(list, snp as int) < list[fo].0);
                assert(file_index as int == fo);
                assert(local == snp - snps_before(list, file_index as int));
                assert(local < list[file_index as int].0);
                assert((local + 1) * bytes_per_snp_spec(self.people()) <= list[file_index
                    as int].0 * bytes_per_snp_spec(self.people()) && 0 <= local
                    * bytes_per_snp_spec(self.people()) && (local + 1) * bytes_per_snp_spec(
                    self.people(),
                ) == local * bytes_per_snp_spec(self.people()) + bytes_per_snp_spec(
                    self.people(),
                )) by (nonlinear_arith)
                    requires
                        0 <= local,
                        local + 1 <= list[file_index as int].0,
                        bytes_per_snp_spec(self.people()) >= 0,
                ;
                assert(self.data()[file_index as int].len() >= NUM_MAGIC_BYTES + list[file_index
                    as int].0 * bytes_per_snp_spec(self.people()));
            }
            let data_len = self.bed_data_list[file_index].len();
            proof {
                assert(self.data()[file_index as int] == self.bed_data_list@[file_index
                    as int]@);
                assert(NUM_MAGIC_BYTES + local * bytes_per_snp + bytes_per_snp <= data_len);
            }
            let base = NUM_MAGIC_BYTES + local * bytes_per_snp;
            proof {
                lemma_fundamental_div_mod(num_people as int + 3, 4);
                lemma_fundamental_div_mod(num_people as int - 1, 4);
                lemma_fundamental_div_mod_converse(
                    num_people as int + 3,
                    4,
                    (num_people as int - 1) / 4 + 1,
                    (num_people as int - 1) % 4,
                );
                assert((num_people as int - 1) / 4 < bytes_per_snp_spec(self.people()));
            }
            let genos = decode_snp_block(&self.bed_data_list[file_index], base, num_people);
            proof {
                assert(genos@ =~= snp_genos(self.data(), list, self.people(), snp as int));
            }
            let ghost old_values = values@;
            let ghost the_genos = snp_genos(self.data(), list, self.people(), snp as int);
            let ghost ty = snp_type_of(list, snp as int);
            let mut column: Vec<i64> = Vec::new();
            if matches!(snp_type, PlinkSnpType::Additive) {
                let mut i: usize = 0;
                while i < num_people
                    invariant
                        i <= num_people,
                        nn == num_people,
                        1 <= num_people <= MAX_NUM_PEOPLE,
                        genos@.len() == num_people,
                        forall|q: int| 0 <= q < num_people ==> #[trigger] genos@[q] <= 2,
                        column@.len() == i,
                        forall|q: int|
                            0 <= q < i ==> #[trigger] column@[q] == genos@[q] * num_people,
                        forall|q: int|
                            0 <= q < i ==> 0 <= #[trigger] column@[q] <= 2 * num_people,
                    decreases num_people - i,
                {
                    let g = genos[i];
                    proof {
                        assert(0 <= (g as int) * (num_people as int) <= 2 * (num_people as int))
                            by (nonlinear_arith)
                            requires
                                0 <= g <= 2,
                                num_people >= 1,
                        ;
                    }
                    column.push((g as i64) * nn);
                    i += 1;
                }
                proof {
                    assert(ty == PlinkSnpType::Additive);
                    assert forall|q: int| 0 <= q < num_people implies #[trigger] column@[q]
                        == column_numerator(the_genos, ty, q) by {
                        assert(the_genos.len() == num_people);
                    }
                }
            } else {
                let dom = convert_geno_vec_to_dominance_representation(&genos);
                column = dom;
                proof {
                    assert(ty == PlinkSnpType::Dominance);
                    assert forall|q: int| 0 <= q < num_people implies #[trigger] column@[q]
                        == column_numerator(the_genos, ty, q) by {}
                }
            }
            let ghost col_view = column@;
            values.append(&mut column);
            proof {
                assert(col_view.len() == num_people as int);
                assert(forall|q: int|
                    0 <= q < num_people ==> #[trigger] col_view[q] == column_numerator(
                        the_genos,
                        ty,
                        q,
                    ));
                assert(forall|q: int|
                    0 <= q < num_people ==> -2 * self.people() <= #[trigger] col_view[q] <= 2
                        * self.people());
                assert((t + 1) * self.people() == t * self.people() + self.people())
                    by (nonlinear_arith);
                assert forall|k: int| 0 <= k < values@.len() implies #[trigger] values@[k]
                    == self.value(
                    self.members()[start_rank + k / self.people()],
                    k % self.people(),
                ) by {
                    if k < old_values.len() {
                        assert(values@[k] == old_values[k]);
                    } else {
                        let i = k - old_values.len();
                        lemma_fundamental_div_mod_converse(k, self.people(), t as int, i);
                        assert(values@[k] == col_view[i]);
                        assert(values@[k] == column_numerator(the_genos, ty, i));
                        assert(self.members()[rank as int] == snp as int);
                    }
                }
                assert forall|k: int| 0 <= k < values@.len() implies -2 * self.people()
                    <= #[trigger] values@[k] <= 2 * self.people() by {
                    if k >= old_values.len() {
                        assert(values@[k] == col_view[k - old_values.len()]);
                    }
                }
            }
            t += 1;
        }
        values
    }

    /// Pulls the next chunk from the front: up to `chunk()` SNP columns
    /// decoded into a matrix, or `None` once the window is exhausted.
    pub fn next(&mut self) -> (r: Option<GenotypeMatrix>)
        requires
            old(self).wf(),
        ensures
            final(self).wf(),
            final(self).data() == old(self).data(),
            final(self).list() == old(self).list(),
            final(self).people() == old(self).people(),
            final(self).chunk() == old(self).chunk(),
            final(self).members() == old(self).members(),
            final(self).end_rank() == old(self).end_rank(),
            old(self).cursor() >= old(self).end_rank() ==> r is None && final(self).cursor()
                == old(self).cursor(),
            old(self).cursor() < old(self).end_rank() ==> ({
                let c = if old(self).chunk() <= old(self).end_rank() - old(self).cursor() {
                    old(self).chunk()
                } else {
                    old(self).end_rank() - old(self).cursor()
                };
                &&& final(self).cursor() == old(self).cursor() + c
                &&& r matches Some(m) && m.wf() && m.rows() == old(self).people() && m.cols()
                    == c && (forall|i: int, t: int|
                    0 <= i < old(self).people() && 0 <= t < c ==> #[trigger] m.entry(i, t)
                        == old(self).value(old(self).members()[old(self).cursor() + t], i))
            }),
    {
        if self.range_cursor >= self.num_snps_in_range {
            return None;
        }
        let remaining = self.num_snps_in_range - self.range_cursor;
        let chunk_size = if self.num_snps_per_iter <= remaining {
            self.num_snps_per_iter
        } else {
            remaining
        };
        Some(self.read_chunk(chunk_size))
    }

    /// Pulls the next chunk from the back: the same matrix a forward
    /// traversal would eventually produce for the final outstanding ranks.
    pub fn next_back(&mut self) -> (r: Option<GenotypeMatrix>)
        requires
            old(self).wf(),
        ensures
            final(self).wf(),
            final(self).data() == old(self).data(),
            final(self).list() == old(self).list(),
            final(self).people() == old(self).people(),
            final(self).chunk() == old(self).chunk(),
            final(self).members() == old(self).members(),
            final(self).cursor() == old(self).cursor(),
            old(self).cursor() >= old(self).end_rank() ==> r is None && final(self).end_rank()
                == old(self).end_rank(),
            old(self).cursor() < old(self).end_rank() ==> ({
                let c = if old(self).chunk() <= old(self).end_rank() - old(self).cursor() {
                    old(self).chunk()
                } else {
                    old(self).end_rank() - old(self).cursor()
                };
                &&& final(self).end_rank() == old(self).end_rank() - c
                &&& r matches Some(m) && m.wf() && m.rows() == old(self).people() && m.cols()
                    == c && (forall|i: int, t: int|
                    0 <= i < old(self).people() && 0 <= t < c ==> #[trigger] m.entry(i, t)
                        == old(self).value(
                        old(self).members()[old(self).end_rank() - c + t],
                        i,
                    ))
            }),
    {
        if self.range_cursor >= self.num_snps_in_range {
            return None;
        }
        let remaining = self.num_snps_in_range - self.range_cursor;
        let chunk_size = if self.num_snps_per_iter <= remaining {
            self.num_snps_per_iter
        } else {
            remaining
        };
        let new_end = self.num_snps_in_range - chunk_size;
        let values = self.read_columns(new_end, chunk_size);
        self.num_snps_in_range = new_end;
        proof {
            assert((chunk_size as int) * self.people() == self.people() * (chunk_size as int))
                by (nonlinear_arith);
        }
        let m = GenotypeMatrix::from_column_major(values, self.num_people, chunk_size);
        proof {
            assert forall|i: int, t: int|
                0 <= i < self.people() && 0 <= t < chunk_size implies #[trigger] m.entry(i, t)
                == self.value(self.members()[new_end + t], i) by {
                let k = t * self.people() + i;
                assert(0 <= k && k + 1 <= (chunk_size as int) * self.people())
                    by (nonlinear_arith)
                    requires
                        0 <= i < self.people(),
                        0 <= t < chunk_size,
                        1 <= self.people(),
                        k == t * self.people() + i,
                ;
                lemma_fundamental_div_mod_converse(k, self.people(), t, i);
                assert(values@[k] == self.value(self.members()[new_end + k / self.people()], k
                    % self.people()));
                assert(m.entry(i, t) == values@[k]);
            }
        }
        Some(m)
    }

    /// Reads the next `chunk_size` outstanding ranks from the front and
    /// advances the cursor past them.
    fn read_chunk(&mut self, chunk_size: usize) -> (m: GenotypeMatrix)
        requires
            old(self).wf(),
            1 <= chunk_size,
            old(self).cursor() + chunk_size <= old(self).end_rank(),
        ensures
            final(self).wf(),
            final(self).data() == old(self).data(),
            final(self).list() == old(self).list(),
            final(self).people() == old(self).people(),
            final(self).chunk() == old(self).chunk(),
            final(self).members() == old(self).members(),
            final(self).end_rank() == old(self).end_rank(),
            final(self).cursor() == old(self).cursor() + chunk_size,
            m.wf(),
            m.rows() == old(self).people(),
            m.cols() == chunk_size,
            forall|i: int, t: int|
                0 <= i < old(self).people() && 0 <= t < chunk_size ==> #[trigger] m.entry(i, t)
                    == old(self).value(old(self).members()[old(self).cursor() + t], i),
    {
        let start = self.range_cursor;
        let values = self.read_columns(start, chunk_size);
        self.range_cursor = start + chunk_size;
        proof {
            assert((chunk_size as int) * self.people() == self.people() * (chunk_size as int))
                by (nonlinear_arith);
        }
        let m = GenotypeMatrix::from_column_major(values, self.num_people, chunk_size);
        proof {
            assert forall|i: int, t: int|
                0 <= i < self.people() && 0 <= t < chunk_size implies #[trigger] m.entry(i, t)
                == self.value(self.members()[start + t], i) by {
                let k = t * self.people() + i;
                assert(0 <= k && k + 1 <= (chunk_size as int) * self.people())
                    by (nonlinear_arith)
                    requires
                        0 <= i < self.people(),
                        0 <= t < chunk_size,
                        1 <= self.people(),
                        k == t * self.people() + i,
                ;
                lemma_fundamental_div_mod_converse(k, self.people(), t, i);
                assert(values@[k] == self.value(self.members()[start + k / self.people()], k
                    % self.people()));
                assert(m.entry(i, t) == values@[k]);
            }
        }
        m
    }

    /// A fresh iterator over the same backing data, restricted to `range`,
    /// with its cursor at the start.
    pub fn clone_with_range(&self, range: SnpRangeSet) -> (r: Result<PlinkColChunkIter, Error>)
        requires
            self.wf(),
            range.wf(),
        ensures
            r is Ok <==> (forall|k: int|
                0 <= k < range.members().len() ==> 0 <= #[trigger] range.members()[k]
                    < total_snps(self.list())),
            r matches Ok(it) ==> {
                &&& it.wf()
                &&& it.data() == self.data()
                &&& it.list() == self.list()
                &&& it.people() == self.people()
                &&& it.chunk() == self.chunk()
                &&& it.members() == range.members()
                &&& it.cursor() == 0
                &&& it.end_rank() == range.members().len()
            },
            r matches Err(e) ==> e == Error::RangeOutOfBounds,
    {
        let data = copy_byte_matrix(&self.bed_data_list);
        let counts = copy_counts(&self.file_num_snps);
        proof {
            assert(data@.len() == self.bed_data_list@.len());
            assert forall|f: int| 0 <= f < counts@.len() implies (#[trigger] data@[f])@.len()
                >= NUM_MAGIC_BYTES + counts@[f].0 * bytes_per_snp_spec(self.people()) by {
                assert(data@[f]@ == self.bed_data_list@[f]@);
                assert(self.data()[f] == self.bed_data_list@[f]@);
            }
        }
        let r = PlinkColChunkIter::new(
            data,
            counts,
            range,
            self.num_snps_per_iter,
            self.num_people,
        );
        proof {
            match &r {
                Ok(it) => {
                    assert(it.data() =~= self.data());
                },
                Err(_) => {},
            }
        }
        r
    }

    /// Splits a fresh traversal of the range into the first `index` chunks
    /// and the rest: the left half covers ranks up to m = min(chunk *
    /// index, |range|), the right half the ranks from m on, each with its
    /// own fresh backing buffers.
    pub fn split_at(&self, index: usize) -> (r: (PlinkColChunkIter, PlinkColChunkIter))
        requires
            self.wf(),
        ensures
            ({
                let m = if self.chunk() * index <= self.members().len() {
                    self.chunk() * index
                } else {
                    self.members().len() as int
                };
                &&& r.0.wf() && r.1.wf()
                &&& r.0.data() == self.data() && r.1.data() == self.data()
                &&& r.0.list() == self.list() && r.1.list() == self.list()
                &&& r.0.people() == self.people() && r.1.people() == self.people()
                &&& r.0.chunk() == self.chunk() && r.1.chunk() == self.chunk()
                &&& r.0.members() == self.members().subrange(0, m)
                &&& r.1.members() == self.members().subrange(m, self.members().len() as int)
                &&& r.0.cursor() == 0 && r.1.cursor() == 0
                &&& r.0.end_rank() == m && r.1.end_rank() == self.members().len() - m
            }),
    {
        let size = self.range.size();
        let mid = match self.num_snps_per_iter.checked_mul(index) {
            Some(x) => {
                if x <= size {
                    x
                } else {
                    size
                }
            },
            None => size,
        };
        let left_range = self.range.slice(0, mid);
        let right_range = self.range.slice(mid, size);
        let left = match self.clone_with_range(left_range) {
            Ok(it) => it,
            Err(_) => {
                proof {
                    assert(false);
                }
                vstd::pervasive::unreached()
            },
        };
        let right = match self.clone_with_range(right_range) {
            Ok(it) => it,
            Err(_) => {
                proof {
                    assert(false);
                }
                vstd::pervasive::unreached()
            },
        };
        (left, right)
    }
}

/// The two halves of a split cover the whole range: the member sequences
/// of ranks [0, m) and [m, len) concatenate back to the original member
/// sequence, so chunks of the halves, in order, visit exactly the SNPs of
/// the whole traversal.
pub proof fn lemma_split_members(members: Seq<int>, m: int)
    requires
        0 <= m <= members.len(),
    ensures
        members.subrange(0, m) + members.subrange(m, members.len() as int) == members,
{
    assert(members.subrange(0, m) + members.subrange(m, members.len() as int) =~= members);
}

/// Total SNP count of a (count, kind) list.
pub fn total_num_snps_of(file_num_snps: &Vec<(usize, PlinkSnpType)>) -> (r: usize)
    requires
        total_snps(file_num_snps@) <= usize::MAX,
    ensures
        r == total_snps(file_num_snps@),
{
    let ghost list = file_num_snps@;
    let num_files = file_num_snps.len();
    let mut total: usize = 0;
    let mut f: usize = 0;
    while f < num_files
        invariant
            list == file_num_snps@,
            total_snps(list) <= usize::MAX,
            num_files == list.len(),
            f <= num_files,
            total == snps_before(list, f as int),
        decreases num_files - f,
    {
        proof {
            crate::file_index::lemma_snps_before_monotonic(list, f as int + 1, list.len() as int);
        }
        total = total + file_num_snps[f].0;
        f += 1;
    }
    total
}

} // verus!
