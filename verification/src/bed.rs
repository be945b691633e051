use crate::byte_chunk::ByteChunkIter;
use crate::codec::{
    code_at, dominance_code_map, extract_code, geno_to_code, geno_to_lowest_two_bits,
    pack_codes, PlinkSnpType, NUM_PEOPLE_PER_BYTE,
};
use crate::error::Error;
use crate::file_index::{snps_before, total_snps, lemma_snps_before_monotonic};
use crate::matrix::GenotypeMatrix;
use crate::model::{bytes_per_snp_spec, magic_ok, snp_value, snp_value_sum, NUM_MAGIC_BYTES};
use crate::range_set::SnpRangeSet;
use crate::reader::{copy_byte_matrix, copy_counts, PlinkColChunkIter};
use vstd::arithmetic::div_mod::{
    lemma_fundamental_div_mod, lemma_fundamental_div_mod_converse,
};
use vstd::prelude::*;

verus! {

/// Largest supported number of individuals: keeps every numerator and
/// column sum of the exact rational matrices inside an `i64`.
pub const MAX_NUM_PEOPLE: usize = 0x4000_0000;

/// One source of the reader: a packed genotype file together with what its
/// companion variant list and sample list report, already read by the
/// caller (the core itself performs no I/O).
pub struct PlinkFileRecord {
    /// Path of the packed file, kept for reporting.
    pub bed_path: String,
    /// The packed file's bytes.
    pub bed_bytes: Vec<u8>,
    /// Number of SNPs, as the variant list reports it (its line count).
    pub num_snps: usize,
    /// Number of individuals, as the sample list reports it (its line count).
    pub num_people: usize,
    /// How this file's codes are to be interpreted.
    pub snp_type: PlinkSnpType,
}

/// The (SNP count, kind) pairs of a record list.
pub open spec fn records_counts(rs: Seq<PlinkFileRecord>) -> Seq<(usize, PlinkSnpType)> {
    Seq::new(rs.len(), |f: int| (rs[f].num_snps, rs[f].snp_type))
}

/// A record list the reader accepts: non-empty; every packed file begins
/// with the magic bytes and is long enough for its SNP count; every variant
/// list is non-empty; all sample lists agree on a positive number of
/// individuals that machine arithmetic can handle; and the SNP counts sum
/// inside the machine's range.
pub open spec fn records_valid(rs: Seq<PlinkFileRecord>) -> bool {
    &&& rs.len() >= 1
    &&& forall|f: int| 0 <= f < rs.len() ==> magic_ok((#[trigger] rs[f]).bed_bytes@)
    &&& forall|f: int| 0 <= f < rs.len() ==> (#[trigger] rs[f]).num_snps >= 1
    &&& forall|f: int| 0 <= f < rs.len() ==> (#[trigger] rs[f]).num_people == rs[0].num_people
    &&& 1 <= rs[0].num_people <= MAX_NUM_PEOPLE
    &&& forall|f: int|
        0 <= f < rs.len() ==> (#[trigger] rs[f]).bed_bytes@.len() >= NUM_MAGIC_BYTES + rs[f].num_snps
            * bytes_per_snp_spec(rs[0].num_people as int)
    &&& total_snps(records_counts(rs)) <= usize::MAX
}

/// A logical reader over one or more packed genotype files that share one
/// sample list, concatenated along the SNP axis.
pub struct PlinkBed {
    bed_path_list: Vec<String>,
    bed_data_list: Vec<Vec<u8>>,
    file_num_snps: Vec<(usize, PlinkSnpType)>,
    pub num_people: usize,
}

impl PlinkBed {
    /// The (SNP count, kind) pair of each backing file.
    pub closed spec fn list(self) -> Seq<(usize, PlinkSnpType)> {
        self.file_num_snps@
    }

    /// The bytes of each backing file.
    pub closed spec fn data(self) -> Seq<Seq<u8>> {
        Seq::new(self.bed_data_list@.len(), |f: int| self.bed_data_list@[f]@)
    }

    /// The path of each backing file.
    pub closed spec fn paths(self) -> Seq<String> {
        self.bed_path_list@
    }

    /// The number of individuals.
    pub closed spec fn people(self) -> int {
        self.num_people as int
    }

    pub closed spec fn wf(self) -> bool {
        &&& self.data().len() == self.list().len()
        &&& self.paths().len() == self.list().len()
        &&& self.list().len() >= 1
        &&& 1 <= self.num_people <= MAX_NUM_PEOPLE
        &&& forall|f: int| 0 <= f < self.list().len() ==> (#[trigger] self.list()[f]).0 >= 1
        &&& forall|f: int| 0 <= f < self.list().len() ==> magic_ok(#[trigger] self.data()[f])
        &&& forall|f: int|
            0 <= f < self.list().len() ==> (#[trigger] self.data()[f]).len() >= NUM_MAGIC_BYTES
                + self.list()[f].0 * bytes_per_snp_spec(self.num_people as int)
        &&& total_snps(self.list()) <= usize::MAX
    }

    /// Builds a reader from a list of file records, validating each record
    /// and the consistency of the list.
    pub fn new(records: Vec<PlinkFileRecord>) -> (r: Result<PlinkBed, Error>)
        ensures
            r is Ok <==> records_valid(records@),
            r matches Ok(b) ==> {
                &&& b.wf()
                &&& b.list() == records_counts(records@)
                &&& b.data().len() == records@.len()
                &&& forall|f: int|
                    0 <= f < records@.len() ==> #[trigger] b.data()[f] == records@[f].bed_bytes@
                &&& b.paths().len() == records@.len()
                &&& forall|f: int|
                    0 <= f < records@.len() ==> #[trigger] b.paths()[f] == records@[f].bed_path
                &&& b.people() == records@[0].num_people
            },
            r matches Err(e) ==> match e {
                Error::EmptyRecordList => records@.len() == 0,
                Error::BadFormat { file_index } => file_index < records@.len() && !magic_ok(
                    records@[file_index as int].bed_bytes@,
                ),
                Error::ZeroSnps { file_index } => file_index < records@.len()
                    && records@[file_index as int].num_snps == 0,
                Error::InconsistentNumPeople => exists|f: int|
                    0 <= f < records@.len() && (#[trigger] records@[f]).num_people
                        != records@[0].num_people,
                Error::ZeroPeople => records@.len() >= 1 && records@[0].num_people == 0,
                Error::NumPeopleTooLarge => records@.len() >= 1 && records@[0].num_people
                    > MAX_NUM_PEOPLE,
                Error::FileTooShort { file_index } => file_index < records@.len()
                    && records@[file_index as int].bed_bytes@.len() < NUM_MAGIC_BYTES
                    + records@[file_index as int].num_snps * bytes_per_snp_spec(
                    records@[0].num_people as int,
                ),
                Error::TotalSnpCountOverflow => total_snps(records_counts(records@))
                    > usize::MAX,
                _ => false,
            },
    {
        let num_files = records.len();
        if num_files == 0 {
            return Err(Error::EmptyRecordList);
        }
        let mut f: usize = 0;
        while f < num_files
            invariant
                num_files == records@.len(),
                f <= num_files,
                forall|t: int| 0 <= t < f ==> magic_ok((#[trigger] records@[t]).bed_bytes@),
            decreases num_files - f,
        {
            match PlinkBed::verify_magic_bytes(f, &records[f].bed_bytes) {
                Ok(_) => {},
                Err(e) => {
                    return Err(e);
                },
            }
            f += 1;
        }
        let mut f: usize = 0;
        while f < num_files
            invariant
                num_files == records@.len(),
                f <= num_files,
                forall|t: int| 0 <= t < f ==> (#[trigger] records@[t]).num_snps >= 1,
            decreases num_files - f,
        {
            if records[f].num_snps == 0 {
                return Err(Error::ZeroSnps { file_index: f });
            }
            f += 1;
        }
        let num_people = records[0].num_people;
        let mut f: usize = 1;
        while f < num_files
            invariant
                num_files == records@.len(),
                num_files >= 1,
                1 <= f <= num_files,
                num_people == records@[0].num_people,
                forall|t: int| 0 <= t < f ==> (#[trigger] records@[t]).num_people == num_people,
            decreases num_files - f,
        {
            if records[f].num_people != num_people {
                return Err(Error::InconsistentNumPeople);
            }
            f += 1;
        }
        if num_people == 0 {
            return Err(Error::ZeroPeople);
        }
        if num_people > MAX_NUM_PEOPLE {
            return Err(Error::NumPeopleTooLarge);
        }
        let bytes_per_snp = PlinkBed::num_bytes_per_snp(num_people);
        let mut f: usize = 0;
        while f < num_files
            invariant
                num_files == records@.len(),
                f <= num_files,
                num_people == records@[0].num_people,
                bytes_per_snp == bytes_per_snp_spec(num_people as int),
                forall|t: int|
                    0 <= t < f ==> (#[trigger] records@[t]).bed_bytes@.len() >= NUM_MAGIC_BYTES
                        + records@[t].num_snps * bytes_per_snp_spec(num_people as int),
            decreases num_files - f,
        {
            let len = records[f].bed_bytes.len();
            let ok = match records[f].num_snps.checked_mul(bytes_per_snp) {
                Some(body_len) => len >= NUM_MAGIC_BYTES && len - NUM_MAGIC_BYTES >= body_len,
                None => false,
            };
            if !ok {
                proof {
                    assert(records@[f as int].bed_bytes@.len() < NUM_MAGIC_BYTES + records@[f
                        as int].num_snps * bytes_per_snp_spec(num_people as int));
                }
                return Err(Error::FileTooShort { file_index: f });
            }
            f += 1;
        }
        let ghost counts = records_counts(records@);
        let mut total: usize = 0;
        let mut f: usize = 0;
        while f < num_files
            invariant
                num_files == records@.len(),
                f <= num_files,
                counts == records_counts(records@),
                total == snps_before(counts, f as int),
            decreases num_files - f,
        {
            match total.checked_add(records[f].num_snps) {
                Some(t) => {
                    total = t;
                },
                None => {
                    proof {
                        lemma_snps_before_monotonic(counts, f as int + 1, counts.len() as int);
                    }
                    return Err(Error::TotalSnpCountOverflow);
                },
            }
            f += 1;
        }
        let mut bed_path_list: Vec<String> = Vec::new();
        let mut bed_data_list: Vec<Vec<u8>> = Vec::new();
        let mut file_num_snps: Vec<(usize, PlinkSnpType)> = Vec::new();
        let mut f: usize = 0;
        while f < num_files
            invariant
                num_files == records@.len(),
                f <= num_files,
                bed_path_list@.len() == f,
                bed_data_list@.len() == f,
                file_num_snps@.len() == f,
                forall|t: int|
                    0 <= t < f ==> #[trigger] bed_path_list@[t] == records@[t].bed_path,
                forall|t: int|
                    0 <= t < f ==> #[trigger] bed_data_list@[t]@ == records@[t].bed_bytes@,
                forall|t: int|
                    0 <= t < f ==> #[trigger] file_num_snps@[t] == (
                        records@[t].num_snps,
                        records@[t].snp_type,
                    ),
            decreases num_files - f,
        {
            bed_path_list.push(records[f].bed_path.clone());
            bed_data_list.push(copy_bytes(&records[f].bed_bytes));
            file_num_snps.push((records[f].num_snps, records[f].snp_type));
            f += 1;
        }
        let bed = PlinkBed { bed_path_list, bed_data_list, file_num_snps, num_people };
        proof {
            assert(bed.list() =~= records_counts(records@));
            assert(records_valid(records@));
            assert forall|t: int| 0 <= t < records@.len() implies #[trigger] bed.data()[t]
                == records@[t].bed_bytes@ by {}
        }
        Ok(bed)
    }

    /// Checks that a packed file's bytes begin with the magic preamble.
    pub fn verify_magic_bytes(file_index: usize, bed_bytes: &Vec<u8>) -> (r: Result<(), Error>)
        ensures
            r is Ok <==> magic_ok(bed_bytes@),
            r is Err ==> r == Err::<(), Error>(Error::BadFormat { file_index }),
    {
        if bed_bytes.len() < 3 {
            return Err(Error::BadFormat { file_index });
        }
        if bed_bytes[0] == 0x6c && bed_bytes[1] == 0x1b && bed_bytes[2] == 0x01 {
            Ok(())
        } else {
            Err(Error::BadFormat { file_index })
        }
    }

    /// The three magic bytes that begin every packed file.
    pub fn get_magic_bytes() -> (r: [u8; 3])
        ensures
            r@.len() == 3,
            magic_ok(r@),
    {
        [0x6c, 0x1b, 0x01]
    }

    /// How many magic bytes begin every packed file.
    pub fn get_num_magic_bytes() -> (r: usize)
        ensures
            r == NUM_MAGIC_BYTES,
    {
        NUM_MAGIC_BYTES
    }

    /// Bytes per SNP block for a given number of individuals.
    pub fn num_bytes_per_snp(num_people: usize) -> (r: usize)
        ensures
            r == bytes_per_snp_spec(num_people as int),
    {
        usize_div_ceil(num_people, NUM_PEOPLE_PER_BYTE)
    }

    pub fn get_bed_path_list(&self) -> (r: &Vec<String>)
        ensures
            r@ == self.paths(),
    {
        &self.bed_path_list
    }

    pub fn get_file_num_snps(&self) -> (r: &Vec<(usize, PlinkSnpType)>)
        ensures
            r@ == self.list(),
    {
        &self.file_num_snps
    }

    /// Total number of SNPs over all backing files.
    pub fn total_num_snps(&self) -> (r: usize)
        requires
            self.wf(),
        ensures
            r == total_snps(self.list()),
    {
        let ghost list = self.list();
        let num_files = self.file_num_snps.len();
        let mut total: usize = 0;
        let mut f: usize = 0;
        while f < num_files
            invariant
                self.wf(),
                list == self.list(),
                num_files == list.len(),
                f <= num_files,
                total == snps_before(list, f as int),
            decreases num_files - f,
        {
            proof {
                lemma_snps_before_monotonic(list, f as int + 1, list.len() as int);
            }
            total = total + self.file_num_snps[f].0;
            f += 1;
        }
        total
    }

    /// Packs a dense genotype matrix (one row per individual, one column
    /// per SNP) into the bytes of a packed file: the magic preamble, then
    /// one block per SNP column with individual 4k at the lowest two bits
    /// of byte k and zeroed residual bits.
    pub fn create_bed(geno_rows: &Vec<Vec<u8>>) -> (bytes: Vec<u8>)
        requires
            forall|i: int|
                0 <= i < geno_rows@.len() ==> (#[trigger] geno_rows@[i])@.len()
                    == geno_rows@[0]@.len(),
        ensures
            ({
                let num_people = geno_rows@.len() as int;
                let num_snps = if num_people == 0 {
                    0int
                } else {
                    geno_rows@[0]@.len() as int
                };
                let block = bytes_per_snp_spec(num_people);
                &&& bytes@.len() == NUM_MAGIC_BYTES + num_snps * block
                &&& magic_ok(bytes@) || num_people * num_snps == 0
                &&& bytes@[0] == 0x6c && bytes@[1] == 0x1b && bytes@[2] == 0x01
                &&& forall|c: int, j: int|
                    0 <= c < num_snps && 0 <= j < num_people ==> #[trigger] code_at(
                        bytes@,
                        NUM_MAGIC_BYTES + c * block,
                        j,
                    ) == geno_to_code(geno_rows@[j]@[c] & 3)
                &&& forall|c: int, j: int|
                    0 <= c < num_snps && num_people <= j < 4 * block ==> #[trigger] code_at(
                        bytes@,
                        NUM_MAGIC_BYTES + c * block,
                        j,
                    ) == 0
            }),
    {
        let num_people = geno_rows.len();
        let num_snps = if num_people == 0 {
            0
        } else {
            geno_rows[0].len()
        };
        let ghost block = bytes_per_snp_spec(num_people as int);
        let mut bytes: Vec<u8> = Vec::new();
        bytes.push(0x6c);
        bytes.push(0x1b);
        bytes.push(0x01);
        let mut c: usize = 0;
        while c < num_snps
            invariant
                num_people == geno_rows@.len(),
                num_people >= 1 ==> num_snps == geno_rows@[0]@.len(),
                forall|i: int|
                    0 <= i < geno_rows@.len() ==> (#[trigger] geno_rows@[i])@.len()
                        == geno_rows@[0]@.len(),
                block == bytes_per_snp_spec(num_people as int),
                c <= num_snps,
                bytes@.len() == NUM_MAGIC_BYTES + c * block,
                bytes@[0] == 0x6c && bytes@[1] == 0x1b && bytes@[2] == 0x01,
                forall|cc: int, j: int|
                    0 <= cc < c && 0 <= j < num_people ==> #[trigger] code_at(
                        bytes@,
                        NUM_MAGIC_BYTES + cc * block,
                        j,
                    ) == geno_to_code(geno_rows@[j]@[cc] & 3),
                forall|cc: int, j: int|
                    0 <= cc < c && num_people <= j < 4 * block ==> #[trigger] code_at(
                        bytes@,
                        NUM_MAGIC_BYTES + cc * block,
                        j,
                    ) == 0,
            decreases num_snps - c,
        {
            let mut codes: Vec<u8> = Vec::new();
            let mut j: usize = 0;
            while j < num_people
                invariant
                    num_people == geno_rows@.len(),
                    num_people >= 1 ==> num_snps == geno_rows@[0]@.len(),
                    forall|i: int|
                        0 <= i < geno_rows@.len() ==> (#[trigger] geno_rows@[i])@.len()
                            == geno_rows@[0]@.len(),
                    c < num_snps,
                    j <= num_people,
                    codes@.len() == j,
                    forall|t: int|
                        0 <= t < j ==> #[trigger] codes@[t] == geno_to_code(
                            geno_rows@[t]@[c as int] & 3,
                        ) && codes@[t] < 4,
                decreases num_people - j,
            {
                let code = geno_to_lowest_two_bits(geno_rows[j][c]);
                codes.push(code);
                j += 1;
            }
            let mut packed = pack_codes(&codes);
            let ghost old_bytes = bytes@;
            let ghost packed_view = packed@;
            bytes.append(&mut packed);
            proof {
                assert(packed_view.len() == block);
                assert((c + 1) * block == c * block + block) by (nonlinear_arith);
                lemma_fundamental_div_mod(num_people as int + 3, 4);
                vstd::arithmetic::div_mod::lemma_mod_pos_bound(num_people as int + 3, 4);
                assert(4 * block >= num_people);
                assert(old_bytes.len() == NUM_MAGIC_BYTES + c * block);
                assert forall|cc: int, j: int|
                    0 <= cc < c + 1 && 0 <= j < 4 * block implies #[trigger] code_at(
                    bytes@,
                    NUM_MAGIC_BYTES + cc * block,
                    j,
                ) == (if cc < c {
                    code_at(old_bytes, NUM_MAGIC_BYTES + cc * block, j)
                } else {
                    code_at(packed_view, 0, j)
                }) by {
                    let base = NUM_MAGIC_BYTES + cc * block;
                    if cc < c {
                        lemma_block_offset_bounds(cc, c as int, block, j, 4 * block);
                        assert(base + j / 4 < old_bytes.len());
                        assert(bytes@[base + j / 4] == old_bytes[base + j / 4]);
                    } else {
                        lemma_block_offset_bounds(cc, c as int + 1, block, j, 4 * block);
                        assert(cc * block == c * block) by (nonlinear_arith)
                            requires
                                cc == c,
                        ;
                        assert(base + j / 4 == old_bytes.len() + j / 4);
                        assert(bytes@[base + j / 4] == packed_view[j / 4]);
                    }
                }
            }
            c += 1;
        }
        bytes
    }
}

/// One entry of the allele-frequency vector: the exact rational
/// numerator / denominator, where the denominator is twice the number of
/// individuals times the matrix denominator.
#[derive(Clone, Copy, PartialEq, Eq, Structural, Debug)]
pub struct AlleleFrequency {
    pub numerator: i64,
    pub denominator: u64,
}

impl PlinkBed {
    /// A chunk iterator over the SNP axis, restricted to `range` when one
    /// is given, pulling up to `num_snps_per_iter` SNP columns per chunk.
    pub fn col_chunk_iter(&self, num_snps_per_iter: usize, range: Option<SnpRangeSet>) -> (r:
        Result<PlinkColChunkIter, Error>)
        requires
            self.wf(),
            range matches Some(rs) ==> rs.wf(),
        ensures
            r is Ok <==> num_snps_per_iter >= 1 && (match range {
                Some(rs) => forall|k: int|
                    0 <= k < rs.members().len() ==> 0 <= #[trigger] rs.members()[k]
                        < total_snps(self.list()),
                None => true,
            }),
            r matches Ok(it) ==> {
                &&& it.wf()
                &&& it.data() == self.data()
                &&& it.list() == self.list()
                &&& it.people() == self.people()
                &&& it.chunk() == num_snps_per_iter
                &&& it.cursor() == 0
                &&& it.end_rank() == it.members().len()
                &&& match range {
                    Some(rs) => it.members() == rs.members(),
                    None => it.members().len() == total_snps(self.list()) && (forall|k: int|
                        0 <= k < it.members().len() ==> #[trigger] it.members()[k] == k),
                }
            },
            r matches Err(e) ==> (e == Error::ZeroChunkSize && num_snps_per_iter == 0) || e
                == Error::RangeOutOfBounds,
    {
        let data = copy_byte_matrix(&self.bed_data_list);
        let counts = copy_counts(&self.file_num_snps);
        proof {
            assert forall|f: int| 0 <= f < counts@.len() implies (#[trigger] data@[f])@.len()
                >= NUM_MAGIC_BYTES + counts@[f].0 * bytes_per_snp_spec(self.people()) by {
                assert(data@[f]@ == self.bed_data_list@[f]@);
                assert(self.data()[f] == self.bed_data_list@[f]@);
            }
        }
        let r = match range {
            Some(rs) => PlinkColChunkIter::new(
                data,
                counts,
                rs,
                num_snps_per_iter,
                self.num_people,
            ),
            None => {
                let total = self.total_num_snps();
                proof {
                    assert(snps_before(self.list(), 0) == 0);
                    assert(snps_before(self.list(), 1) == self.list()[0].0);
                    lemma_snps_before_monotonic(self.list(), 1, self.list().len() as int);
                    assert(total >= 1);
                }
                let rs = SnpRangeSet::full(total);
                PlinkColChunkIter::new(data, counts, rs, num_snps_per_iter, self.num_people)
            },
        };
        proof {
            match &r {
                Ok(it) => {
                    assert(it.data() =~= self.data());
                },
                Err(_) => {},
            }
        }
        r
    }

    /// Materialises the whole selection as one dense matrix: the columns of
    /// `snps_range` (or of the full axis) in rank order.
    pub fn get_genotype_matrix(&self, snps_range: Option<SnpRangeSet>) -> (r: Result<
        GenotypeMatrix,
        Error,
    >)
        requires
            self.wf(),
            snps_range matches Some(rs) ==> rs.wf(),
        ensures
            r is Ok <==> (match snps_range {
                Some(rs) => forall|k: int|
                    0 <= k < rs.members().len() ==> 0 <= #[trigger] rs.members()[k]
                        < total_snps(self.list()),
                None => true,
            }),
            r matches Ok(m) ==> ({
                let members = match snps_range {
                    Some(rs) => rs.members(),
                    None => Seq::new(total_snps(self.list()) as nat, |k: int| k),
                };
                &&& m.wf()
                &&& m.rows() == self.people()
                &&& m.cols() == members.len()
                &&& forall|i: int, c: int|
                    0 <= i < self.people() && 0 <= c < members.len() ==> #[trigger] m.entry(
                        i,
                        c,
                    ) == snp_value(self.data(), self.list(), self.people(), members[c], i)
            }),
            r matches Err(e) ==> e == Error::RangeOutOfBounds,
    {
        let mut iter = match self.col_chunk_iter(100, snps_range) {
            Ok(it) => it,
            Err(e) => {
                return Err(Error::RangeOutOfBounds);
            },
        };
        let ghost members = iter.members();
        let num_people = self.num_people;
        let total_cols = iter.num_snps_outstanding();
        let mut values: Vec<i64> = Vec::new();
        let mut done: usize = 0;
        while done < total_cols
            invariant
                iter.wf(),
                iter.data() == self.data(),
                iter.list() == self.list(),
                iter.people() == num_people,
                num_people == self.people(),
                1 <= num_people,
                iter.chunk() >= 1,
                iter.members() == members,
                iter.end_rank() == members.len(),
                total_cols == members.len(),
                done == iter.cursor(),
                done <= total_cols,
                values@.len() == done * iter.people(),
                forall|k: int|
                    0 <= k < values@.len() ==> #[trigger] values@[k] == snp_value(
                        self.data(),
                        self.list(),
                        self.people(),
                        members[k / (num_people as int)],
                        k % (num_people as int),
                    ),
                forall|k: int|
                    0 <= k < values@.len() ==> -2 * self.people() <= #[trigger] values@[k] <= 2
                        * self.people(),
            decreases total_cols - done,
        {
            let m = match iter.next() {
                Some(m) => m,
                None => {
                    proof {
                        assert(false);
                    }
                    vstd::pervasive::unreached()
                },
            };
            let c = m.dim().1;
            let ghost chunk_cols = c as int;
            let mut mv = m.into_values();
            let ghost mv_view = mv@;
            let ghost old_values = values@;
            let ghost old_done = done as int;
            values.append(&mut mv);
            done = done + c;
            proof {
                assert((old_done + chunk_cols) * (num_people as int) == old_done * (num_people
                    as int) + chunk_cols * (num_people as int) && chunk_cols * (num_people
                    as int) == (num_people as int) * chunk_cols) by (nonlinear_arith);
                assert(values@.len() == done * iter.people());
                assert forall|k: int| 0 <= k < values@.len() implies #[trigger] values@[k]
                    == snp_value(
                    self.data(),
                    self.list(),
                    self.people(),
                    members[k / (num_people as int)],
                    k % (num_people as int),
                ) by {
                    let n = num_people as int;
                    if k < old_values.len() {
                        assert(values@[k] == old_values[k]);
                    } else {
                        let kk = k - old_values.len();
                        let j = kk / n;
                        let i = kk % n;
                        vstd::arithmetic::div_mod::lemma_fundamental_div_mod(kk, n);
                        assert(0 <= i < n && 0 <= j < chunk_cols) by (nonlinear_arith)
                            requires
                                0 <= kk < chunk_cols * n,
                                n >= 1,
                                kk == n * j + i,
                                0 <= i < n,
                        ;
                        assert(j * n + i == kk) by (nonlinear_arith)
                            requires
                                kk == n * j + i,
                        ;
                        assert(values@[k] == mv_view[j * n + i]);
                        assert(mv_view[j * n + i] == m.entry(i, j));
                        assert(k == (old_done + j) * n + i) by (nonlinear_arith)
                            requires
                                k == old_done * n + kk,
                                kk == n * j + i,
                        ;
                        lemma_fundamental_div_mod_converse(k, n, old_done + j, i);
                    }
                }
                assert forall|k: int| 0 <= k < values@.len() implies -2 * self.people()
                    <= #[trigger] values@[k] <= 2 * self.people() by {
                    let n = num_people as int;
                    vstd::arithmetic::div_mod::lemma_mod_pos_bound(k, n);
                    crate::model::lemma_snp_value_bounds(
                        self.data(),
                        self.list(),
                        self.people(),
                        members[k / n],
                        k % n,
                    );
                }
            }
        }
        proof {
            assert((total_cols as int) * (num_people as int) == (num_people as int) * (total_cols
                as int)) by (nonlinear_arith);
        }
        let m = GenotypeMatrix::from_column_major(values, num_people, total_cols);
        proof {
            assert forall|i: int, c: int|
                0 <= i < self.people() && 0 <= c < members.len() implies #[trigger] m.entry(
                i,
                c,
            ) == snp_value(self.data(), self.list(), self.people(), members[c], i) by {
                let n = num_people as int;
                let k = c * n + i;
                assert(0 <= k && k + 1 <= (total_cols as int) * n) by (nonlinear_arith)
                    requires
                        0 <= i < n,
                        0 <= c < total_cols,
                        n >= 1,
                        k == c * n + i,
                ;
                lemma_fundamental_div_mod_converse(k, n, c, i);
            }
        }
        Ok(m)
    }

    /// The allele frequency of every SNP on the axis, as exact rationals:
    /// entry j is the sum of column j's matrix numerators over twice the
    /// number of individuals times the matrix denominator. For an additive
    /// column this reduces to (sum of genotypes) / (2 * number of people).
    pub fn get_minor_allele_frequencies(&self, chunk_size: Option<usize>) -> (r: Result<
        Vec<AlleleFrequency>,
        Error,
    >)
        requires
            self.wf(),
        ensures
            r is Ok <==> !(chunk_size matches Some(c) && c == 0),
            r matches Ok(v) ==> {
                &&& v@.len() == total_snps(self.list())
                &&& forall|j: int|
                    0 <= j < v@.len() ==> (#[trigger] v@[j]).numerator == snp_value_sum(
                        self.data(),
                        self.list(),
                        self.people(),
                        j,
                        self.people(),
                    ) && v@[j].denominator == 2 * self.people() * self.people()
            },
            r matches Err(e) ==> e == Error::ZeroChunkSize,
    {
        let k = match chunk_size {
            Some(c) => c,
            None => 50,
        };
        if k == 0 {
            return Err(Error::ZeroChunkSize);
        }
        let mut iter = match self.col_chunk_iter(k, None) {
            Ok(it) => it,
            Err(e) => {
                proof {
                    assert(false);
                }
                vstd::pervasive::unreached()
            },
        };
        let ghost members = iter.members();
        let num_people = self.num_people;
        let nn = num_people as u64;
        proof {
            assert(2 * (nn as int) * (nn as int) <= 0x2000_0000_0000_0000 && (nn as int) * (nn
                as int) <= 0x1000_0000_0000_0000) by (nonlinear_arith)
                requires
                    1 <= nn <= 0x4000_0000,
            ;
        }
        let denominator: u64 = 2 * nn * nn;
        let total_cols = iter.num_snps_outstanding();
        let mut out: Vec<AlleleFrequency> = Vec::new();
        let mut done: usize = 0;
        while done < total_cols
            invariant
                iter.wf(),
                iter.data() == self.data(),
                iter.list() == self.list(),
                iter.people() == num_people,
                num_people == self.people(),
                1 <= num_people <= MAX_NUM_PEOPLE,
                nn == num_people,
                iter.chunk() >= 1,
                denominator == 2 * self.people() * self.people(),
                iter.members() == members,
                iter.end_rank() == members.len(),
                total_cols == members.len(),
                members.len() == total_snps(self.list()),
                forall|q: int| 0 <= q < members.len() ==> #[trigger] members[q] == q,
                done == iter.cursor(),
                done <= total_cols,
                out@.len() == done,
                forall|j: int|
                    0 <= j < done ==> (#[trigger] out@[j]).numerator == snp_value_sum(
                        self.data(),
                        self.list(),
                        self.people(),
                        j,
                        self.people(),
                    ) && out@[j].denominator == 2 * self.people() * self.people(),
            decreases total_cols - done,
        {
            let m = match iter.next() {
                Some(m) => m,
                None => {
                    proof {
                        assert(false);
                    }
                    vstd::pervasive::unreached()
                },
            };
            let c = m.dim().1;
            let ghost old_done = done as int;
            let mut t: usize = 0;
            while t < c
                invariant
                    m.wf(),
                    m.rows() == num_people,
                    m.cols() == c,
                    1 <= num_people <= MAX_NUM_PEOPLE,
                    nn == num_people,
                    num_people == self.people(),
                    denominator == 2 * self.people() * self.people(),
                    t <= c,
                    0 <= old_done,
                    old_done + c <= members.len(),
                    members.len() == total_snps(self.list()),
                    forall|q: int| 0 <= q < members.len() ==> #[trigger] members[q] == q,
                    forall|i: int, tt: int|
                        0 <= i < num_people && 0 <= tt < c ==> #[trigger] m.entry(i, tt)
                            == snp_value(
                            self.data(),
                            self.list(),
                            self.people(),
                            members[old_done + tt],
                            i,
                        ),
                    out@.len() == old_done + t,
                    forall|j: int|
                        0 <= j < old_done + t ==> (#[trigger] out@[j]).numerator
                            == snp_value_sum(
                            self.data(),
                            self.list(),
                            self.people(),
                            j,
                            self.people(),
                        ) && out@[j].denominator == 2 * self.people() * self.people(),
                decreases c - t,
            {
                let mut acc: i64 = 0;
                let mut i: usize = 0;
                while i < num_people
                    invariant
                        m.wf(),
                        m.rows() == num_people,
                        m.cols() == c,
                        t < c,
                        1 <= num_people <= MAX_NUM_PEOPLE,
                        num_people == self.people(),
                        0 <= old_done,
                        old_done + c <= members.len(),
                        forall|q: int| 0 <= q < members.len() ==> #[trigger] members[q] == q,
                        forall|ii: int, tt: int|
                            0 <= ii < num_people && 0 <= tt < c ==> #[trigger] m.entry(ii, tt)
                                == snp_value(
                                self.data(),
                                self.list(),
                                self.people(),
                                members[old_done + tt],
                                ii,
                            ),
                        i <= num_people,
                        acc == snp_value_sum(
                            self.data(),
                            self.list(),
                            self.people(),
                            old_done + t,
                            i as int,
                        ),
                        -2 * self.people() * (i as int) <= acc <= 2 * self.people() * (i
                            as int),
                    decreases num_people - i,
                {
                    let e = m.get(i, t);
                    proof {
                        assert(members[old_done + t] == old_done + t);
                        lemma_freq_sum_step(self.people(), i as int, acc as int, e as int);
                    }
                    acc = acc + e;
                    i += 1;
                }
                out.push(AlleleFrequency { numerator: acc, denominator });
                t += 1;
            }
            done = done + c;
        }
        Ok(out)
    }
}

impl PlinkBed {
    /// A byte-window iterator over one backing file's raw bytes, from
    /// `start_byte_index` (inclusive) to `end_byte_index_exclusive`.
    pub fn byte_chunk_iter(
        &self,
        file_index: usize,
        start_byte_index: usize,
        end_byte_index_exclusive: usize,
        chunk_size: usize,
    ) -> (r: Result<ByteChunkIter, Error>)
        requires
            self.wf(),
        ensures
            r is Ok <==> file_index < self.list().len() && chunk_size >= 1
                && end_byte_index_exclusive <= self.data()[file_index as int].len(),
            r matches Ok(it) ==> {
                &&& it.wf()
                &&& it.data_spec() == self.data()[file_index as int]
                &&& it.cursor_spec() == if start_byte_index <= end_byte_index_exclusive {
                    start_byte_index as int
                } else {
                    end_byte_index_exclusive as int
                }
                &&& it.end_spec() == end_byte_index_exclusive
                &&& it.chunk_spec() == chunk_size
            },
            r matches Err(e) ==> (e == Error::FileIndexOutOfRange { file_index } && file_index
                >= self.list().len()) || (file_index < self.list().len() && ((e
                == Error::ZeroChunkSize && chunk_size == 0) || (e
                == Error::ByteWindowOutOfBounds && chunk_size >= 1
                && end_byte_index_exclusive > self.data()[file_index as int].len()))),
    {
        if file_index >= self.bed_data_list.len() {
            return Err(Error::FileIndexOutOfRange { file_index });
        }
        let data = copy_bytes(&self.bed_data_list[file_index]);
        proof {
            assert(self.data()[file_index as int] == self.bed_data_list@[file_index as int]@);
        }
        ByteChunkIter::new(data, start_byte_index, end_byte_index_exclusive, chunk_size)
    }

    /// Writes the dominance recoding of one backing file: the same packed
    /// layout, with every code recoded through the code-level dominance map
    /// (genotype 2 becomes genotype 1) and zeroed residual bits.
    pub fn create_dominance_geno_bed(&self, file_index: usize) -> (r: Result<Vec<u8>, Error>)
        requires
            self.wf(),
        ensures
            r is Ok <==> file_index < self.list().len(),
            r matches Ok(out) ==> ({
                let count = self.list()[file_index as int].0 as int;
                let block = bytes_per_snp_spec(self.people());
                &&& out@.len() == NUM_MAGIC_BYTES + count * block
                &&& magic_ok(out@)
                &&& forall|s: int, j: int|
                    0 <= s < count && 0 <= j < self.people() ==> #[trigger] code_at(
                        out@,
                        NUM_MAGIC_BYTES + s * block,
                        j,
                    ) == dominance_code_map(
                        code_at(
                            self.data()[file_index as int],
                            NUM_MAGIC_BYTES + s * block,
                            j,
                        ),
                    )
                &&& forall|s: int, j: int|
                    0 <= s < count && self.people() <= j < 4 * block ==> #[trigger] code_at(
                        out@,
                        NUM_MAGIC_BYTES + s * block,
                        j,
                    ) == 0
            }),
            r matches Err(e) ==> e == (Error::FileIndexOutOfRange { file_index }) && file_index
                >= self.list().len(),
    {
        if file_index >= self.file_num_snps.len() {
            return Err(Error::FileIndexOutOfRange { file_index });
        }
        let num_people = self.num_people;
        let block = PlinkBed::num_bytes_per_snp(num_people);
        let count = self.file_num_snps[file_index].0;
        let data_len = self.bed_data_list[file_index].len();
        let ghost file_bytes = self.data()[file_index as int];
        proof {
            assert(file_bytes == self.bed_data_list@[file_index as int]@);
            lemma_fundamental_div_mod(num_people as int + 3, 4);
            vstd::arithmetic::div_mod::lemma_mod_pos_bound(num_people as int + 3, 4);
            assert(4 * block >= num_people);
            assert((num_people as int - 1) / 4 < block) by {
                lemma_fundamental_div_mod(num_people as int - 1, 4);
                lemma_fundamental_div_mod_converse(
                    num_people as int + 3,
                    4,
                    (num_people as int - 1) / 4 + 1,
                    (num_people as int - 1) % 4,
                );
            }
        }
        let mut out: Vec<u8> = Vec::new();
        out.push(0x6c);
        out.push(0x1b);
        out.push(0x01);
        let mut s: usize = 0;
        while s < count
            invariant
                self.wf(),
                file_index < self.list().len(),
                file_bytes == self.data()[file_index as int],
                num_people == self.people(),
                1 <= num_people,
                block == bytes_per_snp_spec(self.people()),
                4 * block >= num_people,
                (num_people as int - 1) / 4 < block,
                count == self.list()[file_index as int].0,
                data_len == file_bytes.len(),
                data_len >= NUM_MAGIC_BYTES + count * block,
                s <= count,
                out@.len() == NUM_MAGIC_BYTES + s * block,
                out@[0] == 0x6c && out@[1] == 0x1b && out@[2] == 0x01,
                forall|ss: int, j: int|
                    0 <= ss < s && 0 <= j < num_people ==> #[trigger] code_at(
                        out@,
                        NUM_MAGIC_BYTES + ss * block,
                        j,
                    ) == dominance_code_map(
                        code_at(file_bytes, NUM_MAGIC_BYTES + ss * block, j),
                    ),
                forall|ss: int, j: int|
                    0 <= ss < s && num_people <= j < 4 * block ==> #[trigger] code_at(
                        out@,
                        NUM_MAGIC_BYTES + ss * block,
                        j,
                    ) == 0,
            decreases count - s,
        {
            proof {
                assert((s + 1) * block <= count * block && 0 <= s * block && (s + 1) * block
                    == s * block + block) by (nonlinear_arith)
                    requires
                        0 <= s < count,
                        block >= 0,
                ;
            }
            let base = NUM_MAGIC_BYTES + s * block;
            let mut codes: Vec<u8> = Vec::new();
            let mut j: usize = 0;
            while j < num_people
                invariant
                    num_people >= 1,
                    j <= num_people,
                    base + block <= data_len,
                    (num_people as int - 1) / 4 < block,
                    data_len == self.bed_data_list@[file_index as int]@.len(),
                    file_index < self.bed_data_list@.len(),
                    file_bytes == self.bed_data_list@[file_index as int]@,
                    codes@.len() == j,
                    forall|t: int|
                        0 <= t < j ==> #[trigger] codes@[t] == dominance_code_map(
                            code_at(file_bytes, base as int, t),
                        ) && codes@[t] < 4,
                decreases num_people - j,
            {
                let c = extract_code(&self.bed_data_list[file_index], base, j);
                let mapped = if c == 0 {
                    2
                } else {
                    c
                };
                codes.push(mapped);
                j += 1;
            }
            let mut packed = pack_codes(&codes);
            let ghost old_out = out@;
            let ghost packed_view = packed@;
            out.append(&mut packed);
            proof {
                assert(packed_view.len() == block);
                assert forall|ss: int, j: int|
                    0 <= ss < s + 1 && 0 <= j < 4 * block implies #[trigger] code_at(
                    out@,
                    NUM_MAGIC_BYTES + ss * block,
                    j,
                ) == (if ss < s {
                    code_at(old_out, NUM_MAGIC_BYTES + ss * block, j)
                } else {
                    code_at(packed_view, 0, j)
                }) by {
                    let b = NUM_MAGIC_BYTES + ss * block;
                    if ss < s {
                        lemma_block_offset_bounds(ss, s as int, block as int, j, 4 * (block as int));
                        assert(b + j / 4 < old_out.len());
                        assert(out@[b + j / 4] == old_out[b + j / 4]);
                    } else {
                        lemma_block_offset_bounds(ss, s as int + 1, block as int, j, 4 * (block as int));
                        assert(ss * block == s * block) by (nonlinear_arith)
                            requires
                                ss == s,
                        ;
                        assert(b + j / 4 == old_out.len() + j / 4);
                        assert(out@[b + j / 4] == packed_view[j / 4]);
                    }
                }
            }
            s += 1;
        }
        Ok(out)
    }

    /// Writes the blocked transpose of one backing file: one block of
    /// ceil(SNP count / 4) bytes per individual, in which SNP 4k sits at
    /// the lowest two bits of byte k; residual bits are zero. The
    /// `snp_byte_chunk_size` parameter bounds the reading granularity and
    /// must be positive.
    pub fn create_bed_t(&self, file_index: usize, snp_byte_chunk_size: usize) -> (r: Result<
        Vec<u8>,
        Error,
    >)
        requires
            self.wf(),
        ensures
            r is Ok <==> file_index < self.list().len() && snp_byte_chunk_size >= 1,
            r matches Ok(out) ==> ({
                let count = self.list()[file_index as int].0 as int;
                let in_block = bytes_per_snp_spec(self.people());
                let out_block = (count + 3) / 4;
                &&& out@.len() == self.people() * out_block
                &&& forall|j: int, k: int|
                    0 <= j < self.people() && 0 <= k < count ==> #[trigger] code_at(
                        out@,
                        j * out_block,
                        k,
                    ) == code_at(
                        self.data()[file_index as int],
                        NUM_MAGIC_BYTES + k * in_block,
                        j,
                    )
                &&& forall|j: int, k: int|
                    0 <= j < self.people() && count <= k < 4 * out_block ==> #[trigger] code_at(
                        out@,
                        j * out_block,
                        k,
                    ) == 0
            }),
            r matches Err(e) ==> (e == (Error::FileIndexOutOfRange { file_index }) && file_index
                >= self.list().len()) || (e == Error::ZeroChunkSize && file_index
                < self.list().len() && snp_byte_chunk_size == 0),
    {
        if file_index >= self.file_num_snps.len() {
            return Err(Error::FileIndexOutOfRange { file_index });
        }
        if snp_byte_chunk_size == 0 {
            return Err(Error::ZeroChunkSize);
        }
        let num_people = self.num_people;
        let in_block = PlinkBed::num_bytes_per_snp(num_people);
        let count = self.file_num_snps[file_index].0;
        let out_block = usize_div_ceil(count, 4);
        let data_len = self.bed_data_list[file_index].len();
        let ghost file_bytes = self.data()[file_index as int];
        proof {
            assert(file_bytes == self.bed_data_list@[file_index as int]@);
            lemma_fundamental_div_mod(count as int + 3, 4);
            vstd::arithmetic::div_mod::lemma_mod_pos_bound(count as int + 3, 4);
            assert(4 * out_block >= count);
            assert((num_people as int - 1) / 4 < in_block) by {
                lemma_fundamental_div_mod(num_people as int + 3, 4);
                lemma_fundamental_div_mod(num_people as int - 1, 4);
                lemma_fundamental_div_mod_converse(
                    num_people as int + 3,
                    4,
                    (num_people as int - 1) / 4 + 1,
                    (num_people as int - 1) % 4,
                );
            }
        }
        let mut out: Vec<u8> = Vec::new();
        let mut j: usize = 0;
        while j < num_people
            invariant
                self.wf(),
                file_index < self.list().len(),
                file_bytes == self.data()[file_index as int],
                num_people == self.people(),
                1 <= num_people,
                in_block == bytes_per_snp_spec(self.people()),
                (num_people as int - 1) / 4 < in_block,
                count == self.list()[file_index as int].0,
                out_block == (count as int + 3) / 4,
                4 * out_block >= count,
                data_len == file_bytes.len(),
                data_len >= NUM_MAGIC_BYTES + count * in_block,
                j <= num_people,
                out@.len() == j * out_block,
                forall|jj: int, k: int|
                    0 <= jj < j && 0 <= k < count ==> #[trigger] code_at(
                        out@,
                        jj * out_block,
                        k,
                    ) == code_at(file_bytes, NUM_MAGIC_BYTES + k * in_block, jj),
                forall|jj: int, k: int|
                    0 <= jj < j && count <= k < 4 * out_block ==> #[trigger] code_at(
                        out@,
                        jj * out_block,
                        k,
                    ) == 0,
            decreases num_people - j,
        {
            let mut codes: Vec<u8> = Vec::new();
            let mut k: usize = 0;
            while k < count
                invariant
                    num_people >= 1,
                    j < num_people,
                    k <= count,
                    (num_people as int - 1) / 4 < in_block,
                    data_len >= NUM_MAGIC_BYTES + count * in_block,
                    data_len == self.bed_data_list@[file_index as int]@.len(),
                    file_index < self.bed_data_list@.len(),
                    file_bytes == self.bed_data_list@[file_index as int]@,
                    codes@.len() == k,
                    forall|t: int|
                        0 <= t < k ==> #[trigger] codes@[t] == code_at(
                            file_bytes,
                            NUM_MAGIC_BYTES + t * in_block,
                            j as int,
                        ) && codes@[t] < 4,
                decreases count - k,
            {
                proof {
                    assert((k + 1) * in_block <= count * in_block && 0 <= k * in_block && (k
                        + 1) * in_block == k * in_block + in_block) by (nonlinear_arith)
                        requires
                            0 <= k < count,
                            in_block >= 0,
                    ;
                }
                let base = NUM_MAGIC_BYTES + k * in_block;
                let c = extract_code(&self.bed_data_list[file_index], base, j);
                codes.push(c);
                k += 1;
            }
            let mut packed = pack_codes(&codes);
            let ghost old_out = out@;
            let ghost packed_view = packed@;
            out.append(&mut packed);
            proof {
                assert(packed_view.len() == out_block);
                assert((j + 1) * out_block == j * out_block + out_block) by (nonlinear_arith);
                assert forall|jj: int, k: int|
                    0 <= jj < j + 1 && 0 <= k < 4 * out_block implies #[trigger] code_at(
                    out@,
                    jj * out_block,
                    k,
                ) == (if jj < j {
                    code_at(old_out, jj * out_block, k)
                } else {
                    code_at(packed_view, 0, k)
                }) by {
                    let b = jj * out_block;
                    if jj < j {
                        lemma_block_offset_bounds(jj, j as int, out_block as int, k, 4 * (out_block as int));
                        assert(b + k / 4 < old_out.len());
                        assert(out@[b + k / 4] == old_out[b + k / 4]);
                    } else {
                        lemma_block_offset_bounds(jj, j as int + 1, out_block as int, k, 4 * (out_block as int));
                        assert(jj * out_block == j * out_block) by (nonlinear_arith)
                            requires
                                jj == j,
                        ;
                        assert(b + k / 4 == old_out.len() + k / 4);
                        assert(out@[b + k / 4] == packed_view[k / 4]);
                    }
                }
            }
            j += 1;
        }
        Ok(out)
    }
}

/// One accumulation step of a column sum stays within the exact-arithmetic
/// range.
proof fn lemma_freq_sum_step(p: int, i: int, acc: int, e: int)
    by (nonlinear_arith)
    requires
        1 <= p <= 0x4000_0000,
        0 <= i < p,
        -2 * p * i <= acc <= 2 * p * i,
        -2 * p <= e <= 2 * p,
    ensures
        -2 * p * (i + 1) <= acc + e <= 2 * p * (i + 1),
        -0x2000_0000_0000_0000 <= acc + e <= 0x2000_0000_0000_0000,
{
}

/// Byte offsets inside block `cc` of `c` blocks stay inside the run of `c`
/// blocks.
proof fn lemma_block_offset_bounds(cc: int, c: int, block: int, j: int, people_span: int)
    requires
        0 <= cc < c,
        0 <= j < 4 * block,
        people_span <= 4 * block,
        block >= 0,
    ensures
        cc * block + j / 4 < c * block,
        cc * block >= 0,
    decreases c,
{
    assert(j / 4 < block);
    assert(cc * block + block <= c * block && cc * block >= 0) by (nonlinear_arith)
        requires
            0 <= cc < c,
            block >= 0,
    ;
}

/// Ceiling division.
pub fn usize_div_ceil(a: usize, divisor: usize) -> (r: usize)
    requires
        divisor >= 1,
    ensures
        r == ((a as int) + (divisor as int) - 1) / (divisor as int),
{
    let q = a / divisor;
    let rem = a % divisor;
    proof {
        lemma_fundamental_div_mod(a as int, divisor as int);
        assert((divisor as int) * (q as int) == (q as int) * (divisor as int) && (divisor as int)
            * ((q as int) + 1) == (divisor as int) * (q as int) + (divisor as int) && ((q as int)
            + 1) * (divisor as int) == (q as int) * (divisor as int) + (divisor as int))
            by (nonlinear_arith);
        if rem == 0 {
            if a == 0 {
                assert((a as int + divisor - 1) / (divisor as int) == 0) by {
                    lemma_fundamental_div_mod_converse(
                        a as int + divisor - 1,
                        divisor as int,
                        0,
                        divisor - 1,
                    );
                }
            } else {
                lemma_fundamental_div_mod_converse(
                    a as int + divisor - 1,
                    divisor as int,
                    q as int,
                    divisor - 1,
                );
            }
        } else {
            lemma_fundamental_div_mod_converse(
                a as int + divisor - 1,
                divisor as int,
                q as int + 1,
                rem - 1,
            );
        }
    }
    if rem != 0 {
        proof {
            vstd::arithmetic::div_mod::lemma_mod_pos_bound(a as int, divisor as int);
            assert(divisor >= 2);
            vstd::arithmetic::div_mod::lemma_div_is_ordered_by_denominator(
                a as int,
                2,
                divisor as int,
            );
            assert(q <= a as int / 2);
        }
        q + 1
    } else {
        q
    }
}

/// How many individuals the final byte of a SNP block holds: four when the
/// count divides evenly, the remainder otherwise, and none for no people.
pub fn get_num_people_last_byte(total_num_people: usize) -> (r: Option<usize>)
    ensures
        total_num_people == 0 ==> r is None,
        total_num_people > 0 && total_num_people % 4 == 0 ==> r == Some(4usize),
        total_num_people % 4 != 0 ==> r == Some((total_num_people % 4) as usize),
{
    if total_num_people == 0 {
        None
    } else {
        let rem = total_num_people % 4;
        if rem == 0 {
            Some(4)
        } else {
            Some(rem)
        }
    }
}

/// Copies a byte buffer.
pub fn copy_bytes(v: &Vec<u8>) -> (r: Vec<u8>)
    ensures
        r@ == v@,
{
    let n = v.len();
    let mut r: Vec<u8> = Vec::new();
    let mut i: usize = 0;
    while i < n
        invariant
            n == v@.len(),
            i <= n,
            r@ =~= v@.subrange(0, i as int),
        decreases n - i,
    {
        r.push(v[i]);
        i += 1;
    }
    proof {
        assert(v@.subrange(0, n as int) =~= v@);
    }
    r
}

} // verus!
