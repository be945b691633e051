use crate::codec::{code_at, code_to_geno, PlinkSnpType};
use crate::file_index::{file_of_snp, local_snp_index, snp_type_of};
use crate::matrix::{column_numerator, geno_seq_sum, lemma_geno_seq_sum_bounds};
use vstd::prelude::*;

verus! {

/// Number of magic bytes at the head of a packed file.
pub const NUM_MAGIC_BYTES: usize = 3;

/// Whether a packed file begins with the three magic bytes 0x6c, 0x1b, 0x01.
pub open spec fn magic_ok(bytes: Seq<u8>) -> bool {
    &&& bytes.len() >= 3
    &&& bytes[0] == 0x6c
    &&& bytes[1] == 0x1b
    &&& bytes[2] == 0x01
}

/// Bytes per SNP block: four individuals to a byte, rounded up.
pub open spec fn bytes_per_snp_spec(num_people: int) -> int {
    (num_people + 3) / 4
}

/// The byte at which the block of global SNP `snp` starts within its own
/// file: behind the magic preamble and the blocks of the earlier local SNPs.
pub open spec fn snp_block_base(
    list: Seq<(usize, PlinkSnpType)>,
    num_people: int,
    snp: int,
) -> int {
    NUM_MAGIC_BYTES + local_snp_index(list, snp) * bytes_per_snp_spec(num_people)
}

/// The decoded genotype column of global SNP `snp`: one value per
/// individual, read from the backing file that the file index resolves
/// `snp` to.
pub open spec fn snp_genos(
    data: Seq<Seq<u8>>,
    list: Seq<(usize, PlinkSnpType)>,
    num_people: int,
    snp: int,
) -> Seq<u8> {
    Seq::new(
        num_people as nat,
        |i: int|
            code_to_geno(
                code_at(data[file_of_snp(list, snp)], snp_block_base(list, num_people, snp), i),
            ),
    )
}

/// The numerator (over denominator `num_people`) of the matrix value of
/// individual `i` for global SNP `snp`: the decoded genotype scaled by
/// `num_people` for an additive SNP, its dominance value otherwise.
pub open spec fn snp_value(
    data: Seq<Seq<u8>>,
    list: Seq<(usize, PlinkSnpType)>,
    num_people: int,
    snp: int,
    i: int,
) -> int {
    column_numerator(snp_genos(data, list, num_people, snp), snp_type_of(list, snp), i)
}

/// Sum of the numerators of the first `upto` individuals for global SNP
/// `snp`.
pub open spec fn snp_value_sum(
    data: Seq<Seq<u8>>,
    list: Seq<(usize, PlinkSnpType)>,
    num_people: int,
    snp: int,
    upto: int,
) -> int
    decreases upto,
{
    if upto <= 0 {
        0
    } else {
        snp_value_sum(data, list, num_people, snp, upto - 1) + snp_value(
            data,
            list,
            num_people,
            snp,
            upto - 1,
        )
    }
}

/// Every matrix numerator lies within twice the number of individuals of
/// zero, on either side.
pub proof fn lemma_snp_value_bounds(
    data: Seq<Seq<u8>>,
    list: Seq<(usize, PlinkSnpType)>,
    num_people: int,
    snp: int,
    i: int,
)
    requires
        1 <= num_people,
        0 <= i < num_people,
    ensures
        -2 * num_people <= snp_value(data, list, num_people, snp, i) <= 2 * num_people,
{
    let genos = snp_genos(data, list, num_people, snp);
    assert(genos.len() == num_people);
    assert forall|q: int| 0 <= q < genos.len() implies #[trigger] genos[q] <= 2 by {}
    lemma_geno_seq_sum_bounds(genos);
    assert(0 <= geno_seq_sum(genos) <= 2 * num_people);
    assert(0 <= genos[i] * genos.len() <= 2 * num_people) by (nonlinear_arith)
        requires
            0 <= genos[i] <= 2,
            genos.len() == num_people,
            num_people >= 1,
    ;
}

} // verus!
