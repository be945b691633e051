use crate::codec::PlinkSnpType;
use vstd::prelude::*;

verus! {

/// Number of SNPs held by the files before file `f` in the list.
pub open spec fn snps_before(list: Seq<(usize, PlinkSnpType)>, f: int) -> int
    decreases f,
{
    if f <= 0 {
        0
    } else {
        snps_before(list, f - 1) + list[f - 1].0
    }
}

/// Total number of SNPs over the whole file list.
pub open spec fn total_snps(list: Seq<(usize, PlinkSnpType)>) -> int {
    snps_before(list, list.len() as int)
}

/// The file that holds global SNP index `s`, found by walking the list from
/// file `f` on; `list.len()` if no file holds it.
pub open spec fn file_of_snp_from(list: Seq<(usize, PlinkSnpType)>, f: int, s: int) -> int
    decreases list.len() - f,
{
    if f < 0 || f >= list.len() {
        list.len() as int
    } else if s < snps_before(list, f + 1) {
        f
    } else {
        file_of_snp_from(list, f + 1, s)
    }
}

/// The file that holds global SNP index `s`.
pub open spec fn file_of_snp(list: Seq<(usize, PlinkSnpType)>, s: int) -> int {
    file_of_snp_from(list, 0, s)
}

/// The index of global SNP `s` within its own file.
pub open spec fn local_snp_index(list: Seq<(usize, PlinkSnpType)>, s: int) -> int {
    s - snps_before(list, file_of_snp(list, s))
}

/// The interpretation kind of global SNP `s`.
pub open spec fn snp_type_of(list: Seq<(usize, PlinkSnpType)>, s: int) -> PlinkSnpType {
    list[file_of_snp(list, s)].1
}

pub proof fn lemma_snps_before_monotonic(list: Seq<(usize, PlinkSnpType)>, f: int, g: int)
    requires
        0 <= f <= g,
    ensures
        snps_before(list, f) <= snps_before(list, g),
    decreases g - f,
{
    if f < g {
        lemma_snps_before_monotonic(list, f, g - 1);
    }
}

/// For a global index on the axis, the resolved file is in range and the
/// index falls inside that file's span.
pub proof fn lemma_file_of_snp_in_range(list: Seq<(usize, PlinkSnpType)>, f: int, s: int)
    requires
        0 <= f <= list.len(),
        snps_before(list, f) <= s < total_snps(list),
    ensures
        f <= file_of_snp_from(list, f, s) < list.len(),
        snps_before(list, file_of_snp_from(list, f, s)) <= s,
        s < snps_before(list, file_of_snp_from(list, f, s) + 1),
    decreases list.len() - f,
{
    if f == list.len() {
        // contradiction: snps_before(list, len) == total_snps(list) <= s
    } else if s < snps_before(list, f + 1) {
    } else {
        lemma_file_of_snp_in_range(list, f + 1, s);
    }
}

/// Resolves a global SNP index on the logical axis spanned by a list of
/// (SNP count, kind) records, one per backing file.
pub struct FileSnpIndexer {
    file_num_snps: Vec<(usize, PlinkSnpType)>,
}

impl FileSnpIndexer {
    pub closed spec fn list(self) -> Seq<(usize, PlinkSnpType)> {
        self.file_num_snps@
    }

    /// The indexer is usable when the counts sum inside the machine's range.
    pub closed spec fn wf(self) -> bool {
        total_snps(self.list()) <= usize::MAX
    }

    pub fn new(file_num_snps: Vec<(usize, PlinkSnpType)>) -> (r: FileSnpIndexer)
        requires
            total_snps(file_num_snps@) <= usize::MAX,
        ensures
            r.wf(),
            r.list() == file_num_snps@,
    {
        FileSnpIndexer { file_num_snps }
    }

    /// Resolves `snp_index` to (file index, SNP index within that file,
    /// kind), or `None` when the index lies past the end of the axis.
    pub fn get_file_snp_index(&self, snp_index: usize) -> (r: Option<
        (usize, usize, PlinkSnpType),
    >)
        requires
            self.wf(),
        ensures
            snp_index < total_snps(self.list()) ==> r == Some(
                (
                    file_of_snp(self.list(), snp_index as int) as usize,
                    local_snp_index(self.list(), snp_index as int) as usize,
                    snp_type_of(self.list(), snp_index as int),
                ),
            ),
            snp_index >= total_snps(self.list()) ==> r is None,
    {
        let ghost list = self.list();
        let num_files = self.file_num_snps.len();
        let mut acc: usize = 0;
        let mut file_index: usize = 0;
        while file_index < num_files
            invariant
                self.wf(),
                list == self.list(),
                num_files == list.len(),
                file_index <= num_files,
                acc == snps_before(list, file_index as int),
                snp_index < total_snps(list) ==> file_of_snp(list, snp_index as int)
                    == file_of_snp_from(list, file_index as int, snp_index as int),
                snp_index >= acc,
            decreases num_files - file_index,
        {
            let (count, snp_type) = self.file_num_snps[file_index];
            proof {
                lemma_snps_before_monotonic(list, file_index as int + 1, list.len() as int);
            }
            if snp_index < acc + count {
                proof {
                    if snp_index < total_snps(list) {
                        assert(file_of_snp_from(list, file_index as int, snp_index as int)
                            == file_index as int);
                    }
                    lemma_snps_before_monotonic(list, 0, file_index as int);
                }
                return Some((file_index, snp_index - acc, snp_type));
            }
            acc = acc + count;
            file_index += 1;
        }
        proof {
            if snp_index < total_snps(list) {
                assert(false);
            }
        }
        None
    }
}

} // verus!
