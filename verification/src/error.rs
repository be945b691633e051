use vstd::prelude::*;

verus! {

/// Failures of the core's own logic: format, argument and range violations.
///
/// I/O failures stay with the unverified callers that perform the actual
/// reads and writes; the core only ever sees byte buffers and counts.
#[derive(Clone, Copy, PartialEq, Eq, Structural, Debug)]
pub enum Error {
    /// The file at this position in the record list does not begin with the
    /// three magic bytes.
    BadFormat { file_index: usize },
    /// The record list is empty.
    EmptyRecordList,
    /// The variant list of this file reports zero SNPs.
    ZeroSnps { file_index: usize },
    /// A sample list reports zero people.
    ZeroPeople,
    /// The sample lists disagree about the number of people.
    InconsistentNumPeople,
    /// The number of people is too large for exact integer arithmetic.
    NumPeopleTooLarge,
    /// The packed file at this position is shorter than its SNP count demands.
    FileTooShort { file_index: usize },
    /// The per-file SNP counts sum past the machine's address range.
    TotalSnpCountOverflow,
    /// A file index is not a valid position in the file list.
    FileIndexOutOfRange { file_index: usize },
    /// A SNP index lies outside the logical SNP axis.
    SnpIndexOutOfRange { snp_index: usize },
    /// An interval list is not ordered, disjoint and in machine range.
    InvalidIntervals,
    /// A requested range reaches outside the logical SNP axis.
    RangeOutOfBounds,
    /// A chunk size of zero was requested.
    ZeroChunkSize,
    /// A byte window reaches past the end of its file.
    ByteWindowOutOfBounds,
}

} // verus!
