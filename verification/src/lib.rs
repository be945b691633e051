//! Verified core of a reader/writer library for a packed two-bit genotype
//! file format: each variant (SNP) stores one two-bit code per individual,
//! SNP-major on disk, behind a three-byte magic preamble.

pub mod bed;
pub mod byte_chunk;
pub mod codec;
pub mod error;
pub mod file_index;
pub mod matrix;
pub mod model;
pub mod range_set;
pub mod reader;

pub use bed::{
    get_num_people_last_byte, usize_div_ceil, AlleleFrequency, PlinkBed, PlinkFileRecord,
};
pub use byte_chunk::ByteChunkIter;
pub use codec::{geno_to_lowest_two_bits, lowest_two_bits_to_geno, PlinkSnpType};
pub use error::Error;
pub use file_index::FileSnpIndexer;
pub use matrix::{
    convert_geno_arr_to_dominance_representation, convert_geno_vec_to_dominance_representation,
    GenotypeMatrix,
};
pub use range_set::SnpRangeSet;
pub use reader::PlinkColChunkIter;
