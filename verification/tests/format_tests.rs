use plink_bed::{
    geno_to_lowest_two_bits, get_num_people_last_byte, lowest_two_bits_to_geno, usize_div_ceil,
    Error, FileSnpIndexer, PlinkBed, PlinkFileRecord, PlinkSnpType, SnpRangeSet,
};

fn record(
    bytes: Vec<u8>,
    num_snps: usize,
    num_people: usize,
    ty: PlinkSnpType,
) -> PlinkFileRecord {
    PlinkFileRecord {
        bed_path: String::from("test.bed"),
        bed_bytes: bytes,
        num_snps,
        num_people,
        snp_type: ty,
    }
}

#[test]
fn test_codec_round_trip() {
    for g in 0u8..3 {
        assert_eq!(lowest_two_bits_to_geno(geno_to_lowest_two_bits(g)), g);
    }
    for c in [0u8, 2, 3] {
        assert_eq!(geno_to_lowest_two_bits(lowest_two_bits_to_geno(c)), c);
    }
    // The missing code decodes to 0, which re-encodes to 0b11.
    assert_eq!(lowest_two_bits_to_geno(0b01), 0);
    assert_eq!(geno_to_lowest_two_bits(lowest_two_bits_to_geno(0b01)), 0b11);
    // The exact code table.
    assert_eq!(lowest_two_bits_to_geno(0b00), 2);
    assert_eq!(lowest_two_bits_to_geno(0b10), 1);
    assert_eq!(lowest_two_bits_to_geno(0b11), 0);
    assert_eq!(geno_to_lowest_two_bits(0), 0b11);
    assert_eq!(geno_to_lowest_two_bits(1), 0b10);
    assert_eq!(geno_to_lowest_two_bits(2), 0b00);
}

#[test]
fn test_magic_bytes() {
    let magic = PlinkBed::get_magic_bytes();
    assert_eq!(magic, [0x6c, 0x1b, 0x01]);
    assert_eq!(PlinkBed::get_num_magic_bytes(), 3);
    assert!(PlinkBed::verify_magic_bytes(0, &vec![0x6c, 0x1b, 0x01, 0xff]).is_ok());
    assert_eq!(
        PlinkBed::verify_magic_bytes(2, &vec![0x6c, 0x1b, 0x02]),
        Err(Error::BadFormat { file_index: 2 })
    );
    assert_eq!(
        PlinkBed::verify_magic_bytes(0, &vec![0x6c, 0x1b]),
        Err(Error::BadFormat { file_index: 0 })
    );
}

#[test]
fn test_create_bed_file_size() {
    // Three individuals and three SNPs pack into one byte per SNP, behind
    // the three magic bytes.
    let rows: Vec<Vec<u8>> = vec![vec![0, 0, 1], vec![1, 1, 2], vec![0, 2, 1]];
    let bytes = PlinkBed::create_bed(&rows);
    assert_eq!(bytes.len(), 6);
    assert_eq!(&bytes[0..3], &[0x6c, 0x1b, 0x01]);
}

#[test]
fn test_new_errors() {
    assert!(matches!(
        PlinkBed::new(vec![]),
        Err(Error::EmptyRecordList)
    ));

    let bad_magic = vec![0x00u8, 0x1b, 0x01, 0x00];
    assert_eq!(
        PlinkBed::new(vec![record(bad_magic, 1, 1, PlinkSnpType::Additive)]).err(),
        Some(Error::BadFormat { file_index: 0 })
    );

    let rows: Vec<Vec<u8>> = vec![vec![0, 1], vec![2, 0]];
    let bytes = PlinkBed::create_bed(&rows);
    assert_eq!(
        PlinkBed::new(vec![record(bytes.clone(), 0, 2, PlinkSnpType::Additive)]).err(),
        Some(Error::ZeroSnps { file_index: 0 })
    );
    assert_eq!(
        PlinkBed::new(vec![record(bytes.clone(), 2, 0, PlinkSnpType::Additive)]).err(),
        Some(Error::ZeroPeople)
    );
    assert_eq!(
        PlinkBed::new(vec![
            record(bytes.clone(), 2, 2, PlinkSnpType::Additive),
            record(bytes.clone(), 2, 3, PlinkSnpType::Additive),
        ])
        .err(),
        Some(Error::InconsistentNumPeople)
    );
    // Two SNPs of two individuals need 3 + 2 bytes; a shorter file is refused.
    assert_eq!(
        PlinkBed::new(vec![record(
            vec![0x6c, 0x1b, 0x01, 0xaa],
            2,
            2,
            PlinkSnpType::Additive
        )])
        .err(),
        Some(Error::FileTooShort { file_index: 0 })
    );
}

#[test]
fn test_byte_chunk_iter() {
    let rows: Vec<Vec<u8>> = vec![vec![0, 0, 1], vec![1, 1, 2], vec![0, 2, 1]];
    let bytes = PlinkBed::create_bed(&rows);
    let expected_body = vec![bytes[3], bytes[4], bytes[5]];
    let bed = PlinkBed::new(vec![record(bytes, 3, 3, PlinkSnpType::Additive)]).unwrap();

    let mut iter = bed.byte_chunk_iter(0, 3, 6, 2).unwrap();
    assert_eq!(iter.next(), Some(vec![expected_body[0], expected_body[1]]));
    assert_eq!(iter.next(), Some(vec![expected_body[2]]));
    assert_eq!(iter.next(), None);

    match bed.byte_chunk_iter(0, 0, 6, 0) {
        Err(Error::ZeroChunkSize) => {}
        _ => panic!("expected a zero chunk size error"),
    }
    match bed.byte_chunk_iter(0, 0, 7, 1) {
        Err(Error::ByteWindowOutOfBounds) => {}
        _ => panic!("expected an out of bounds error"),
    }
    match bed.byte_chunk_iter(1, 0, 6, 1) {
        Err(Error::FileIndexOutOfRange { file_index: 1 }) => {}
        _ => panic!("expected a file index error"),
    }
}

#[test]
fn test_range_set() {
    assert!(matches!(
        SnpRangeSet::from_slice(vec![(4, 2)]),
        Err(Error::InvalidIntervals)
    ));
    assert!(matches!(
        SnpRangeSet::from_slice(vec![(0, 5), (5, 8)]),
        Err(Error::InvalidIntervals)
    ));

    let set = SnpRangeSet::from_slice(vec![(2, 4), (6, 9)]).unwrap();
    assert_eq!(set.size(), 7);
    assert_eq!(set.first(), Some(2));
    assert!(set.contains(3));
    assert!(set.contains(6));
    assert!(!set.contains(5));
    assert!(!set.contains(10));
    assert_eq!(set.to_vec(), vec![2, 3, 4, 6, 7, 8, 9]);
    let sub = set.slice(2, 5);
    assert_eq!(sub.to_vec(), vec![4, 6, 7]);
    assert_eq!(set.rank_get(0), 2);
    assert_eq!(set.rank_get(3), 6);
    assert_eq!(set.rank_get(6), 9);
}

#[test]
fn test_create_bed_t() {
    let num_people = 137usize;
    let num_snps = 71usize;
    let mut rows: Vec<Vec<u8>> = Vec::new();
    for i in 0..num_people {
        let mut row: Vec<u8> = Vec::new();
        for j in 0..num_snps {
            row.push(((i * 7 + j * 13 + i * j) % 3) as u8);
        }
        rows.push(row);
    }
    let bed = PlinkBed::new(vec![record(
        PlinkBed::create_bed(&rows),
        num_snps,
        num_people,
        PlinkSnpType::Additive,
    )])
    .unwrap();

    let out = bed.create_bed_t(0, 8).unwrap();
    let bytes_per_person = usize_div_ceil(num_snps, 4);
    assert_eq!(out.len(), num_people * bytes_per_person);
    for i in 0..num_people {
        for k in 0..num_snps {
            let byte = out[i * bytes_per_person + k / 4];
            let code = (byte >> (2 * (k % 4))) & 3;
            assert_eq!(code, geno_to_lowest_two_bits(rows[i][k]));
        }
    }

    match bed.create_bed_t(1, 8) {
        Err(Error::FileIndexOutOfRange { file_index: 1 }) => {}
        _ => panic!("expected a file index error"),
    }
    match bed.create_bed_t(0, 0) {
        Err(Error::ZeroChunkSize) => {}
        _ => panic!("expected a zero chunk size error"),
    }
}

#[test]
fn test_create_dominance_errors() {
    let rows: Vec<Vec<u8>> = vec![vec![0, 1], vec![2, 0]];
    let bed = PlinkBed::new(vec![record(
        PlinkBed::create_bed(&rows),
        2,
        2,
        PlinkSnpType::Additive,
    )])
    .unwrap();
    match bed.create_dominance_geno_bed(3) {
        Err(Error::FileIndexOutOfRange { file_index: 3 }) => {}
        _ => panic!("expected a file index error"),
    }
}

#[test]
fn test_dominance_preserves_missing() {
    // A block holding the missing code keeps it through the dominance
    // recoding, while genotype 2 is recoded to genotype 1.
    let bytes = vec![0x6c, 0x1b, 0x01, 0b01_10_00_01u8];
    let bed = PlinkBed::new(vec![record(bytes, 1, 4, PlinkSnpType::Additive)]).unwrap();
    let out = bed.create_dominance_geno_bed(0).unwrap();
    assert_eq!(out.len(), 4);
    // Individual 0: missing stays 01; individual 1: 00 (genotype 2)
    // becomes 10 (genotype 1); individual 2: 10 stays; individual 3:
    // missing stays.
    assert_eq!(out[3], 0b01_10_10_01u8);
}

#[test]
fn test_utility_functions() {
    assert_eq!(usize_div_ceil(0, 4), 0);
    assert_eq!(usize_div_ceil(1, 4), 1);
    assert_eq!(usize_div_ceil(4, 4), 1);
    assert_eq!(usize_div_ceil(5, 4), 2);
    assert_eq!(usize_div_ceil(137, 4), 35);
    assert_eq!(get_num_people_last_byte(0), None);
    assert_eq!(get_num_people_last_byte(4), Some(4));
    assert_eq!(get_num_people_last_byte(5), Some(1));
    assert_eq!(get_num_people_last_byte(7), Some(3));
}

#[test]
fn test_file_snp_indexer() {
    let indexer = FileSnpIndexer::new(vec![
        (3, PlinkSnpType::Additive),
        (2, PlinkSnpType::Dominance),
    ]);
    assert_eq!(
        indexer.get_file_snp_index(0),
        Some((0, 0, PlinkSnpType::Additive))
    );
    assert_eq!(
        indexer.get_file_snp_index(2),
        Some((0, 2, PlinkSnpType::Additive))
    );
    assert_eq!(
        indexer.get_file_snp_index(3),
        Some((1, 0, PlinkSnpType::Dominance))
    );
    assert_eq!(
        indexer.get_file_snp_index(4),
        Some((1, 1, PlinkSnpType::Dominance))
    );
    assert_eq!(indexer.get_file_snp_index(5), None);
}

#[test]
fn test_byte_chunk_iter_empty_window() {
    let rows: Vec<Vec<u8>> = vec![vec![0, 0, 1], vec![1, 1, 2], vec![0, 2, 1]];
    let bytes = PlinkBed::create_bed(&rows);
    let bed = PlinkBed::new(vec![record(bytes, 3, 3, PlinkSnpType::Additive)]).unwrap();
    // A start at or past the end yields no windows.
    let mut iter = bed.byte_chunk_iter(0, 6, 6, 2).unwrap();
    assert_eq!(iter.next(), None);
    let mut iter = bed.byte_chunk_iter(0, 6, 4, 2).unwrap();
    assert_eq!(iter.next(), None);
}
