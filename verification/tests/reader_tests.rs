use plink_bed::{
    convert_geno_arr_to_dominance_representation, Error, GenotypeMatrix, PlinkBed,
    PlinkFileRecord, PlinkSnpType, SnpRangeSet,
};

fn record(
    bytes: Vec<u8>,
    num_snps: usize,
    num_people: usize,
    ty: PlinkSnpType,
) -> PlinkFileRecord {
    PlinkFileRecord {
        bed_path: String::from("test.bed"),
        bed_bytes: bytes,
        num_snps,
        num_people,
        snp_type: ty,
    }
}

fn bed_from_rows(rows: &Vec<Vec<u8>>, ty: PlinkSnpType) -> PlinkBed {
    let bytes = PlinkBed::create_bed(rows);
    let num_people = rows.len();
    let num_snps = rows[0].len();
    PlinkBed::new(vec![record(bytes, num_snps, num_people, ty)]).unwrap()
}

fn assert_matrix_eq_rows(m: &GenotypeMatrix, rows: &Vec<Vec<u8>>) {
    let (nr, nc) = m.dim();
    assert_eq!(nr, rows.len());
    assert_eq!(nc, rows[0].len());
    let den = m.denominator() as i64;
    for i in 0..nr {
        for j in 0..nc {
            assert_eq!(m.get(i, j), rows[i][j] as i64 * den);
        }
    }
}

fn random_rows(num_people: usize, num_snps: usize) -> Vec<Vec<u8>> {
    let mut rows: Vec<Vec<u8>> = Vec::new();
    for _ in 0..num_people {
        let mut row: Vec<u8> = Vec::new();
        for _ in 0..num_snps {
            row.push(rand::random_range(0..3u8));
        }
        rows.push(row);
    }
    rows
}

#[test]
fn test_create_bed() {
    fn test(rows: Vec<Vec<u8>>) {
        let bed = bed_from_rows(&rows, PlinkSnpType::Additive);
        let m = bed.get_genotype_matrix(None).unwrap();
        assert_matrix_eq_rows(&m, &rows);
    }
    test(vec![vec![0]]);
    test(vec![vec![1]]);
    test(vec![vec![2]]);
    test(vec![vec![0, 1, 2]]);
    test(vec![vec![0], vec![1], vec![2]]);
    test(vec![vec![0, 0, 1], vec![1, 1, 2], vec![0, 2, 1]]);
    test(vec![
        vec![0, 0, 1, 2],
        vec![1, 1, 2, 1],
        vec![2, 0, 0, 0],
        vec![1, 0, 0, 2],
        vec![0, 2, 1, 0],
    ]);
    test(vec![
        vec![0, 0, 1, 2, 1],
        vec![1, 1, 2, 1, 2],
        vec![2, 0, 0, 0, 0],
        vec![1, 0, 0, 2, 2],
        vec![0, 2, 1, 0, 1],
    ]);
    test(vec![
        vec![0, 0, 1, 2, 1],
        vec![1, 0, 0, 2, 1],
        vec![2, 0, 2, 0, 0],
        vec![1, 1, 0, 2, 2],
        vec![0, 2, 2, 1, 1],
        vec![2, 1, 2, 0, 0],
        vec![1, 2, 0, 1, 2],
        vec![2, 0, 1, 0, 1],
    ]);
    test(vec![
        vec![0, 0, 1, 2, 1, 2, 2, 0],
        vec![1, 0, 0, 2, 1, 2, 1, 1],
        vec![2, 0, 2, 0, 0, 0, 2, 1],
        vec![1, 1, 0, 2, 2, 1, 1, 1],
        vec![0, 2, 2, 1, 1, 2, 0, 2],
        vec![2, 1, 2, 0, 0, 0, 2, 2],
        vec![1, 2, 0, 1, 2, 1, 1, 0],
        vec![2, 0, 1, 0, 1, 0, 0, 2],
    ]);
}

#[test]
fn test_multiple_bfiles() {
    let (num_people, num_snps_1, num_snps_2) = (137usize, 71usize, 37usize);
    let geno_1 = random_rows(num_people, num_snps_1);
    let geno_2 = random_rows(num_people, num_snps_2);
    let bytes_1 = PlinkBed::create_bed(&geno_1);
    let bytes_2 = PlinkBed::create_bed(&geno_2);
    let bed = PlinkBed::new(vec![
        record(bytes_1, num_snps_1, num_people, PlinkSnpType::Additive),
        record(bytes_2, num_snps_2, num_people, PlinkSnpType::Additive),
    ])
    .unwrap();
    assert_eq!(bed.total_num_snps(), num_snps_1 + num_snps_2);
    let m = bed.get_genotype_matrix(None).unwrap();
    let (nr, nc) = m.dim();
    assert_eq!(nr, num_people);
    assert_eq!(nc, num_snps_1 + num_snps_2);
    let den = m.denominator() as i64;
    for i in 0..num_people {
        for j in 0..nc {
            let expected = if j < num_snps_1 {
                geno_1[i][j]
            } else {
                geno_2[i][j - num_snps_1]
            };
            assert_eq!(m.get(i, j), expected as i64 * den);
        }
    }
}

#[test]
fn test_chunk_iter() {
    let (num_people, num_snps) = (137usize, 71usize);
    let geno = random_rows(num_people, num_snps);
    let bed = bed_from_rows(&geno, PlinkSnpType::Additive);
    let true_m = bed.get_genotype_matrix(None).unwrap();
    assert_matrix_eq_rows(&true_m, &geno);

    let chunk_size = 5usize;
    let mut iter = bed.col_chunk_iter(chunk_size, None).unwrap();
    let mut start = 0usize;
    while let Some(snps) = iter.next() {
        let (nr, nc) = snps.dim();
        assert_eq!(nr, num_people);
        for k in 0..nc {
            for i in 0..num_people {
                assert_eq!(snps.get(i, k), true_m.get(i, start + k));
            }
        }
        start += nc;
    }
    assert_eq!(start, num_snps);

    let snp_index_slices =
        SnpRangeSet::from_slice(vec![(2, 4), (6, 9), (20, 46), (70, 70)]).unwrap();
    let selected = snp_index_slices.to_vec();
    assert_eq!(selected.len(), 35);
    let mut iter = bed
        .col_chunk_iter(chunk_size, Some(snp_index_slices))
        .unwrap();
    let mut rank = 0usize;
    while let Some(snps) = iter.next() {
        let (nr, nc) = snps.dim();
        assert_eq!(nr, num_people);
        for k in 0..nc {
            let j = selected[rank + k];
            for i in 0..num_people {
                assert_eq!(snps.get(i, k), true_m.get(i, j));
            }
        }
        rank += nc;
    }
    assert_eq!(rank, 35);

    let snp_index_slices =
        SnpRangeSet::from_slice(vec![(2, 4), (6, 9), (20, 46), (70, 70)]).unwrap();
    let sub = bed.get_genotype_matrix(Some(snp_index_slices)).unwrap();
    let (nr, nc) = sub.dim();
    assert_eq!((nr, nc), (num_people, 35));
    for (jj, &j) in selected.iter().enumerate() {
        for i in 0..num_people {
            assert_eq!(sub.get(i, jj), true_m.get(i, j));
        }
    }
}

#[test]
fn test_create_dominance_geno_bed() {
    fn test(rows: Vec<Vec<u8>>) {
        let num_people = rows.len();
        let num_snps = rows[0].len();
        let bed = bed_from_rows(&rows, PlinkSnpType::Additive);
        let dominance_bytes = bed.create_dominance_geno_bed(0).unwrap();
        let dominance_bed = PlinkBed::new(vec![record(
            dominance_bytes,
            num_snps,
            num_people,
            PlinkSnpType::Additive,
        )])
        .unwrap();
        let m = dominance_bed.get_genotype_matrix(None).unwrap();
        let den = m.denominator() as i64;
        for i in 0..num_people {
            for j in 0..num_snps {
                let expected = match rows[i][j] {
                    2 => 1u8,
                    g => g,
                };
                assert_eq!(m.get(i, j), expected as i64 * den);
            }
        }
    }
    test(vec![
        vec![0, 0, 1, 2],
        vec![1, 1, 2, 1],
        vec![2, 0, 0, 0],
        vec![1, 0, 0, 2],
        vec![0, 2, 1, 0],
    ]);
    test(vec![
        vec![0, 0, 1, 2, 2],
        vec![1, 1, 2, 1, 0],
        vec![2, 0, 0, 0, 2],
        vec![1, 0, 0, 2, 1],
        vec![0, 2, 1, 0, 1],
    ]);
    test(vec![
        vec![0, 0, 1, 2, 2],
        vec![1, 1, 2, 1, 0],
        vec![2, 0, 0, 0, 2],
        vec![1, 0, 0, 2, 1],
        vec![0, 1, 2, 1, 2],
        vec![2, 1, 2, 0, 1],
        vec![1, 0, 1, 1, 0],
        vec![2, 1, 0, 2, 0],
    ]);
    test(vec![
        vec![0, 0, 1, 2, 2, 1, 1, 0],
        vec![1, 1, 2, 1, 0, 0, 0, 0],
        vec![2, 0, 0, 0, 2, 1, 0, 1],
        vec![1, 0, 0, 2, 1, 1, 2, 0],
        vec![0, 1, 2, 1, 2, 1, 1, 2],
        vec![2, 1, 2, 0, 1, 0, 2, 0],
        vec![1, 0, 1, 1, 0, 0, 0, 2],
        vec![2, 1, 0, 2, 0, 0, 1, 1],
    ]);
    test(vec![
        vec![0, 0, 1, 2, 2, 1, 1, 0, 2],
        vec![1, 1, 2, 1, 0, 0, 0, 0, 1],
        vec![2, 0, 0, 0, 2, 1, 0, 1, 1],
        vec![1, 0, 0, 2, 1, 1, 2, 0, 2],
        vec![0, 1, 2, 1, 2, 1, 1, 2, 2],
        vec![2, 1, 2, 0, 1, 0, 2, 0, 0],
        vec![1, 0, 1, 1, 0, 0, 0, 2, 0],
        vec![2, 1, 0, 2, 0, 0, 1, 1, 2],
    ]);
}

fn assert_matrix_almost_eq(m: &GenotypeMatrix, expected: &Vec<Vec<f64>>, eps: f64) {
    let (nr, nc) = m.dim();
    assert_eq!(nr, expected.len());
    assert_eq!(nc, expected[0].len());
    let den = m.denominator() as f64;
    for i in 0..nr {
        for j in 0..nc {
            let actual = m.get(i, j) as f64 / den;
            assert!(
                (actual - expected[i][j]).abs() < eps,
                "entry ({}, {}): actual {} expected {}",
                i,
                j,
                actual,
                expected[i][j]
            );
        }
    }
}

#[test]
fn test_convert_to_dominance_representation() {
    let standard: Vec<Vec<u8>> = vec![
        vec![0, 1, 2, 2, 2, 0],
        vec![2, 2, 0, 1, 2, 0],
        vec![1, 1, 2, 1, 0, 0],
        vec![1, 0, 1, 2, 1, 2],
        vec![0, 2, 2, 1, 1, 1],
    ];
    let expected: Vec<Vec<f64>> = vec![
        vec![0., 1.2, 0.8, 0.8, 0.4, 0.],
        vec![-0.4, 0.4, 0., 1.4, 0.4, 0.],
        vec![0.8, 1.2, 0.8, 1.4, 0., 0.],
        vec![0.8, 0., 1.4, 0.8, 1.2, -0.8],
        vec![0., 0.4, 0.8, 1.4, 1.2, 0.6],
    ];
    let eps = 1e-6;

    let bed = bed_from_rows(&standard, PlinkSnpType::Additive);
    let additive = bed.get_genotype_matrix(None).unwrap();
    let actual = convert_geno_arr_to_dominance_representation(additive);
    assert_matrix_almost_eq(&actual, &expected, eps);

    let dominance_bed = bed_from_rows(&standard, PlinkSnpType::Dominance);
    let dominance = dominance_bed.get_genotype_matrix(None).unwrap();
    assert_matrix_almost_eq(&dominance, &expected, eps);
}

#[test]
fn test_next_back() {
    let num_people = 3usize;
    let num_snps = 12usize;
    let geno = random_rows(num_people, num_snps);
    let bed = bed_from_rows(&geno, PlinkSnpType::Additive);
    let true_m = bed.get_genotype_matrix(None).unwrap();

    let mut iter = bed.col_chunk_iter(5, None).unwrap();
    let mut high = num_snps;
    while let Some(chunk) = iter.next_back() {
        let (nr, nc) = chunk.dim();
        assert_eq!(nr, num_people);
        let low = high - nc;
        for k in 0..nc {
            for i in 0..num_people {
                assert_eq!(chunk.get(i, k), true_m.get(i, low + k));
            }
        }
        high = low;
    }
    assert_eq!(high, 0);

    // Interleaved front and back pulls together visit every SNP exactly once.
    let mut iter = bed.col_chunk_iter(5, None).unwrap();
    let mut seen = vec![0usize; num_snps];
    let mut low = 0usize;
    let mut high = num_snps;
    loop {
        match iter.next() {
            Some(chunk) => {
                let nc = chunk.dim().1;
                for k in 0..nc {
                    seen[low + k] += 1;
                    for i in 0..num_people {
                        assert_eq!(chunk.get(i, k), true_m.get(i, low + k));
                    }
                }
                low += nc;
            }
            None => break,
        }
        match iter.next_back() {
            Some(chunk) => {
                let nc = chunk.dim().1;
                high -= nc;
                for k in 0..nc {
                    seen[high + k] += 1;
                    for i in 0..num_people {
                        assert_eq!(chunk.get(i, k), true_m.get(i, high + k));
                    }
                }
            }
            None => break,
        }
    }
    for count in seen {
        assert_eq!(count, 1);
    }
}

#[test]
fn test_split_at() {
    let (num_people, num_snps) = (137usize, 71usize);
    let geno = random_rows(num_people, num_snps);
    let bed = bed_from_rows(&geno, PlinkSnpType::Additive);
    let true_m = bed.get_genotype_matrix(None).unwrap();

    let chunk_size = 5usize;
    let whole = bed.col_chunk_iter(chunk_size, None).unwrap();
    let (mut left, mut right) = whole.split_at(3);
    let mut collected: Vec<Vec<i64>> = Vec::new();
    while let Some(chunk) = left.next() {
        let (nr, nc) = chunk.dim();
        for k in 0..nc {
            let mut col: Vec<i64> = Vec::new();
            for i in 0..nr {
                col.push(chunk.get(i, k));
            }
            collected.push(col);
        }
    }
    assert_eq!(collected.len(), 15);
    while let Some(chunk) = right.next() {
        let (nr, nc) = chunk.dim();
        for k in 0..nc {
            let mut col: Vec<i64> = Vec::new();
            for i in 0..nr {
                col.push(chunk.get(i, k));
            }
            collected.push(col);
        }
    }
    assert_eq!(collected.len(), num_snps);
    for j in 0..num_snps {
        for i in 0..num_people {
            assert_eq!(collected[j][i], true_m.get(i, j));
        }
    }
}

#[test]
fn test_chunk_iter_ranged_chunk_count() {
    let (num_people, num_snps) = (137usize, 71usize);
    let geno = random_rows(num_people, num_snps);
    let bed = bed_from_rows(&geno, PlinkSnpType::Additive);
    let range = SnpRangeSet::from_slice(vec![(2, 4), (6, 9), (20, 46), (70, 70)]).unwrap();
    let mut iter = bed.col_chunk_iter(5, Some(range)).unwrap();
    assert_eq!(iter.len(), 7);
    let mut chunks = 0usize;
    while let Some(_) = iter.next() {
        chunks += 1;
    }
    assert_eq!(chunks, 7);
}

#[test]
fn test_allele_frequencies() {
    let rows: Vec<Vec<u8>> = vec![
        vec![0, 0, 1, 2],
        vec![1, 1, 2, 1],
        vec![2, 0, 0, 0],
        vec![1, 0, 0, 2],
        vec![0, 2, 1, 0],
    ];
    let bed = bed_from_rows(&rows, PlinkSnpType::Additive);
    let freqs = bed.get_minor_allele_frequencies(None).unwrap();
    assert_eq!(freqs.len(), 4);
    let expected = [0.4f64, 0.3, 0.4, 0.5];
    for j in 0..4 {
        let actual = freqs[j].numerator as f64 / freqs[j].denominator as f64;
        assert!((actual - expected[j]).abs() < 1e-9);
    }
    assert_eq!(
        bed.get_minor_allele_frequencies(Some(0)),
        Err(Error::ZeroChunkSize)
    );
}

#[test]
fn test_col_chunk_iter_errors() {
    let rows: Vec<Vec<u8>> = vec![vec![0, 1, 2], vec![1, 1, 0], vec![2, 0, 1]];
    let bed = bed_from_rows(&rows, PlinkSnpType::Additive);
    match bed.col_chunk_iter(0, None) {
        Err(Error::ZeroChunkSize) => {}
        _ => panic!("expected a zero chunk size error"),
    }
    let out_of_bounds = SnpRangeSet::from_slice(vec![(1, 5)]).unwrap();
    match bed.col_chunk_iter(2, Some(out_of_bounds)) {
        Err(Error::RangeOutOfBounds) => {}
        _ => panic!("expected a range error"),
    }
}
