use vstd::prelude::*;

verus! {

/// How the two-bit codes of one packed file are to be interpreted when a
/// numeric matrix is produced from them.
#[derive(Copy, Clone, PartialEq, Eq, Structural, Debug)]
pub enum PlinkSnpType {
    Additive,
    Dominance,
}

/// Number of individuals packed into one byte.
pub const NUM_PEOPLE_PER_BYTE: usize = 4;

/// Genotype value of a two-bit code (codes are in 0..4):
/// 00 -> 2 (homozygous first allele), 01 -> 0 (missing, folded to 0),
/// 10 -> 1 (heterozygous), 11 -> 0 (homozygous second allele).
pub open spec fn code_to_geno(code: u8) -> u8 {
    if code == 0 {
        2
    } else if code == 2 {
        1
    } else {
        0
    }
}

/// Two-bit code of a genotype value (the inverse of `code_to_geno` on
/// {0, 1, 2}): 0 -> 11, 1 -> 10, 2 -> 00; any other value encodes as its
/// low two bits would, so 3 -> 00.
pub open spec fn geno_to_code(geno: u8) -> u8 {
    if geno == 0 {
        3
    } else if geno == 1 {
        2
    } else {
        0
    }
}

/// The two-bit code of logical position `j` in a run of packed bytes that
/// starts at byte `base`: bits 2*(j%4) and 2*(j%4)+1 of byte `base + j/4`.
pub open spec fn code_at(bytes: Seq<u8>, base: int, j: int) -> u8 {
    (bytes[base + j / 4] >> ((2 * (j % 4)) as u8)) & 3
}

/// Decodes the two lowest bits of `byte` to a genotype value.
pub fn lowest_two_bits_to_geno(byte: u8) -> (geno: u8)
    ensures
        geno == code_to_geno(byte & 3),
        geno <= 2,
{
    let a = (byte & 0b10) >> 1;
    let b = byte & 1;
    let geno = (((a | b) ^ 1) << 1) | (a & (!b));
    proof {
        assert(geno == (if byte & 3 == 0 {
            2u8
        } else if byte & 3 == 2 {
            1u8
        } else {
            0u8
        })) by (bit_vector)
            requires
                a == (byte & 0b10) >> 1,
                b == byte & 1,
                geno == (((a | b) ^ 1) << 1) | (a & (!b)),
        ;
    }
    geno
}

/// Encodes a genotype value as a two-bit code.
pub fn geno_to_lowest_two_bits(geno: u8) -> (code: u8)
    ensures
        code == geno_to_code(geno & 3),
        code < 4,
{
    let not_a = ((geno & 0b10) >> 1) ^ 1;
    let not_b = (geno & 1) ^ 1;
    let code = (not_a << 1) | (not_b & not_a);
    proof {
        assert(code == (if geno & 3 == 0 {
            3u8
        } else if geno & 3 == 1 {
            2u8
        } else {
            0u8
        }) && code < 4) by (bit_vector)
            requires
                not_a == ((geno & 0b10) >> 1) ^ 1,
                not_b == (geno & 1) ^ 1,
                code == (not_a << 1) | (not_b & not_a),
        ;
    }
    code
}

/// A value below 4 is its own low two bits.
pub proof fn lemma_mask_small(x: u8)
    requires
        x < 4,
    ensures
        x & 3 == x,
{
    assert(x < 4 ==> x & 3 == x) by (bit_vector);
}

/// Decoding is a left inverse of encoding on genotype values {0, 1, 2};
/// encoding is a left inverse of decoding on the codes {00, 10, 11}; and
/// the missing code 01 decodes to 0, which re-encodes to 11.
pub proof fn lemma_codec_round_trip()
    ensures
        forall|g: u8| g <= 2 ==> #[trigger] code_to_geno(geno_to_code(g)) == g,
        forall|c: u8|
            c == 0 || c == 2 || c == 3 ==> #[trigger] geno_to_code(code_to_geno(c)) == c,
        code_to_geno(1) == 0,
        geno_to_code(code_to_geno(1)) == 3,
{
}

/// The code-level dominance recoding: genotype 2 (code 00) becomes
/// genotype 1 (code 10); genotype 1, genotype 0 and the missing code keep
/// their codes.
pub open spec fn dominance_code_map(code: u8) -> u8 {
    if code == 0 {
        2
    } else {
        code
    }
}

/// Writing genotype values and decoding the written codes gives the
/// values back: a packed run whose codes encode a sequence of genotype
/// values in {0, 1, 2} decodes to exactly that sequence.
pub proof fn lemma_write_read_round_trip(bytes: Seq<u8>, base: int, genos: Seq<u8>)
    requires
        forall|j: int|
            0 <= j < genos.len() ==> #[trigger] code_at(bytes, base, j) == geno_to_code(
                genos[j] & 3,
            ),
        forall|j: int| 0 <= j < genos.len() ==> #[trigger] genos[j] <= 2,
    ensures
        forall|j: int|
            0 <= j < genos.len() ==> code_to_geno(#[trigger] code_at(bytes, base, j))
                == genos[j],
{
    assert forall|j: int| 0 <= j < genos.len() implies code_to_geno(
        #[trigger] code_at(bytes, base, j),
    ) == genos[j] by {
        assert(genos[j] <= 2);
        assert(code_at(bytes, base, j) == geno_to_code(genos[j] & 3));
        lemma_mask_small(genos[j]);
    }
}

/// The code-level dominance recoding acts on decoded genotypes as the
/// elementwise map that sends 2 to 1 and leaves 1 and 0 unchanged; the
/// missing code still decodes to 0.
pub proof fn lemma_dominance_code_geno()
    ensures
        forall|c: u8|
            c < 4 ==> #[trigger] code_to_geno(dominance_code_map(c)) == (if code_to_geno(c)
                == 2 {
                1u8
            } else {
                code_to_geno(c)
            }),
{
}

/// Reads the two-bit code of logical position `j` in the packed run that
/// starts at byte `base` of `bytes`.
pub fn extract_code(bytes: &Vec<u8>, base: usize, j: usize) -> (code: u8)
    requires
        base + j / 4 < bytes@.len(),
    ensures
        code == code_at(bytes@, base as int, j as int),
        code < 4,
{
    let len = bytes.len();
    proof {
        assert(base + j / 4 < len);
    }
    let idx = base + j / 4;
    let byte = bytes[idx];
    let shift: u8 = (2 * (j % 4)) as u8;
    let code = (byte >> shift) & 3;
    proof {
        assert(code < 4) by (bit_vector)
            requires
                code == (byte >> shift) & 3,
        ;
    }
    code
}

/// Decodes one SNP block: the `num_people` genotype values packed four to a
/// byte starting at byte `base` of `bytes`.
pub fn decode_snp_block(bytes: &Vec<u8>, base: usize, num_people: usize) -> (genos: Vec<u8>)
    requires
        num_people >= 1,
        base + ((num_people - 1) / 4) < bytes@.len(),
    ensures
        genos@.len() == num_people,
        forall|j: int|
            0 <= j < num_people ==> genos@[j] == code_to_geno(
                code_at(bytes@, base as int, j),
            ),
        forall|j: int| 0 <= j < num_people ==> genos@[j] <= 2,
{
    let mut genos: Vec<u8> = Vec::new();
    let mut j: usize = 0;
    while j < num_people
        invariant
            j <= num_people,
            num_people >= 1,
            base + ((num_people - 1) / 4) < bytes@.len(),
            genos@.len() == j,
            forall|t: int|
                0 <= t < j ==> genos@[t] == code_to_geno(code_at(bytes@, base as int, t)),
            forall|t: int| 0 <= t < j ==> genos@[t] <= 2,
        decreases num_people - j,
    {
        let code = extract_code(bytes, base, j);
        proof {
            lemma_mask_small(code);
        }
        let geno = lowest_two_bits_to_geno(code);
        genos.push(geno);
        j += 1;
    }
    genos
}

/// Packs a sequence of two-bit codes, four to a byte, the first code in the
/// lowest two bits; the unused high bits of a final partial byte are zero.
pub fn pack_codes(codes: &Vec<u8>) -> (bytes: Vec<u8>)
    requires
        forall|j: int| 0 <= j < codes@.len() ==> codes@[j] < 4,
    ensures
        bytes@.len() == (codes@.len() + 3) / 4,
        forall|j: int|
            0 <= j < codes@.len() ==> #[trigger] code_at(bytes@, 0, j) == codes@[j],
        forall|j: int|
            codes@.len() <= j < 4 * bytes@.len() ==> #[trigger] code_at(bytes@, 0, j) == 0,
{
    let n = codes.len();
    let num_bytes = n / 4 + if n % 4 != 0 { 1 } else { 0 };
    let mut bytes: Vec<u8> = Vec::new();
    let mut bi: usize = 0;
    while bi < num_bytes
        invariant
            n == codes@.len(),
            forall|j: int| 0 <= j < codes@.len() ==> codes@[j] < 4,
            num_bytes == (n + 3) / 4,
            bi == bytes@.len(),
            bi <= num_bytes,
            forall|j: int|
                0 <= j < 4 * bi && j < n ==> #[trigger] code_at(bytes@, 0, j) == codes@[j],
            forall|j: int|
                n <= j < 4 * bi ==> #[trigger] code_at(bytes@, 0, j) == 0,
        decreases num_bytes - bi,
    {
        let i = 4 * bi;
        let mut byte: u8 = 0;
        let mut k: usize = 0;
        proof {
            assert(i < n);
            assert((0u8 >> 0u8) == 0) by (bit_vector);
        }
        while k < 4 && n - i > k
            invariant
                n == codes@.len(),
                forall|j: int| 0 <= j < codes@.len() ==> codes@[j] < 4,
                k <= 4,
                i + k <= n,
                i < n,
                forall|t: int|
                    0 <= t < k ==> ((byte >> ((2 * t) as u8)) & 3) == #[trigger] codes@[i + t],
                k < 4 ==> (byte >> ((2 * k) as u8)) == 0,
            decreases 4 - k,
        {
            let c = codes[i + k];
            let shift: u8 = (2 * k) as u8;
            let new_byte = byte | (c << shift);
            proof {
                let kk = k as u8;
                assert forall|t: int| 0 <= t < k + 1 implies ((new_byte >> ((2 * t) as u8)) & 3)
                    == #[trigger] codes@[i + t] by {
                    let tt = t as u8;
                    if t < k {
                        assert(((new_byte >> ((2 * tt) as u8)) & 3) == ((byte >> ((2 * tt)
                            as u8)) & 3)) by (bit_vector)
                            requires
                                new_byte == byte | (c << ((2 * kk) as u8)),
                                tt < kk,
                                kk < 4,
                                c < 4,
                        ;
                    } else {
                        assert(((new_byte >> ((2 * kk) as u8)) & 3) == c) by (bit_vector)
                            requires
                                new_byte == byte | (c << ((2 * kk) as u8)),
                                kk < 4,
                                c < 4,
                                (byte >> ((2 * kk) as u8)) == 0,
                        ;
                    }
                }
                if k + 1 < 4 {
                    assert((new_byte >> ((2 * (kk + 1)) as u8)) == 0) by (bit_vector)
                        requires
                            new_byte == byte | (c << ((2 * kk) as u8)),
                            kk + 1 < 4,
                            c < 4,
                            (byte >> ((2 * kk) as u8)) == 0,
                    ;
                }
            }
            byte = new_byte;
            k += 1;
        }
        let ghost old_bytes = bytes@;
        bytes.push(byte);
        proof {
            assert forall|j: int| 0 <= j < i + 4 && j < n implies #[trigger] code_at(
                bytes@,
                0,
                j,
            ) == codes@[j] by {
                if j < i {
                    assert(code_at(old_bytes, 0, j) == codes@[j]);
                    assert(bytes@[j / 4] == old_bytes[j / 4]);
                } else {
                    let t = j - i;
                    assert(j / 4 == old_bytes.len());
                    assert(bytes@[j / 4] == byte);
                    assert(j % 4 == t);
                    assert(((byte >> ((2 * t) as u8)) & 3) == codes@[i + t]);
                }
            }
            assert forall|j: int| n <= j < i + 4 implies #[trigger] code_at(bytes@, 0, j)
                == 0 by {
                if j < i {
                    assert(code_at(old_bytes, 0, j) == 0);
                    assert(bytes@[j / 4] == old_bytes[j / 4]);
                } else {
                    let t = j - i;
                    assert(j / 4 == old_bytes.len());
                    assert(bytes@[j / 4] == byte);
                    assert(j % 4 == t);
                    let kk = k as u8;
                    let tt = t as u8;
                    assert(k <= t);
                    assert(((byte >> ((2 * tt) as u8)) & 3) == 0) by (bit_vector)
                        requires
                            (byte >> ((2 * kk) as u8)) == 0,
                            kk <= tt,
                            tt < 4,
                    ;
                }
            }
        }
        bi += 1;
    }
    bytes
}

} // verus!
