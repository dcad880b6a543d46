use pir_hint::hint::compute_hint;
use pir_hint::expand::negacyclic_perm;
use pir_hint::params::HintError;
use pir_hint::params::SchemeParams;
use rand::Rng;
use rand::SeedableRng;
use rand_chacha::ChaCha20Rng;

const CONV_MOD: i128 = 66974689739603969;

fn params(q: u64, n: usize, pt: u64) -> SchemeParams {
    SchemeParams::new(q, n, pt, n).unwrap()
}

fn seed_bytes(x: u8) -> [u8; 32] {
    let mut s = [0u8; 32];
    s[0] = x;
    s
}

/// The permuted public rows, straight from the stream cipher.
fn raw_rows(seed: &[u8; 32], n: usize, num_t: usize) -> Vec<Vec<u32>> {
    let mut rng = ChaCha20Rng::from_seed(*seed);
    let mut rows = Vec::new();
    for _ in 0..num_t {
        let mut a = vec![0u32; n];
        for i in 0..n {
            a[i] = rng.sample::<u32, _>(rand::distributions::Standard);
        }
        let mut p = vec![0u32; n];
        p[0] = a[0];
        for i in 1..n {
            p[i] = 0u32.wrapping_sub(a[n - i]);
        }
        rows.push(p);
    }
    rows
}

/// Independent oracle: per column, the exact integer negacyclic convolution of
/// each permuted public row with its tile, summed across tiles, reduced once
/// modulo the transform modulus and wrapped modulo 2^32. Matches the library
/// whenever all tiles fit in one flush window.
fn naive_hint(seed: &[u8; 32], n: usize, db: &[u32], db_rows: usize, db_cols: usize) -> Vec<u64> {
    let num_t = if db_rows == 0 { 0 } else { (db_rows + n - 1) / n };
    let rows = raw_rows(seed, n, num_t);
    let mut hint = vec![0u64; n * db_cols];
    for c in 0..db_cols {
        for i in 0..n {
            let mut coeff: i128 = 0;
            for t in 0..num_t {
                for j in 0..n {
                    for k in 0..n {
                        if (j + k) % n == i {
                            let sign: i128 = if j + k >= n { -1 } else { 1 };
                            let idx = t * n + k;
                            let tv: i128 = if idx < db_rows {
                                db[c * db_rows + idx] as i128
                            } else {
                                0
                            };
                            coeff += sign * (rows[t][j] as i128) * tv;
                        }
                    }
                }
            }
            let mut cm = coeff % CONV_MOD;
            if cm < 0 {
                cm += CONV_MOD;
            }
            hint[i * db_cols + c] = (cm % (1i128 << 32)) as u64;
        }
    }
    hint
}

/// Window-aware oracle: per column, tiles are grouped into flush windows of
/// `window` tiles; each window's exact coefficient sum is reduced once modulo
/// the transform modulus, and the reduced window values are summed modulo
/// 2^32. Mirrors the library's flush schedule exactly.
fn naive_hint_windowed(
    seed: &[u8; 32],
    n: usize,
    db: &[u32],
    db_rows: usize,
    db_cols: usize,
    window: usize,
) -> Vec<u64> {
    let num_t = if db_rows == 0 { 0 } else { (db_rows + n - 1) / n };
    let rows = raw_rows(seed, n, num_t);
    let mut hint = vec![0u64; n * db_cols];
    for c in 0..db_cols {
        for i in 0..n {
            let mut total: u128 = 0;
            let mut t0 = 0;
            while t0 < num_t {
                let t1 = (t0 + window).min(num_t);
                let mut coeff: i128 = 0;
                for t in t0..t1 {
                    for j in 0..n {
                        for k in 0..n {
                            if (j + k) % n == i {
                                let sign: i128 = if j + k >= n { -1 } else { 1 };
                                let idx = t * n + k;
                                let tv: i128 = if idx < db_rows {
                                    db[c * db_rows + idx] as i128
                                } else {
                                    0
                                };
                                coeff += sign * (rows[t][j] as i128) * tv;
                            }
                        }
                    }
                }
                let mut cm = coeff % CONV_MOD;
                if cm < 0 {
                    cm += CONV_MOD;
                }
                total = (total + cm as u128) % (1u128 << 32);
                t0 = t1;
            }
            hint[i * db_cols + c] = total as u64;
        }
    }
    hint
}

#[test]
fn windowed_flush_matches_naive() {
    // pt = 2^18 gives a window of 4 tiles; 12 tiles make three flushes.
    let sp = params(1u64 << 32, 4, 1u64 << 18);
    assert_eq!(sp.max_adds().unwrap(), 4);
    let db_rows = 48;
    let db_cols = 2;
    let db: Vec<u32> = (0..db_rows * db_cols)
        .map(|k| (k as u32).wrapping_mul(2654435761).wrapping_add(17))
        .collect();
    let seed = seed_bytes(21);
    let got = compute_hint(&sp, &seed, &db, db_rows, db_cols).unwrap();
    let want = naive_hint_windowed(&seed, 4, &db, db_rows, db_cols, 4);
    assert_eq!(got, want);
}

#[test]
fn guard_boundary_smallest_window() {
    // log2 sums to 53: the guard exponent is exactly 1, the smallest allowed.
    let sp = params(1u64 << 33, 4, 1u64 << 18);
    assert_eq!(sp.max_adds().unwrap(), 2);
    let db_rows = 24;
    let db: Vec<u32> = (0..db_rows).map(|k| (k as u32).wrapping_mul(97)).collect();
    let seed = seed_bytes(2);
    let got = compute_hint(&sp, &seed, &db, db_rows, 1).unwrap();
    let want = naive_hint_windowed(&seed, 4, &db, db_rows, 1, 2);
    assert_eq!(got, want);
}

#[test]
fn determinism_two_runs() {
    let sp = params(1u64 << 32, 4, 256);
    let db_rows = 8;
    let db_cols = 3;
    let db: Vec<u32> = (0..db_rows * db_cols)
        .map(|k| (k as u32).wrapping_mul(2654435761))
        .collect();
    let seed = seed_bytes(7);
    let h1 = compute_hint(&sp, &seed, &db, db_rows, db_cols).unwrap();
    let h2 = compute_hint(&sp, &seed, &db, db_rows, db_cols).unwrap();
    assert_eq!(h1, h2);
}

#[test]
fn matches_naive_convolution() {
    let sp = params(1u64 << 32, 4, 256);
    let db_rows = 8;
    let db_cols = 2;
    let db: Vec<u32> = (0..db_rows * db_cols)
        .map(|k| (k as u32).wrapping_mul(2654435761).wrapping_add(99991))
        .collect();
    let seed = seed_bytes(3);
    let got = compute_hint(&sp, &seed, &db, db_rows, db_cols).unwrap();
    let want = naive_hint(&seed, 4, &db, db_rows, db_cols);
    assert_eq!(got, want);
}

#[test]
fn single_entry_pins_negacyclic_permutation() {
    // A 1 at row 0 of column 0: the hint column is exactly the first permuted
    // public row.
    let sp = params(1u64 << 32, 4, 256);
    let db_rows = 8;
    let db_cols = 1;
    let mut db = vec![0u32; db_rows * db_cols];
    db[0] = 1;
    let seed = seed_bytes(42);
    let got = compute_hint(&sp, &seed, &db, db_rows, db_cols).unwrap();
    let rows = raw_rows(&seed, 4, 2);
    for i in 0..4 {
        assert_eq!(got[i], rows[0][i] as u64);
    }
}

#[test]
fn negacyclic_perm_convention() {
    let v = vec![10u32, 20, 30, 0];
    let p = negacyclic_perm(&v);
    assert_eq!(p, vec![10u32, 0, 0u32.wrapping_sub(30), 0u32.wrapping_sub(20)]);
}

#[test]
fn zero_database_gives_zero_hint_for_any_seed() {
    let sp = params(1u64 << 32, 4, 256);
    let db = vec![0u32; 8];
    for s in [0u8, 1, 200] {
        let seed = seed_bytes(s);
        let h = compute_hint(&sp, &seed, &db, 8, 1).unwrap();
        assert_eq!(h, vec![0u64; 4]);
    }
}

#[test]
fn degenerate_empty_rows_and_cols() {
    let sp = params(1u64 << 32, 4, 256);
    let seed = seed_bytes(5);
    let db: Vec<u32> = Vec::new();
    let h = compute_hint(&sp, &seed, &db, 0, 3).unwrap();
    assert_eq!(h, vec![0u64; 12]);
    let h2 = compute_hint(&sp, &seed, &db, 8, 0).unwrap();
    assert!(h2.is_empty());
}

#[test]
fn linearity_without_reduction_carries() {
    // Entries only at the first row of each tile keep every convolution
    // coefficient nonnegative and far below the transform modulus, so the
    // entrywise sum of two databases yields the entrywise wrapped sum of the
    // hints.
    let sp = params(1u64 << 32, 4, 256);
    let db_rows = 16;
    let db_cols = 2;
    let n = 4;
    let mut d1 = vec![0u32; db_rows * db_cols];
    let mut d2 = vec![0u32; db_rows * db_cols];
    for c in 0..db_cols {
        for t in 0..db_rows / n {
            d1[c * db_rows + t * n] = (3 * c + t + 1) as u32;
            d2[c * db_rows + t * n] = (5 * c + 2 * t + 7) as u32;
        }
    }
    let d: Vec<u32> = d1.iter().zip(d2.iter()).map(|(a, b)| a + b).collect();
    let seed = seed_bytes(9);
    let h1 = compute_hint(&sp, &seed, &d1, db_rows, db_cols).unwrap();
    let h2 = compute_hint(&sp, &seed, &d2, db_rows, db_cols).unwrap();
    let h = compute_hint(&sp, &seed, &d, db_rows, db_cols).unwrap();
    for k in 0..h.len() {
        assert_eq!(h[k], (h1[k] + h2[k]) % (1u64 << 32));
    }
}

#[test]
fn partition_invariance_across_window_sizes() {
    // Changing the plaintext modulus changes only the flush window (4 vs 16
    // tiles); with carry-free columns the grouping of windows does not change
    // the wrapped result.
    let sp_small = params(1u64 << 32, 4, 1u64 << 18);
    let sp_large = params(1u64 << 32, 4, 1u64 << 16);
    assert_eq!(sp_small.max_adds().unwrap(), 4);
    assert_eq!(sp_large.max_adds().unwrap(), 16);
    let db_rows = 64;
    let db_cols = 2;
    let n = 4;
    let mut db = vec![0u32; db_rows * db_cols];
    for c in 0..db_cols {
        for t in 0..db_rows / n {
            db[c * db_rows + t * n] = (11 * c + 13 * t + 1) as u32;
        }
    }
    let seed = seed_bytes(77);
    let h_small = compute_hint(&sp_small, &seed, &db, db_rows, db_cols).unwrap();
    let h_large = compute_hint(&sp_large, &seed, &db, db_rows, db_cols).unwrap();
    assert_eq!(h_small, h_large);
}

#[test]
fn max_adds_matches_bit_lengths() {
    let sp = params(1u64 << 32, 1024, 256);
    // 2^(55 - (32 + 10 + 8) - 1)
    assert_eq!(sp.max_adds().unwrap(), 16);
}

#[test]
fn config_errors() {
    assert_eq!(SchemeParams::new(1, 4, 256, 4).unwrap_err(), HintError::ConfigError);
    assert_eq!(SchemeParams::new(1u64 << 32, 4, 1, 4).unwrap_err(), HintError::ConfigError);
    assert_eq!(SchemeParams::new(1u64 << 32, 4, 256, 8).unwrap_err(), HintError::ConfigError);
    assert_eq!(SchemeParams::new(1u64 << 32, 3, 256, 3).unwrap_err(), HintError::ConfigError);
    assert_eq!(SchemeParams::new(1u64 << 32, 65536, 256, 65536).unwrap_err(), HintError::ConfigError);
    // A guard exponent that is not strictly positive is rejected before any
    // work happens.
    let sp = params(1u64 << 33, 4, 1u64 << 19);
    assert_eq!(sp.max_adds().unwrap_err(), HintError::ConfigError);
    let db = vec![0u32; 16];
    let seed = seed_bytes(1);
    assert_eq!(
        compute_hint(&sp, &seed, &db, 8, 2).unwrap_err(),
        HintError::ConfigError
    );
}

#[test]
fn accessors_report_fixed_parameters() {
    let sp = params(1u64 << 32, 8, 256);
    assert_eq!(sp.modulus(), 1u64 << 32);
    assert_eq!(sp.lwe_n(), 8);
    assert_eq!(sp.pt_modulus(), 256);
    assert_eq!(sp.poly_len(), 8);
    assert_eq!(sp.crt_count(), 2);
    assert_eq!(sp.conv_modulus(), 66974689739603969);
}

#[test]
fn larger_transform_matches_naive() {
    let sp = params(1u64 << 32, 8, 256);
    let db_rows = 20;
    let db_cols = 1;
    let db: Vec<u32> = (0..db_rows * db_cols)
        .map(|k| (k as u32).wrapping_mul(40503).wrapping_add(12345))
        .collect();
    let seed = seed_bytes(13);
    let got = compute_hint(&sp, &seed, &db, db_rows, db_cols).unwrap();
    let want = naive_hint(&seed, 8, &db, db_rows, db_cols);
    assert_eq!(got, want);
}
