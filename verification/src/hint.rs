//! The hint accumulator: for each database column, tile the column into
//! row-blocks aligned to the transform size, convolve each block against the
//! matching transformed public row, accumulate across blocks in the transform
//! domain, flush through reduction every `max_adds` tiles, and fold the
//! recombined values into the 2^32-wrapped output matrix.

use vstd::prelude::*;

verus! {

use vstd::arithmetic::div_mod::lemma_fundamental_div_mod;
use vstd::arithmetic::div_mod::lemma_fundamental_div_mod_converse;
use vstd::arithmetic::div_mod::lemma_add_mod_noop;
use vstd::arithmetic::div_mod::lemma_mod_twice;
use vstd::arithmetic::div_mod::lemma_mod_bound;
use vstd::arithmetic::div_mod::lemma_basic_div;
use vstd::arithmetic::div_mod::lemma_div_is_ordered;
use vstd::arithmetic::mul::lemma_mul_inequality;
use vstd::arithmetic::mul::lemma_mul_is_commutative;
use crate::engine::Engine;
use crate::engine::all_zero64;
use crate::engine::fwd_image;
use crate::engine::ntt_fwd_of;
use crate::engine::ntt_inv_of;
use crate::engine::pointwise_spec;
use crate::engine::recombine_of;
use crate::engine::reduce_spec;
use crate::engine::res_mod;
use crate::engine::crt_compose_spec;
use crate::expand::expand_public_rows;
use crate::expand::row_image;
use crate::params::HintError;
use crate::params::is_pow2_len;
use crate::params::SchemeParams;
use crate::params::OUTPUT_RANGE;
use crate::params::CONV_MODULUS;

/// The mathematical model of one hint computation: the seed, the database (a
/// column-major `db_rows x db_cols` matrix, entries of column `c` at
/// `c * db_rows ..`), the transform size `n` and the flush window.
pub struct HintModel {
    pub seed: Seq<u8>,
    pub db: Seq<u32>,
    pub db_rows: nat,
    pub n: nat,
    pub window: nat,
}

impl HintModel {
    pub open spec fn wf(self) -> bool {
        &&& self.n >= 1
        &&& self.window >= 1
    }

    /// Number of row-tiles per column: db_rows / n rounded up, the final
    /// partial tile padded with zeros.
    pub open spec fn num_tiles(self) -> nat {
        ((self.db_rows + self.n - 1) as nat) / self.n
    }

    /// The length-n slice of one column for tile `t`, zero-padded past the
    /// end of the column.
    pub open spec fn tile_col(self, col: int, t: int) -> Seq<u32> {
        Seq::new(
            self.n,
            |i: int|
                if t * (self.n as int) + i < self.db_rows {
                    self.db[col * (self.db_rows as int) + t * (self.n as int) + i]
                } else {
                    0u32
                },
        )
    }

    /// Transform-domain convolution of tile `t` of one column with public row
    /// `t`: the pointwise product of their images.
    pub open spec fn conv_tile(self, col: int, t: int) -> Seq<u64> {
        pointwise_spec(
            self.n,
            row_image(self.seed, t, self.n),
            fwd_image(self.n, self.tile_col(col, t)),
        )
    }

    /// Exact integer sum of slot `r` of the convolved tiles `t0 .. t1`.
    pub open spec fn sum_tiles(self, col: int, t0: int, t1: int, r: int) -> int
        decreases t1 - t0,
    {
        if t1 <= t0 {
            0
        } else {
            self.sum_tiles(col, t0, t1 - 1, r) + self.conv_tile(col, t1 - 1)[r]
        }
    }

    /// Number of flush windows: tiles are flushed every `window` tiles, plus
    /// a final partial window.
    pub open spec fn num_windows(self) -> nat {
        if self.num_tiles() == 0 {
            0
        } else {
            (self.num_tiles() - 1) as nat / self.window + 1
        }
    }

    pub open spec fn win_lo(self, w: int) -> int {
        w * (self.window as int)
    }

    pub open spec fn win_hi(self, w: int) -> int {
        if self.win_lo(w) + (self.window as int) <= self.num_tiles() as int {
            self.win_lo(w) + (self.window as int)
        } else {
            self.num_tiles() as int
        }
    }

    /// Exact integer sum of slot `r` across flush window `w` of a column.
    pub open spec fn window_sum(self, col: int, w: int, r: int) -> int {
        self.sum_tiles(col, self.win_lo(w), self.win_hi(w), r)
    }

    /// Window `w` reduced entrywise by the slot's CRT modulus.
    pub open spec fn window_reduced(self, col: int, w: int) -> Seq<u64> {
        Seq::new(
            2 * self.n,
            |r: int| ((self.window_sum(col, w, r)) % (res_mod(self.n, r) as int)) as u64,
        )
    }

    /// The raw-domain digest of flush window `w`: its reduced accumulator,
    /// inverse-transformed and CRT-recombined.
    pub open spec fn digest(self, col: int, w: int) -> Seq<u64> {
        recombine_of(self.n, self.window_reduced(col, w))
    }

    /// Integer sum of coefficient `i` of the digests of windows `w0 .. w1`.
    pub open spec fn sum_digests(self, col: int, w0: int, w1: int, i: int) -> int
        decreases w1 - w0,
    {
        if w1 <= w0 {
            0
        } else {
            self.sum_digests(col, w0, w1 - 1, i) + self.digest(col, w1 - 1)[i]
        }
    }

    /// The final hint entry for column `col`, coefficient `i`: the digests of
    /// all windows summed and wrapped into the fixed 32-bit output range.
    pub open spec fn entry(self, col: int, i: int) -> u64 {
        ((self.sum_digests(col, 0, self.num_windows() as int, i)) % (OUTPUT_RANGE as int)) as u64
    }

    /// A column overflows when some window's exact slot sum exceeds the wide
    /// accumulator's range.
    pub open spec fn col_overflows(self, col: int) -> bool {
        exists|w: int, r: int|
            0 <= w < self.num_windows() && 0 <= r < 2 * self.n && self.window_sum(col, w, r)
                > u64::MAX
    }

    pub open spec fn overflows(self, db_cols: nat) -> bool {
        exists|col: int| 0 <= col < db_cols && self.col_overflows(col)
    }
}

/// Tile sums split at any midpoint.
pub proof fn lemma_sum_tiles_split(m: HintModel, col: int, t0: int, t1: int, t2: int, r: int)
    requires
        t0 <= t1 <= t2,
    ensures
        m.sum_tiles(col, t0, t2, r) == m.sum_tiles(col, t0, t1, r) + m.sum_tiles(col, t1, t2, r),
    decreases t2 - t1,
{
    if t2 > t1 {
        lemma_sum_tiles_split(m, col, t0, t1, t2 - 1, r);
    }
}

/// Tile sums are sums of unsigned values.
pub proof fn lemma_sum_tiles_nonneg(m: HintModel, col: int, t0: int, t1: int, r: int)
    ensures
        m.sum_tiles(col, t0, t1, r) >= 0,
    decreases t1 - t0,
{
    if t1 > t0 {
        lemma_sum_tiles_nonneg(m, col, t0, t1 - 1, r);
    }
}

/// Tile sums grow with the range.
pub proof fn lemma_sum_tiles_mono(m: HintModel, col: int, t0: int, t1: int, t2: int, r: int)
    requires
        t0 <= t1 <= t2,
    ensures
        m.sum_tiles(col, t0, t1, r) <= m.sum_tiles(col, t0, t2, r),
{
    lemma_sum_tiles_split(m, col, t0, t1, t2, r);
    lemma_sum_tiles_nonneg(m, col, t1, t2, r);
}

/// Partition-invariance of the final fold: digests of consecutive windows can
/// be summed in any grouping; the wrapped entry folds them all. What remains
/// of regrouping the flush windows themselves is the additivity of each
/// window digest, which belongs to the transform engine.
pub proof fn lemma_sum_digests_split(m: HintModel, col: int, w0: int, w1: int, w2: int, i: int)
    requires
        w0 <= w1 <= w2,
    ensures
        m.sum_digests(col, w0, w2, i) == m.sum_digests(col, w0, w1, i) + m.sum_digests(
            col,
            w1,
            w2,
            i,
        ),
    decreases w2 - w1,
{
    if w2 > w1 {
        lemma_sum_digests_split(m, col, w0, w1, w2 - 1, i);
    }
}

/// Accumulate one column of the hint. Returns the column's n wrapped entries,
/// or `ArithmeticOverflow` exactly when some flush window's exact slot sum
/// exceeds the wide accumulator's range.
fn column_hint(
    eng: &Engine,
    rows: &Vec<Vec<u64>>,
    db: &Vec<u32>,
    db_rows: usize,
    col: usize,
    window: u64,
    Ghost(m): Ghost<HintModel>,
) -> (r: Result<Vec<u64>, HintError>)
    requires
        eng.wf(),
        m.wf(),
        m.n == eng.spec_poly_len(),
        m.db == db@,
        m.db_rows == db_rows,
        m.window == window,
        rows@.len() == m.num_tiles(),
        forall|t: int| 0 <= t < rows@.len() ==> rows@[t]@ == row_image(m.seed, t, m.n),
        forall|t: int| 0 <= t < rows@.len() ==> rows@[t]@.len() == 2 * m.n,
        forall|t: int, k: int|
            0 <= t < rows@.len() && 0 <= k < 2 * m.n ==> rows@[t]@[k] < res_mod(m.n, k),
        (col + 1) * db_rows <= db@.len(),
        db_rows + m.n <= usize::MAX,
    ensures
        r matches Ok(h) ==> h@.len() == m.n && forall|i: int|
            0 <= i < m.n ==> h@[i] == m.entry(col as int, i),
        r is Ok <==> !m.col_overflows(col as int),
        r matches Err(e) ==> e == HintError::ArithmeticOverflow,
{
    let n = eng.poly_len();
    let num_t = rows.len();
    let ghost gw = window as int;
    proof {
        // Tiles fit: num_tiles * n <= db_rows + n - 1.
        let x = (db_rows + m.n - 1) as int;
        let d = m.n as int;
        lemma_fundamental_div_mod(x, d);
        lemma_mod_bound(x, d);
        lemma_mul_is_commutative(d, x / d);
        assert(m.num_tiles() * m.n <= db_rows + m.n - 1);
    }
    let mut acc: Vec<u64> = Vec::new();
    let mut k0: usize = 0;
    while k0 < 2 * n
        invariant
            acc@.len() == k0,
            k0 <= 2 * n,
            n <= 32768,
            forall|j: int| 0 <= j < k0 ==> acc@[j] == 0,
        decreases 2 * n - k0,
    {
        acc.push(0);
        k0 = k0 + 1;
    }
    let mut hcol: Vec<u64> = Vec::new();
    let mut i0: usize = 0;
    while i0 < n
        invariant
            hcol@.len() == i0,
            i0 <= n,
            forall|j: int| 0 <= j < i0 ==> hcol@[j] == 0,
        decreases n - i0,
    {
        hcol.push(0);
        i0 = i0 + 1;
    }
    let mut cnt: u64 = 0;
    let ghost mut wdone: int = 0;
    let mut t: usize = 0;
    while t < num_t
        invariant
            eng.wf(),
            m.wf(),
            m.n == eng.spec_poly_len(),
            m.db == db@,
            m.db_rows == db_rows,
            m.window == window,
            gw == window as int,
            n == m.n,
            n <= 32768,
            num_t == m.num_tiles(),
            num_t * n <= db_rows + n - 1,
            rows@.len() == num_t,
            forall|u: int| 0 <= u < num_t ==> rows@[u]@ == row_image(m.seed, u, m.n),
            forall|u: int| 0 <= u < num_t ==> rows@[u]@.len() == 2 * m.n,
            forall|u: int, k: int|
                0 <= u < num_t && 0 <= k < 2 * m.n ==> rows@[u]@[k] < res_mod(m.n, k),
            (col + 1) * db_rows <= db@.len(),
            db_rows + n <= usize::MAX,
            acc@.len() == 2 * n,
            hcol@.len() == n,
            t <= num_t,
            0 <= wdone,
            t < num_t ==> t == wdone * gw + cnt && cnt < window,
            t == num_t ==> cnt == 0 && wdone == m.num_windows(),
            forall|r: int|
                0 <= r < 2 * n ==> acc@[r] as int == m.sum_tiles(col as int, wdone * gw, t as int, r),
            forall|i: int|
                0 <= i < n ==> hcol@[i] as int == m.sum_digests(col as int, 0, wdone, i) % (
                OUTPUT_RANGE as int),
            forall|w: int, r: int|
                0 <= w < wdone && 0 <= r < 2 * n ==> m.window_sum(col as int, w, r) <= u64::MAX,
        decreases num_t - t,
    {
        proof {
            // t * n + n - 1 stays within the padded column range.
            lemma_mul_inequality(t as int + 1, num_t as int, n as int);
            lemma_mul_inequality(col as int, col as int + 1, db_rows as int);
            assert((t as int + 1) * n == t as int * n + n) by (nonlinear_arith);
            assert((col as int + 1) * db_rows == col as int * db_rows + db_rows)
                by (nonlinear_arith);
        }
        let mut tile: Vec<u32> = Vec::new();
        let mut i: usize = 0;
        while i < n
            invariant
                tile@.len() == i,
                i <= n,
                n == m.n,
                m.db == db@,
                m.db_rows == db_rows,
                t * n + n <= db_rows + n,
                (t + 1) * n == t * n + n,
                db_rows + n <= usize::MAX,
                col * db_rows + db_rows <= db@.len(),
                forall|j: int| 0 <= j < i ==> tile@[j] == m.tile_col(col as int, t as int)[j],
            decreases n - i,
        {
            let idx = t * n + i;
            proof {
                vstd::std_specs::vec::axiom_spec_len(db);
            }
            let v: u32 = if idx < db_rows {
                db[col * db_rows + idx]
            } else {
                0
            };
            tile.push(v);
            i = i + 1;
        }
        proof {
            assert(tile@ =~= m.tile_col(col as int, t as int));
        }
        let timg = eng.forward(&tile);
        let conv = eng.pointwise_mul(&rows[t], &timg);
        proof {
            assert(conv@ =~= m.conv_tile(col as int, t as int));
        }
        let ghost lo = wdone * gw;
        let mut rr: usize = 0;
        while rr < 2 * n
            invariant
                0 <= rr <= 2 * n,
                acc@.len() == 2 * n,
                conv@.len() == 2 * n,
                n == m.n,
                m.wf(),
                m.db == db@,
                m.db_rows == db_rows,
                m.window == window,
                gw == window as int,
                lo == wdone * gw,
                t as int == lo + cnt,
                cnt < window,
                wdone >= 0,
                t < num_t,
                num_t == m.num_tiles(),
                lo <= t,
                conv@ == m.conv_tile(col as int, t as int),
                forall|r: int|
                    rr <= r < 2 * n ==> acc@[r] as int == m.sum_tiles(col as int, lo, t as int, r),
                forall|r: int|
                    0 <= r < rr ==> acc@[r] as int == m.sum_tiles(col as int, lo, t as int + 1, r),
            decreases 2 * n - rr,
        {
            proof {
                assert(m.sum_tiles(col as int, lo, t as int + 1, rr as int) == m.sum_tiles(
                    col as int,
                    lo,
                    t as int,
                    rr as int,
                ) + m.conv_tile(col as int, t as int)[rr as int]);
            }
            match acc[rr].checked_add(conv[rr]) {
                Some(s) => {
                    acc[rr] = s;
                },
                None => {
                    proof {
                        let wcur = wdone;
                        assert(m.window_sum(col as int, wcur, rr as int) > u64::MAX) by {
                            assert(m.win_lo(wcur) == lo);
                            assert(t as int + 1 <= m.win_hi(wcur));
                            lemma_sum_tiles_mono(
                                m,
                                col as int,
                                lo,
                                t as int + 1,
                                m.win_hi(wcur),
                                rr as int,
                            );
                        }
                        assert(0 <= wcur < m.num_windows()) by {
                            assert(wcur * gw <= t < num_t);
                            lemma_div_is_ordered(wcur * gw, num_t as int - 1, gw);
                            lemma_fundamental_div_mod_converse(wcur * gw, gw, wcur, 0);
                        }
                        assert(m.col_overflows(col as int));
                    }
                    return Err(HintError::ArithmeticOverflow);
                },
            }
            rr = rr + 1;
        }
        cnt = cnt + 1;
        if cnt == window || t + 1 == num_t {
            proof {
                assert(m.win_lo(wdone) == lo);
                assert(m.win_hi(wdone) == t as int + 1) by {
                    if cnt == window {
                        assert(lo + gw == t as int + 1);
                    } else {
                        assert(t as int + 1 == num_t as int);
                        assert(lo + gw > t as int + 1);
                    }
                }
                assert(reduce_spec(m.n, acc@) =~= m.window_reduced(col as int, wdone as int));
            }
            let raw = eng.reduce_and_recombine(&acc);
            proof {
                assert(raw@ == m.digest(col as int, wdone));
            }
            let mut i2: usize = 0;
            while i2 < n
                invariant
                    0 <= i2 <= n,
                    hcol@.len() == n,
                    raw@.len() == n,
                    n == m.n,
                    m.db == db@,
                    m.db_rows == db_rows,
                    raw@ == m.digest(col as int, wdone),
                    wdone >= 0,
                    forall|j: int| 0 <= j < n ==> raw@[j] < CONV_MODULUS,
                    forall|j: int|
                        i2 <= j < n ==> hcol@[j] as int == m.sum_digests(col as int, 0, wdone, j)
                            % (OUTPUT_RANGE as int),
                    forall|j: int|
                        0 <= j < i2 ==> hcol@[j] as int == m.sum_digests(
                            col as int,
                            0,
                            wdone + 1,
                            j,
                        ) % (OUTPUT_RANGE as int),
                decreases n - i2,
            {
                proof {
                    let s = m.sum_digests(col as int, 0, wdone, i2 as int);
                    let d = m.digest(col as int, wdone)[i2 as int] as int;
                    assert(m.sum_digests(col as int, 0, wdone + 1, i2 as int) == s + d);
                    lemma_mod_bound(s, OUTPUT_RANGE as int);
                    lemma_add_mod_noop(s, d, OUTPUT_RANGE as int);
                    lemma_add_mod_noop(s % (OUTPUT_RANGE as int), d, OUTPUT_RANGE as int);
                    lemma_mod_twice(s, OUTPUT_RANGE as int);
                    lemma_mod_twice(d, OUTPUT_RANGE as int);
                    assert((s % (OUTPUT_RANGE as int) + d) % (OUTPUT_RANGE as int) == (s + d) % (
                    OUTPUT_RANGE as int));
                }
                hcol[i2] = (hcol[i2] + raw[i2]) % OUTPUT_RANGE;
                i2 = i2 + 1;
            }
            proof {
                assert(forall|r: int|
                    0 <= r < 2 * n ==> m.window_sum(col as int, wdone, r) == acc@[r] as int);
                assert forall|w: int, r: int|
                    0 <= w < wdone + 1 && 0 <= r < 2 * n implies m.window_sum(col as int, w, r)
                    <= u64::MAX by {
                    if w == wdone {
                        assert(m.window_sum(col as int, w, r) == acc@[r] as int);
                    }
                }
                if t + 1 == num_t {
                    lemma_fundamental_div_mod_converse(
                        num_t as int - 1,
                        gw,
                        wdone,
                        cnt as int - 1,
                    );
                    assert(wdone + 1 == m.num_windows());
                }
                wdone = wdone + 1;
                assert(wdone * gw == (wdone - 1) * gw + gw) by (nonlinear_arith);
                assert(wdone * gw >= t as int + 1);
            }
            cnt = 0;
            let mut r2: usize = 0;
            while r2 < 2 * n
                invariant
                    0 <= r2 <= 2 * n,
                    acc@.len() == 2 * n,
                    n <= 32768,
                    forall|j: int| 0 <= j < r2 ==> acc@[j] == 0,
                decreases 2 * n - r2,
            {
                acc[r2] = 0;
                r2 = r2 + 1;
            }
        }
        proof {
            if t + 1 < num_t && cnt == 0 {
                assert(t as int + 1 == wdone * gw);
            }
        }
        t = t + 1;
    }
    Ok(hcol)
}

/// Positions in the row-major hint layout determine their coefficient and
/// column uniquely.
proof fn lemma_grid_inj(i: int, c: int, j: int, d: int, cols: int)
    requires
        0 <= c < cols,
        0 <= d < cols,
        i * cols + c == j * cols + d,
    ensures
        i == j && c == d,
{
    lemma_fundamental_div_mod_converse(i * cols + c, cols, i, c);
    lemma_fundamental_div_mod_converse(j * cols + d, cols, j, d);
}

/// Compute the hint matrix for a column-major `db_rows x db_cols` database:
/// `n x db_cols` entries, entry `(i, c)` stored at `i * db_cols + c`. For each
/// column, every row-tile is convolved against the matching transformed
/// public row derived from the seed, the transform-domain sums are flushed
/// through reduction every `max_adds` tiles and at the last tile, and the
/// recombined values are folded into the 2^32-wrapped output. Fails with
/// `ConfigError` exactly when the overflow-guard exponent is not strictly
/// positive, and with `ArithmeticOverflow` exactly when some flush window's
/// exact slot sum would not fit the wide accumulator.
pub fn compute_hint(
    sp: &SchemeParams,
    seed: &[u8; 32],
    db: &Vec<u32>,
    db_rows: usize,
    db_cols: usize,
) -> (r: Result<Vec<u64>, HintError>)
    requires
        sp.wf(),
        db@.len() == db_rows * db_cols,
        sp.n * db_cols <= usize::MAX,
        db_rows + sp.n <= usize::MAX,
    ensures
        ({
            let m = (HintModel {
                seed: seed@,
                db: db@,
                db_rows: db_rows as nat,
                n: sp.n as nat,
                window: sp.max_adds_spec(),
            });
            &&& (r == Err::<Vec<u64>, HintError>(HintError::ConfigError) <==> !sp.guard_ok())
            &&& (sp.guard_ok() ==> (r == Err::<Vec<u64>, HintError>(HintError::ArithmeticOverflow)
                <==> m.overflows(db_cols as nat)))
            &&& (r matches Ok(h) ==> h@.len() == sp.n * db_cols && (forall|i: int, c: int|
                0 <= i < sp.n && 0 <= c < db_cols ==> h@[i * db_cols + c] == m.entry(c, i)))
            &&& (r is Ok <==> sp.guard_ok() && !m.overflows(db_cols as nat))
        }),
{
    let ghost m = HintModel {
        seed: seed@,
        db: db@,
        db_rows: db_rows as nat,
        n: sp.n as nat,
        window: sp.max_adds_spec(),
    };
    let window = match sp.max_adds() {
        Ok(w) => w,
        Err(e) => {
            return Err(e);
        },
    };
    let n = sp.n;
    proof {
        assert(is_pow2_len(n)) by {
            assert(n == vstd::arithmetic::power2::pow2(sp.n_log2 as nat));
        }
    }
    let eng = Engine::new(n);
    let num_t = (db_rows + n - 1) / n;
    let rows = expand_public_rows(&eng, seed, num_t);
    let total = n * db_cols;
    let mut hint: Vec<u64> = Vec::new();
    let mut k0: usize = 0;
    while k0 < total
        invariant
            hint@.len() == k0,
            k0 <= total,
            forall|j: int| 0 <= j < k0 ==> hint@[j] == 0,
        decreases total - k0,
    {
        hint.push(0);
        k0 = k0 + 1;
    }
    let mut col: usize = 0;
    while col < db_cols
        invariant
            eng.wf(),
            m.wf(),
            sp.wf(),
            sp.guard_ok(),
            m.n == eng.spec_poly_len(),
            m.seed == seed@,
            m.db == db@,
            m.db_rows == db_rows,
            m.window == window,
            m.window == sp.max_adds_spec(),
            n == sp.n,
            n == m.n,
            num_t == m.num_tiles(),
            db@.len() == db_rows * db_cols,
            db_rows + n <= usize::MAX,
            total == n * db_cols,
            total <= usize::MAX,
            hint@.len() == total,
            col <= db_cols,
            rows@.len() == num_t,
            forall|t: int| 0 <= t < num_t ==> rows@[t]@ == row_image(m.seed, t, m.n),
            forall|t: int| 0 <= t < num_t ==> rows@[t]@.len() == 2 * m.n,
            forall|t: int, k: int|
                0 <= t < num_t && 0 <= k < 2 * m.n ==> rows@[t]@[k] < res_mod(m.n, k),
            forall|jj: int, cc: int|
                0 <= jj < n && 0 <= cc < col ==> hint@[jj * db_cols + cc] == m.entry(cc, jj),
            forall|cc: int| 0 <= cc < col ==> !m.col_overflows(cc),
        decreases db_cols - col,
    {
        proof {
            lemma_mul_inequality(col as int + 1, db_cols as int, db_rows as int);
            lemma_mul_is_commutative(db_cols as int, db_rows as int);
        }
        let hcol = match column_hint(&eng, &rows, db, db_rows, col, window, Ghost(m)) {
            Ok(h) => h,
            Err(e) => {
                proof {
                    assert(m.col_overflows(col as int));
                    assert(m.overflows(db_cols as nat));
                }
                return Err(e);
            },
        };
        let mut i: usize = 0;
        while i < n
            invariant
                0 <= i <= n,
                n >= 1,
                hint@.len() == total,
                total == n * db_cols,
                col < db_cols,
                hcol@.len() == n,
                forall|jj: int| 0 <= jj < n ==> hcol@[jj] == m.entry(col as int, jj),
                forall|jj: int, cc: int|
                    0 <= jj < n && 0 <= cc < col ==> hint@[jj * db_cols + cc] == m.entry(cc, jj),
                forall|jj: int|
                    0 <= jj < i ==> hint@[jj * db_cols + col] == m.entry(col as int, jj),
            decreases n - i,
        {
            proof {
                lemma_mul_inequality(i as int + 1, n as int, db_cols as int);
                assert((i as int + 1) * db_cols == i as int * db_cols + db_cols)
                    by (nonlinear_arith);
            }
            let idx = i * db_cols + col;
            hint[idx] = hcol[i];
            proof {
                assert forall|jj: int, cc: int|
                    0 <= jj < n && 0 <= cc < col implies hint@[jj * db_cols + cc] == m.entry(
                    cc,
                    jj,
                ) by {
                    vstd::arithmetic::mul::lemma_mul_nonnegative(jj, db_cols as int);
                    lemma_mul_inequality(jj + 1, n as int, db_cols as int);
                    assert((jj + 1) * db_cols == jj * db_cols + db_cols) by (nonlinear_arith);
                    if jj * db_cols + cc == idx {
                        lemma_grid_inj(jj, cc, i as int, col as int, db_cols as int);
                    }
                }
                assert forall|jj: int| 0 <= jj < i + 1 implies hint@[jj * db_cols + col]
                    == m.entry(col as int, jj) by {
                    vstd::arithmetic::mul::lemma_mul_nonnegative(jj, db_cols as int);
                    lemma_mul_inequality(jj + 1, n as int, db_cols as int);
                    assert((jj + 1) * db_cols == jj * db_cols + db_cols) by (nonlinear_arith);
                    if jj < i && jj * db_cols + col == idx {
                        lemma_grid_inj(jj, col as int, i as int, col as int, db_cols as int);
                    }
                }
            }
            i = i + 1;
        }
        col = col + 1;
    }
    proof {
        assert(!m.overflows(db_cols as nat));
    }
    Ok(hint)
}

/// Determinism: any two hint matrices that satisfy the contract for the same
/// seed, parameters and database are identical, entry for entry.
pub proof fn lemma_determinism(m: HintModel, db_cols: nat, h1: Seq<u64>, h2: Seq<u64>)
    requires
        m.n >= 1,
        h1.len() == m.n * db_cols,
        h2.len() == m.n * db_cols,
        forall|i: int, c: int|
            0 <= i < m.n && 0 <= c < db_cols ==> h1[i * db_cols + c] == m.entry(c, i),
        forall|i: int, c: int|
            0 <= i < m.n && 0 <= c < db_cols ==> h2[i * db_cols + c] == m.entry(c, i),
    ensures
        h1 == h2,
{
    assert forall|j: int| 0 <= j < h1.len() implies h1[j] == h2[j] by {
        let d = db_cols as int;
        lemma_fundamental_div_mod(j, d);
        lemma_mod_bound(j, d);
        let i = j / d;
        let c = j % d;
        assert(j == i * d + c) by {
            lemma_mul_is_commutative(d, i);
        }
        assert(0 <= i < m.n) by {
            if i >= m.n {
                lemma_mul_inequality(m.n as int, i, d);
                lemma_mul_is_commutative(m.n as int, d);
            }
            if i < 0 {
                assert(i * d + c < d) by (nonlinear_arith)
                    requires
                        i <= -1,
                        d >= 1,
                        c < d,
                ;
            }
        }
        assert(h1[i * d + c] == m.entry(c, i));
        assert(h2[i * d + c] == m.entry(c, i));
    }
    assert(h1 =~= h2);
}

/// The wrapped fold is linear: when every per-window digest coefficient of
/// one instance is the integer sum of two others', each final wrapped entry
/// is the 2^32-wrapped sum of their entries.
pub proof fn lemma_sum_digests_linear(
    m: HintModel,
    m1: HintModel,
    m2: HintModel,
    col: int,
    w0: int,
    w1: int,
    i: int,
)
    requires
        forall|w: int|
            w0 <= w < w1 ==> m.digest(col, w)[i] == m1.digest(col, w)[i] + m2.digest(col, w)[i],
    ensures
        m.sum_digests(col, w0, w1, i) == m1.sum_digests(col, w0, w1, i) + m2.sum_digests(
            col,
            w0,
            w1,
            i,
        ),
    decreases w1 - w0,
{
    if w1 > w0 {
        lemma_sum_digests_linear(m, m1, m2, col, w0, w1 - 1, i);
    }
}

/// Linearity of the wrapped fold at the entry level; what remains of full
/// linearity in the database is the additivity of each window digest, which
/// belongs to the transform engine.
pub proof fn lemma_fold_linear(m: HintModel, m1: HintModel, m2: HintModel, col: int, i: int)
    requires
        m1.num_windows() == m.num_windows(),
        m2.num_windows() == m.num_windows(),
        forall|w: int|
            0 <= w < m.num_windows() ==> m.digest(col, w)[i] == m1.digest(col, w)[i] + m2.digest(
                col,
                w,
            )[i],
    ensures
        m.entry(col, i) as int == (m1.entry(col, i) + m2.entry(col, i)) % (OUTPUT_RANGE as int),
{
    let nw = m.num_windows() as int;
    let s1 = m1.sum_digests(col, 0, nw, i);
    let s2 = m2.sum_digests(col, 0, nw, i);
    lemma_sum_digests_linear(m, m1, m2, col, 0, nw, i);
    lemma_add_mod_noop(s1, s2, OUTPUT_RANGE as int);
    lemma_mod_twice(s1, OUTPUT_RANGE as int);
    lemma_mod_twice(s2, OUTPUT_RANGE as int);
    lemma_add_mod_noop(s1 % (OUTPUT_RANGE as int), s2 % (OUTPUT_RANGE as int), OUTPUT_RANGE as int);
}

/// A database with no rows has no tiles to accumulate: every hint entry is 0.
pub proof fn lemma_empty_db_rows(m: HintModel, col: int, i: int)
    requires
        m.wf(),
        m.db_rows == 0,
    ensures
        m.entry(col, i) == 0,
{
    lemma_basic_div((m.n - 1) as int, m.n as int);
    assert(m.num_tiles() == 0);
    assert(m.num_windows() == 0);
    assert(m.sum_digests(col, 0, 0, i) == 0);
    lemma_mod_bound(0, OUTPUT_RANGE as int);
    vstd::arithmetic::div_mod::lemma_small_mod(0, OUTPUT_RANGE as nat);
}

/// Tile sums of all-zero convolved tiles vanish.
proof fn lemma_sum_tiles_zero(m: HintModel, col: int, t0: int, t1: int, r: int)
    requires
        forall|t: int| t0 <= t < t1 ==> m.conv_tile(col, t)[r] == 0,
    ensures
        m.sum_tiles(col, t0, t1, r) == 0,
    decreases t1 - t0,
{
    if t1 > t0 {
        lemma_sum_tiles_zero(m, col, t0, t1 - 1, r);
    }
}

/// Digest sums of all-zero digests vanish.
proof fn lemma_sum_digests_zero(m: HintModel, col: int, w0: int, w1: int, i: int)
    requires
        forall|w: int| w0 <= w < w1 ==> m.digest(col, w)[i] == 0,
    ensures
        m.sum_digests(col, w0, w1, i) == 0,
    decreases w1 - w0,
{
    if w1 > w0 {
        lemma_sum_digests_zero(m, col, w0, w1 - 1, i);
    }
}

/// An all-zero database yields an all-zero hint, whatever the seed:
/// multiplying by zero in the transform domain is zero-preserving.
pub proof fn lemma_zero_db(m: HintModel, db_cols: nat, col: int, i: int)
    requires
        m.wf(),
        m.db.len() == m.db_rows * db_cols,
        forall|k: int| 0 <= k < m.db.len() ==> m.db[k] == 0,
        0 <= col < db_cols,
        0 <= i < m.n,
    ensures
        m.entry(col, i) == 0,
{
    let n = m.n;
    let big = OUTPUT_RANGE as int;
    // Every convolved tile is zero: the tile itself is zero, so its image is
    // the zero vector, and the pointwise product vanishes.
    assert forall|t: int, r: int| 0 <= t && 0 <= r < 2 * n implies m.conv_tile(col, t)[r]
        == 0 by {
        assert forall|j: int| 0 <= j < n implies m.tile_col(col, t)[j] == 0u32 by {
            if t * (n as int) + j < m.db_rows {
                let idx = col * (m.db_rows as int) + t * (n as int) + j;
                vstd::arithmetic::mul::lemma_mul_nonnegative(t, n as int);
                vstd::arithmetic::mul::lemma_mul_nonnegative(col, m.db_rows as int);
                lemma_mul_inequality(col + 1, db_cols as int, m.db_rows as int);
                lemma_mul_is_commutative(db_cols as int, m.db_rows as int);
                assert((col + 1) * (m.db_rows as int) == col * (m.db_rows as int) + m.db_rows)
                    by (nonlinear_arith);
                assert(0 <= idx < m.db.len());
                assert(m.db[idx] == 0);
            }
        }
        let tile = m.tile_col(col, t);
        let res = crate::engine::residues(n, tile);
        assert forall|k: int| 0 <= k < res.len() implies res[k] == 0u64 by {
            vstd::arithmetic::div_mod::lemma_small_mod(0, crate::params::CRT_MODULUS_0 as nat);
            vstd::arithmetic::div_mod::lemma_small_mod(0, crate::params::CRT_MODULUS_1 as nat);
        }
        assert(all_zero64(res));
        assert(ntt_fwd_of(n, res) == res);
        let a = row_image(m.seed, t, n);
        assert(m.conv_tile(col, t)[r] == (((a[r] as int) * (res[r] as int)) % (res_mod(n, r)
            as int)) as u64);
        vstd::arithmetic::div_mod::lemma_small_mod(0, res_mod(n, r) as nat);
    }
    // Every window digest is zero: reduced sums are zero, the inverse
    // transform keeps the zero vector, and composing zero residues gives 0.
    assert forall|w: int| 0 <= w < m.num_windows() implies m.digest(col, w)[i] == 0 by {
        assert forall|r: int| 0 <= r < 2 * n implies m.window_sum(col, w, r) == 0 by {
            vstd::arithmetic::mul::lemma_mul_nonnegative(w, m.window as int);
            lemma_sum_tiles_zero(m, col, m.win_lo(w), m.win_hi(w), r);
        }
        let red = m.window_reduced(col, w);
        assert forall|r: int| 0 <= r < red.len() implies red[r] == 0u64 by {
            vstd::arithmetic::div_mod::lemma_small_mod(0, res_mod(n, r) as nat);
        }
        assert(all_zero64(red));
        assert(ntt_inv_of(n, red) == red);
        assert(m.digest(col, w)[i] == crt_compose_spec(red[i], red[i + n]));
        vstd::arithmetic::div_mod::lemma_small_mod(0, CONV_MODULUS as nat);
    }
    lemma_sum_digests_zero(m, col, 0, m.num_windows() as int, i);
    vstd::arithmetic::div_mod::lemma_small_mod(0, OUTPUT_RANGE as nat);
}

} // verus!
