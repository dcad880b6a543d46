//! Fixed numeric parameters of the scheme, their validation, and the
//! overflow-guard bound on transform-domain accumulation.

use vstd::prelude::*;

verus! {

use vstd::arithmetic::power2::pow2;
use vstd::arithmetic::power2::lemma_pow2_unfold;
use vstd::arithmetic::power2::lemma_pow2_strictly_increases;
use vstd::arithmetic::power2::lemma_pow2_adds;
use vstd::arithmetic::power2::lemma_pow2_pos;
use vstd::arithmetic::power2::lemma2_to64;
use vstd::arithmetic::power2::lemma2_to64_rest;
use vstd::arithmetic::mul::lemma_mul_inequality;
use vstd::bits::lemma_u64_shl_is_mul;

/// First CRT prime of the convolution transform, fixed for the scheme.
pub const CRT_MODULUS_0: u64 = 268369921;

/// Second CRT prime of the convolution transform, fixed for the scheme.
pub const CRT_MODULUS_1: u64 = 249561089;

/// Product of the two CRT primes: the transform's full arithmetic modulus.
pub const CONV_MODULUS: u64 = 66974689739603969;

/// Floor of the base-2 logarithm of `CONV_MODULUS`.
pub const CONV_MODULUS_LOG2: u64 = 55;

/// Hint entries are accumulated and wrapped into this fixed 32-bit range.
pub const OUTPUT_RANGE: u64 = 4294967296;

/// Largest supported transform size: both CRT primes are congruent to 1
/// modulo `2 * poly_len` for every power of two up to this bound.
pub const MAX_POLY_LEN: usize = 32768;

/// Errors surfaced by the hint computation.
#[derive(Clone, Copy, Debug, PartialEq, Eq, Structural)]
pub enum HintError {
    /// Parameter validation failed; computation must not proceed.
    ConfigError,
    /// A wide accumulator addition would have wrapped. Unreachable when the
    /// overflow guard actually protects the chosen parameters; surfaced as a
    /// defect rather than wrapping silently.
    ArithmeticOverflow,
}

/// Floor of the base-2 logarithm, as a mathematical function.
pub open spec fn log2f(x: nat) -> nat
    decreases x,
{
    if x < 2 {
        0
    } else {
        1 + log2f(x / 2)
    }
}

pub proof fn lemma_log2f_bounds(x: nat)
    requires
        x >= 1,
    ensures
        pow2(log2f(x)) <= x < pow2(log2f(x) + 1),
    decreases x,
{
    lemma2_to64();
    if x < 2 {
        assert(pow2(0) == 1 && pow2(1) == 2);
    } else {
        lemma_log2f_bounds(x / 2);
        let l = log2f(x / 2);
        lemma_pow2_unfold(l + 1);
        lemma_pow2_unfold(l + 2);
        assert(pow2(l + 1) == 2 * pow2(l));
        assert(pow2(l) <= x / 2);
        assert(x / 2 < pow2(l + 1));
        assert(x <= 2 * (x / 2) + 1);
    }
}

pub proof fn lemma_log2f_pow2(e: nat)
    ensures
        log2f(pow2(e)) == e,
    decreases e,
{
    lemma2_to64();
    if e == 0 {
        assert(pow2(0) == 1);
    } else {
        lemma_log2f_pow2((e - 1) as nat);
        lemma_pow2_unfold(e);
        lemma_pow2_pos((e - 1) as nat);
        assert(pow2(e) == 2 * pow2((e - 1) as nat));
        assert(pow2(e) / 2 == pow2((e - 1) as nat));
    }
}

/// pow2 is monotone (not necessarily strictly).
pub proof fn lemma_pow2_le(e1: nat, e2: nat)
    requires
        e1 <= e2,
    ensures
        pow2(e1) <= pow2(e2),
{
    if e1 < e2 {
        lemma_pow2_strictly_increases(e1, e2);
    }
}

/// The transform size must be a power of two for the transform tables.
pub open spec fn is_pow2_len(x: usize) -> bool {
    exists|e: nat| x == pow2(e)
}

/// Validity of the four scheme parameters as supplied by a caller.
pub open spec fn params_ok(modulus: u64, n: usize, pt_modulus: u64, poly_len: usize) -> bool {
    &&& modulus >= 2
    &&& pt_modulus >= 2
    &&& n >= 1
    &&& poly_len == n
    &&& poly_len <= MAX_POLY_LEN
    &&& is_pow2_len(poly_len)
}

/// The fixed numeric parameters of one scheme instance: the LWE side
/// (ciphertext modulus, dimension, plaintext modulus) and the convolution
/// transform size, which must equal the dimension.
#[derive(Clone, Copy, Debug)]
pub struct SchemeParams {
    /// LWE ciphertext modulus.
    pub modulus: u64,
    /// LWE dimension; equals the transform size.
    pub n: usize,
    /// Plaintext modulus.
    pub pt_modulus: u64,
    /// Exact base-2 logarithm of `n`.
    pub n_log2: u64,
}

impl SchemeParams {
    /// Well-formedness established by the constructor and preserved forever:
    /// the parameters are positive and `n` is a supported power of two.
    pub open spec fn wf(self) -> bool {
        &&& self.modulus >= 2
        &&& self.pt_modulus >= 2
        &&& 1 <= self.n <= MAX_POLY_LEN
        &&& self.n_log2 <= 15
        &&& self.n == pow2(self.n_log2 as nat)
    }

    /// Validate and fix a parameter set. Fails with `ConfigError` exactly when
    /// a parameter is out of range, the transform size differs from `n`, or
    /// the transform size is not a supported power of two.
    pub fn new(modulus: u64, n: usize, pt_modulus: u64, poly_len: usize) -> (r: Result<
        SchemeParams,
        HintError,
    >)
        ensures
            r is Ok <==> params_ok(modulus, n, pt_modulus, poly_len),
            r matches Ok(sp) ==> sp.wf() && sp.modulus == modulus && sp.n == n && sp.pt_modulus
                == pt_modulus,
            r matches Err(e) ==> e == HintError::ConfigError,
    {
        proof {
            lemma2_to64();
        }
        if modulus < 2 || pt_modulus < 2 || n < 1 || poly_len != n || poly_len > MAX_POLY_LEN {
            return Err(HintError::ConfigError);
        }
        let mut p: usize = 1;
        let mut e: u64 = 0;
        while p < poly_len
            invariant
                p == pow2(e as nat),
                p < 2 * poly_len,
                poly_len <= MAX_POLY_LEN,
                poly_len >= 1,
                e <= 15,
                e > 0 ==> pow2((e - 1) as nat) < poly_len,
            decreases 2 * poly_len - p,
        {
            proof {
                lemma2_to64();
                if e >= 15 {
                    lemma_pow2_le(15, e as nat);
                    assert(pow2(15) == 32768);
                    assert(false);
                }
                lemma_pow2_unfold((e + 1) as nat);
            }
            p = p * 2;
            e = e + 1;
        }
        if p == poly_len {
            Ok(SchemeParams { modulus, n, pt_modulus, n_log2: e })
        } else {
            proof {
                assert(pow2(e as nat) > poly_len);
                assert forall|k: nat| poly_len != pow2(k) by {
                    if k < e {
                        lemma_pow2_le(k, (e - 1) as nat);
                    } else {
                        lemma_pow2_le(e as nat, k);
                    }
                }
            }
            Err(HintError::ConfigError)
        }
    }

    /// LWE ciphertext modulus.
    pub fn modulus(&self) -> (r: u64)
        ensures
            r == self.modulus,
    {
        self.modulus
    }

    /// LWE dimension.
    pub fn lwe_n(&self) -> (r: usize)
        ensures
            r == self.n,
    {
        self.n
    }

    /// Plaintext modulus.
    pub fn pt_modulus(&self) -> (r: u64)
        ensures
            r == self.pt_modulus,
    {
        self.pt_modulus
    }

    /// Transform size; always equal to the LWE dimension.
    pub fn poly_len(&self) -> (r: usize)
        ensures
            r == self.n,
    {
        self.n
    }

    /// Number of CRT residues of the transform.
    pub fn crt_count(&self) -> (r: usize)
        ensures
            r == 2,
    {
        2
    }

    /// Full arithmetic modulus of the transform.
    pub fn conv_modulus(&self) -> (r: u64)
        ensures
            r == CONV_MODULUS,
    {
        CONV_MODULUS
    }

    /// Bit length of one convolution result's magnitude bound:
    /// log2(modulus) + log2(n) + log2(pt_modulus), each taken as a floor.
    pub open spec fn log2_conv_output(self) -> nat {
        log2f(self.modulus as nat) + log2f(self.n as nat) + log2f(self.pt_modulus as nat)
    }

    /// The overflow guard is usable only when its exponent is strictly
    /// positive.
    pub open spec fn guard_ok(self) -> bool {
        self.log2_conv_output() <= 53
    }

    /// Exponent of the accumulation window:
    /// log2(CONV_MODULUS) - log2_conv_output - 1, the final -1 being a safety
    /// margin bit.
    pub open spec fn max_adds_exp(self) -> nat {
        (54 - self.log2_conv_output()) as nat
    }

    /// Number of transform-domain accumulations allowed before a flush.
    pub open spec fn max_adds_spec(self) -> nat {
        pow2(self.max_adds_exp())
    }

    /// Compute the accumulation window: 2^(log2(CONV_MODULUS) -
    /// log2(modulus * n * pt_modulus) - 1). Fails fast with `ConfigError`
    /// exactly when that exponent is not strictly positive.
    pub fn max_adds(&self) -> (r: Result<u64, HintError>)
        requires
            self.wf(),
        ensures
            r is Ok <==> self.guard_ok(),
            r matches Ok(w) ==> w == self.max_adds_spec() && 1 <= w,
            r matches Err(e) ==> e == HintError::ConfigError,
    {
        let l2q = log2_floor(self.modulus);
        let l2n = self.n_log2;
        let l2pt = log2_floor(self.pt_modulus);
        proof {
            lemma_log2f_pow2(self.n_log2 as nat);
        }
        let out = l2q + l2n + l2pt;
        if out > 53 {
            return Err(HintError::ConfigError);
        }
        let exp = 54 - out;
        proof {
            lemma_pow2_le(exp as nat, 54);
            lemma2_to64_rest();
            lemma_pow2_pos(exp as nat);
            lemma_u64_shl_is_mul(1u64, exp);
        }
        Ok(1u64 << exp)
    }
}

/// Executable floor of the base-2 logarithm.
pub fn log2_floor(x: u64) -> (e: u64)
    requires
        x >= 1,
    ensures
        e == log2f(x as nat),
        e <= 63,
{
    proof {
        lemma_log2f_bounds(x as nat);
        if log2f(x as nat) >= 64 {
            lemma_pow2_le(64, log2f(x as nat));
            lemma2_to64_rest();
            assert(false);
        }
    }
    let mut p: u64 = x;
    let mut e: u64 = 0;
    while p >= 2
        invariant
            p >= 1,
            log2f(x as nat) == e + log2f(p as nat),
            e <= log2f(x as nat),
            log2f(x as nat) <= 63,
        decreases p,
    {
        p = p / 2;
        e = e + 1;
    }
    e
}

/// Overflow-guard correctness. For power-of-two parameters whose guard
/// exponent is strictly positive, a window of at most `max_adds` convolution
/// results, each of magnitude below `modulus * n * pt_modulus`, sums to at
/// most 2^54 -- and even twice that stays below the transform modulus, which
/// is the safety margin bit. Accumulating more than `max_adds` results
/// without a reduction is prevented by construction: the accumulator is
/// flushed as soon as the window fills.
pub proof fn lemma_overflow_guard(sp: SchemeParams, k: nat)
    requires
        sp.wf(),
        sp.guard_ok(),
        sp.modulus == pow2(log2f(sp.modulus as nat)),
        sp.pt_modulus == pow2(log2f(sp.pt_modulus as nat)),
        k <= sp.max_adds_spec(),
    ensures
        k * (sp.modulus * sp.n * sp.pt_modulus) <= pow2(54),
        2 * (k * (sp.modulus * sp.n * sp.pt_modulus)) < CONV_MODULUS,
{
    let lq = log2f(sp.modulus as nat);
    let ln = log2f(sp.n as nat);
    let lpt = log2f(sp.pt_modulus as nat);
    lemma_log2f_pow2(sp.n_log2 as nat);
    assert(ln == sp.n_log2 as nat);
    assert(sp.n == pow2(ln));
    lemma_pow2_adds(lq, ln);
    lemma_pow2_adds(lq + ln, lpt);
    assert(sp.modulus * sp.n * sp.pt_modulus == pow2(lq + ln + lpt));
    let out = sp.log2_conv_output();
    let e = sp.max_adds_exp();
    lemma_pow2_adds(e, out);
    assert(e + out == 54);
    lemma_pow2_pos(out);
    lemma_mul_inequality(k as int, pow2(e) as int, pow2(out) as int);
    assert(k * pow2(out) <= pow2(e) * pow2(out));
    lemma_pow2_unfold(55);
    lemma_pow2_le(e + out, 54);
    assert(2 * pow2(54) == pow2(55));
    assert(pow2(55) < CONV_MODULUS) by {
        lemma2_to64_rest();
    }
}

} // verus!
