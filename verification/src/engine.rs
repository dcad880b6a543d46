//! The convolution engine: forward and inverse number-theoretic transforms,
//! pointwise multiplication per CRT residue, Barrett reduction, and CRT
//! recombination. The transform internals come from an outside library and
//! are specified here only at their interface.

use vstd::prelude::*;

verus! {

use spiral_rs::params::Params;
use crate::params::CRT_MODULUS_0;
use crate::params::CRT_MODULUS_1;
use crate::params::CONV_MODULUS;
use crate::params::MAX_POLY_LEN;
use crate::params::is_pow2_len;

#[verifier::external_type_specification]
#[verifier::external_body]
pub struct ExParams(Params);

/// Transform size of a parameter table.
pub uninterp spec fn conv_poly_len(p: Params) -> nat;

/// First CRT modulus of a parameter table.
pub uninterp spec fn conv_m0(p: Params) -> u64;

/// Second CRT modulus of a parameter table.
pub uninterp spec fn conv_m1(p: Params) -> u64;

/// Image of a residue vector under the forward transform of the fixed CRT
/// primes, for one transform size. The transform is a pure function of its
/// input; its pointwise definition is left unstated.
pub uninterp spec fn ntt_fwd_name(n: nat, v: Seq<u64>) -> Seq<u64>;

/// Image of a residue vector under the inverse transform; see `ntt_fwd_name`.
pub uninterp spec fn ntt_inv_name(n: nat, v: Seq<u64>) -> Seq<u64>;

pub open spec fn all_zero64(v: Seq<u64>) -> bool {
    forall|k: int| 0 <= k < v.len() ==> v[k] == 0
}

/// The forward transform; the transform of the zero vector is zero.
pub open spec fn ntt_fwd_of(n: nat, v: Seq<u64>) -> Seq<u64> {
    if all_zero64(v) {
        v
    } else {
        ntt_fwd_name(n, v)
    }
}

/// The inverse transform; the inverse of the zero vector is zero.
pub open spec fn ntt_inv_of(n: nat, v: Seq<u64>) -> Seq<u64> {
    if all_zero64(v) {
        v
    } else {
        ntt_inv_name(n, v)
    }
}

/// The CRT modulus governing slot `k` of a transform-domain vector: the first
/// `n` slots belong to the first residue, the rest to the second.
pub open spec fn res_mod(n: nat, k: int) -> u64 {
    if k < n {
        CRT_MODULUS_0
    } else {
        CRT_MODULUS_1
    }
}

/// Residue expansion of a raw u32 vector: each value reduced by each CRT
/// modulus, first residue block then second.
pub open spec fn residues(n: nat, v: Seq<u32>) -> Seq<u64> {
    Seq::new(
        2 * n,
        |k: int|
            if k < n {
                ((v[k] as int) % (CRT_MODULUS_0 as int)) as u64
            } else {
                ((v[k - n] as int) % (CRT_MODULUS_1 as int)) as u64
            },
    )
}

/// Transform-domain image of a raw u32 vector.
pub open spec fn fwd_image(n: nat, v: Seq<u32>) -> Seq<u64> {
    ntt_fwd_of(n, residues(n, v))
}

/// Pointwise product in the transform domain, per CRT residue.
pub open spec fn pointwise_spec(n: nat, a: Seq<u64>, b: Seq<u64>) -> Seq<u64> {
    Seq::new(2 * n, |k: int| (((a[k] as int) * (b[k] as int)) % (res_mod(n, k) as int)) as u64)
}

/// Entrywise reduction of a wide accumulator by the slot's CRT modulus.
pub open spec fn reduce_spec(n: nat, acc: Seq<u64>) -> Seq<u64> {
    Seq::new(2 * n, |k: int| ((acc[k] as int) % (res_mod(n, k) as int)) as u64)
}

/// CRT recombination of one coefficient from its two residues: the unique
/// value below the full modulus congruent to each residue.
pub open spec fn crt_compose_spec(x: u64, y: u64) -> u64 {
    (((x as int) * (40838229011788690 as int) + (y as int) * (26136460727815280 as int)) % (
    CONV_MODULUS as int)) as u64
}

/// Raw-domain recombination of a reduced transform-domain vector: inverse
/// transform, then CRT composition of each coefficient's residue pair.
pub open spec fn recombine_of(n: nat, reduced: Seq<u64>) -> Seq<u64> {
    let inv = ntt_inv_of(n, reduced);
    Seq::new(n as nat, |j: int| crt_compose_spec(inv[j], inv[j + n]))
}

/// Relies on `spiral_rs::params::Params::init`, which builds the transform
/// tables for the moduli it is given. Both fixed CRT primes are congruent to
/// 1 modulo 2 * poly_len for every power-of-two size up to `MAX_POLY_LEN`, so
/// the primitive-root lookups inside succeed; the remaining arguments do not
/// influence the transform. The resulting table has the given transform size
/// and moduli.
#[verifier::external_body]
fn params_init(poly_len: usize, m0: u64, m1: u64) -> (p: Params)
    requires
        1 <= poly_len <= MAX_POLY_LEN,
        is_pow2_len(poly_len),
        m0 == CRT_MODULUS_0,
        m1 == CRT_MODULUS_1,
    ensures
        conv_poly_len(p) == poly_len,
        conv_m0(p) == m0,
        conv_m1(p) == m1,
{
    Params::init(poly_len, &[m0, m1], Default::default(), 1, 2, 14, 2, 2, 2, 2, false, 1, 1, 1, 1)
}

/// Relies on `spiral_rs::ntt::ntt_forward`: an in-place forward transform of
/// one residue block per CRT modulus, a pure function of the buffer contents
/// and the tables, producing canonical (below-modulus) outputs from canonical
/// inputs and mapping the zero vector to itself.
#[verifier::external_body]
fn ntt_forward_raw(p: &Params, buf: &mut Vec<u64>)
    requires
        conv_m0(*p) == CRT_MODULUS_0,
        conv_m1(*p) == CRT_MODULUS_1,
        old(buf)@.len() == 2 * conv_poly_len(*p),
        forall|k: int|
            0 <= k < old(buf)@.len() ==> old(buf)@[k] < res_mod(conv_poly_len(*p), k),
    ensures
        final(buf)@ == ntt_fwd_of(conv_poly_len(*p), old(buf)@),
        !all_zero64(old(buf)@) ==> final(buf)@ == ntt_fwd_name(conv_poly_len(*p), old(buf)@),
        final(buf)@.len() == old(buf)@.len(),
        forall|k: int|
            0 <= k < final(buf)@.len() ==> final(buf)@[k] < res_mod(conv_poly_len(*p), k),
{
    spiral_rs::ntt::ntt_forward(p, buf.as_mut_slice());
}

/// Relies on `spiral_rs::ntt::ntt_inverse`: the in-place inverse transform,
/// with the same purity, canonicity and zero-preservation as the forward one.
#[verifier::external_body]
fn ntt_inverse_raw(p: &Params, buf: &mut Vec<u64>)
    requires
        conv_m0(*p) == CRT_MODULUS_0,
        conv_m1(*p) == CRT_MODULUS_1,
        old(buf)@.len() == 2 * conv_poly_len(*p),
        forall|k: int|
            0 <= k < old(buf)@.len() ==> old(buf)@[k] < res_mod(conv_poly_len(*p), k),
    ensures
        final(buf)@ == ntt_inv_of(conv_poly_len(*p), old(buf)@),
        !all_zero64(old(buf)@) ==> final(buf)@ == ntt_inv_name(conv_poly_len(*p), old(buf)@),
        final(buf)@.len() == old(buf)@.len(),
        forall|k: int|
            0 <= k < final(buf)@.len() ==> final(buf)@[k] < res_mod(conv_poly_len(*p), k),
{
    spiral_rs::ntt::ntt_inverse(p, buf.as_mut_slice());
}

/// Relies on `spiral_rs::arith::barrett_coeff_u64`: exact Barrett reduction
/// of any u64 by the chosen CRT modulus (the precomputed ratio is
/// floor(2^64 / m), and the one conditional subtraction completes the
/// reduction for every input).
#[verifier::external_body]
fn barrett_coeff(p: &Params, val: u64, c: usize) -> (r: u64)
    requires
        conv_m0(*p) == CRT_MODULUS_0,
        conv_m1(*p) == CRT_MODULUS_1,
        c < 2,
    ensures
        c == 0 ==> r == (val as int) % (CRT_MODULUS_0 as int),
        c == 1 ==> r == (val as int) % (CRT_MODULUS_1 as int),
{
    spiral_rs::arith::barrett_coeff_u64(p, val, c)
}

/// Relies on `spiral_rs::params::Params::crt_compose_2`: recombines two
/// residues as x * (m1 * (m1^-1 mod m0)) + y * (m0 * (m0^-1 mod m1)) reduced
/// modulo m0 * m1 by an exact 128-bit Barrett reduction; with the two fixed
/// primes those constants are the ones in `crt_compose_spec`.
#[verifier::external_body]
fn crt_compose(p: &Params, x: u64, y: u64) -> (r: u64)
    requires
        conv_m0(*p) == CRT_MODULUS_0,
        conv_m1(*p) == CRT_MODULUS_1,
        x < CRT_MODULUS_0,
        y < CRT_MODULUS_1,
    ensures
        r == crt_compose_spec(x, y),
{
    p.crt_compose_2(x, y)
}

/// One convolution engine instance: the outside library's parameter table,
/// kept consistent with the transform size it was built for.
pub struct Engine {
    params: Params,
    poly_len: usize,
}

impl Engine {
    /// The table matches the stored transform size and the fixed CRT primes.
    pub closed spec fn wf(self) -> bool {
        &&& conv_poly_len(self.params) == self.poly_len
        &&& conv_m0(self.params) == CRT_MODULUS_0
        &&& conv_m1(self.params) == CRT_MODULUS_1
        &&& 1 <= self.poly_len <= MAX_POLY_LEN
    }

    /// The transform size.
    pub closed spec fn spec_poly_len(self) -> nat {
        self.poly_len as nat
    }

    /// Build an engine for one power-of-two transform size.
    pub fn new(poly_len: usize) -> (r: Engine)
        requires
            1 <= poly_len <= MAX_POLY_LEN,
            is_pow2_len(poly_len),
        ensures
            r.wf(),
            r.spec_poly_len() == poly_len,
    {
        Engine { params: params_init(poly_len, CRT_MODULUS_0, CRT_MODULUS_1), poly_len }
    }

    /// The transform size, as a runtime value.
    pub fn poly_len(&self) -> (r: usize)
        ensures
            r == self.spec_poly_len(),
            self.wf() ==> 1 <= r <= MAX_POLY_LEN,
    {
        self.poly_len
    }

    /// Transform a raw length-n u32 vector into its transform-domain image:
    /// per-residue reduction, then the forward transform.
    pub fn forward(&self, v: &Vec<u32>) -> (r: Vec<u64>)
        requires
            self.wf(),
            v@.len() == self.spec_poly_len(),
        ensures
            r@ == fwd_image(self.spec_poly_len(), v@),
            r@.len() == 2 * self.spec_poly_len(),
            forall|k: int| 0 <= k < r@.len() ==> r@[k] < res_mod(self.spec_poly_len(), k),
    {
        let n = self.poly_len;
        let mut buf: Vec<u64> = Vec::new();
        let mut k: usize = 0;
        while k < 2 * n
            invariant
                buf@.len() == k,
                k <= 2 * n,
                n == self.spec_poly_len(),
                n <= MAX_POLY_LEN,
                v@.len() == n,
                forall|j: int| 0 <= j < k ==> buf@[j] == residues(n as nat, v@)[j],
            decreases 2 * n - k,
        {
            if k < n {
                buf.push((v[k] as u64) % CRT_MODULUS_0);
            } else {
                buf.push((v[k - n] as u64) % CRT_MODULUS_1);
            }
            k = k + 1;
        }
        proof {
            assert(buf@ =~= residues(self.spec_poly_len(), v@));
        }
        ntt_forward_raw(&self.params, &mut buf);
        buf
    }

    /// Pointwise product of two transform-domain vectors, per CRT residue.
    pub fn pointwise_mul(&self, a: &Vec<u64>, b: &Vec<u64>) -> (r: Vec<u64>)
        requires
            self.wf(),
            a@.len() == 2 * self.spec_poly_len(),
            b@.len() == 2 * self.spec_poly_len(),
            forall|k: int| 0 <= k < a@.len() ==> a@[k] < res_mod(self.spec_poly_len(), k),
            forall|k: int| 0 <= k < b@.len() ==> b@[k] < res_mod(self.spec_poly_len(), k),
        ensures
            r@ == pointwise_spec(self.spec_poly_len(), a@, b@),
            r@.len() == 2 * self.spec_poly_len(),
            forall|k: int| 0 <= k < r@.len() ==> r@[k] < res_mod(self.spec_poly_len(), k),
    {
        let n = self.poly_len;
        let mut out: Vec<u64> = Vec::new();
        let mut k: usize = 0;
        while k < 2 * n
            invariant
                out@.len() == k,
                k <= 2 * n,
                n == self.spec_poly_len(),
                n <= MAX_POLY_LEN,
                a@.len() == 2 * n,
                b@.len() == 2 * n,
                forall|j: int| 0 <= j < a@.len() ==> a@[j] < res_mod(n as nat, j),
                forall|j: int| 0 <= j < b@.len() ==> b@[j] < res_mod(n as nat, j),
                forall|j: int| 0 <= j < k ==> out@[j] == pointwise_spec(n as nat, a@, b@)[j],
                forall|j: int| 0 <= j < k ==> out@[j] < res_mod(n as nat, j),
            decreases 2 * n - k,
        {
            let m: u64 = if k < n {
                CRT_MODULUS_0
            } else {
                CRT_MODULUS_1
            };
            proof {
                assert(a@[k as int] < res_mod(n as nat, k as int));
                assert(b@[k as int] < res_mod(n as nat, k as int));
                assert(a@[k as int] * b@[k as int] < 0x100000000000000) by (nonlinear_arith)
                    requires
                        a@[k as int] < 0x10000000,
                        b@[k as int] < 0x10000000,
                        a@[k as int] >= 0,
                        b@[k as int] >= 0,
                ;
            }
            out.push((a[k] * b[k]) % m);
            k = k + 1;
        }
        proof {
            assert(out@ =~= pointwise_spec(self.spec_poly_len(), a@, b@));
        }
        out
    }

    /// Flush a wide accumulator: reduce each slot by its CRT modulus, apply
    /// the inverse transform, and recombine each coefficient's residue pair
    /// into a raw-domain value below the full transform modulus.
    pub fn reduce_and_recombine(&self, acc: &Vec<u64>) -> (r: Vec<u64>)
        requires
            self.wf(),
            acc@.len() == 2 * self.spec_poly_len(),
        ensures
            r@ == recombine_of(self.spec_poly_len(), reduce_spec(self.spec_poly_len(), acc@)),
            r@.len() == self.spec_poly_len(),
            forall|j: int| 0 <= j < r@.len() ==> r@[j] < CONV_MODULUS,
    {
        let n = self.poly_len;
        let mut red: Vec<u64> = Vec::new();
        let mut k: usize = 0;
        while k < 2 * n
            invariant
                red@.len() == k,
                k <= 2 * n,
                n == self.spec_poly_len(),
                n <= MAX_POLY_LEN,
                acc@.len() == 2 * n,
                self.wf(),
                forall|j: int| 0 <= j < k ==> red@[j] == reduce_spec(n as nat, acc@)[j],
            decreases 2 * n - k,
        {
            let c: usize = if k < n {
                0
            } else {
                1
            };
            red.push(barrett_coeff(&self.params, acc[k], c));
            k = k + 1;
        }
        proof {
            assert(red@ =~= reduce_spec(self.spec_poly_len(), acc@));
            assert forall|j: int| 0 <= j < red@.len() implies red@[j] < res_mod(
                n as nat,
                j,
            ) by {
                assert(red@[j] == reduce_spec(n as nat, acc@)[j]);
            }
        }
        let ghost reduced = red@;
        ntt_inverse_raw(&self.params, &mut red);
        let mut out: Vec<u64> = Vec::new();
        let mut j: usize = 0;
        while j < n
            invariant
                out@.len() == j,
                j <= n,
                n == self.spec_poly_len(),
                n <= MAX_POLY_LEN,
                red@.len() == 2 * n,
                red@ == ntt_inv_of(n as nat, reduced),
                self.wf(),
                forall|i: int| 0 <= i < red@.len() ==> red@[i] < res_mod(n as nat, i),
                forall|i: int|
                    0 <= i < j ==> out@[i] == crt_compose_spec(red@[i], red@[i + n as int]),
                forall|i: int| 0 <= i < j ==> out@[i] < CONV_MODULUS,
            decreases n - j,
        {
            let x = red[j];
            let y = red[j + n];
            proof {
                assert(red@[j as int] < res_mod(n as nat, j as int));
                assert(red@[j as int + n as int] < res_mod(n as nat, j as int + n as int));
            }
            out.push(crt_compose(&self.params, x, y));
            j = j + 1;
        }
        proof {
            assert(out@ =~= recombine_of(
                self.spec_poly_len(),
                reduce_spec(self.spec_poly_len(), acc@),
            ));
        }
        out
    }
}

} // verus!
