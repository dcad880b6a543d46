//! Deterministic expansion of the public seed into transform-domain public
//! rows: a seeded stream-cipher generator, a negacyclic permutation, and one
//! forward transform per row.

use vstd::prelude::*;

verus! {

use rand_chacha::ChaCha20Rng;
use crate::engine::Engine;
use crate::engine::fwd_image;
use crate::engine::res_mod;
use crate::params::OUTPUT_RANGE;

#[verifier::external_type_specification]
#[verifier::external_body]
pub struct ExChaCha20Rng(ChaCha20Rng);

/// The seed a generator was created from.
pub uninterp spec fn rng_seed(r: ChaCha20Rng) -> Seq<u8>;

/// How many 32-bit words the generator has produced so far.
pub uninterp spec fn rng_pos(r: ChaCha20Rng) -> int;

/// Word `idx` of the ChaCha20 keystream for a seed: a deterministic,
/// platform-independent function of the two.
pub uninterp spec fn chacha_word(seed: Seq<u8>, idx: int) -> u32;

/// Row `t` of the public matrix: `n` consecutive keystream words.
pub open spec fn pub_row(seed: Seq<u8>, t: int, n: nat) -> Seq<u32> {
    Seq::new(n, |i: int| chacha_word(seed, t * (n as int) + i))
}

/// The negacyclic permutation: index `i` maps to `-i mod n`, and the entries
/// that wrap around are negated modulo 2^32, matching convolution modulo
/// `x^n + 1`.
pub open spec fn nega_perm_spec(v: Seq<u32>) -> Seq<u32> {
    Seq::new(
        v.len(),
        |i: int|
            if i == 0 {
                v[0]
            } else {
                (((OUTPUT_RANGE as int) - (v[v.len() - i] as int)) % (OUTPUT_RANGE as int)) as u32
            },
    )
}

/// Transform-domain image of public row `t`: the row, negacyclic-permuted,
/// reduced to residues, and forward-transformed.
pub open spec fn row_image(seed: Seq<u8>, t: int, n: nat) -> Seq<u64> {
    fwd_image(n, nega_perm_spec(pub_row(seed, t, n)))
}

/// Relies on `ChaCha20Rng::from_seed` (the `SeedableRng` impl): a
/// deterministic, platform-independent stream-cipher generator positioned at
/// the start of its keystream.
#[verifier::external_body]
fn rng_from_seed(seed: &[u8; 32]) -> (r: ChaCha20Rng)
    ensures
        rng_seed(r) == seed@,
        rng_pos(r) == 0,
{
    <ChaCha20Rng as rand::SeedableRng>::from_seed(*seed)
}

/// Relies on `rand::Rng::sample` with the `Standard` distribution on u32,
/// which returns `next_u32`: the next 32-bit word of the generator's
/// keystream, advancing its position by one.
#[verifier::external_body]
fn sample_u32(rng: &mut ChaCha20Rng) -> (w: u32)
    ensures
        w == chacha_word(rng_seed(*old(rng)), rng_pos(*old(rng))),
        rng_seed(*final(rng)) == rng_seed(*old(rng)),
        rng_pos(*final(rng)) == rng_pos(*old(rng)) + 1,
{
    rand::Rng::sample::<u32, _>(rng, rand::distributions::Standard)
}

/// The negacyclic permutation, executably: the first entry stays, entry `i`
/// becomes the negation of entry `n - i` modulo 2^32.
pub fn negacyclic_perm(v: &Vec<u32>) -> (r: Vec<u32>)
    requires
        v@.len() >= 1,
    ensures
        r@ == nega_perm_spec(v@),
{
    let n = v.len();
    let mut out: Vec<u32> = Vec::new();
    out.push(v[0]);
    let mut i: usize = 1;
    while i < n
        invariant
            n == v@.len(),
            n >= 1,
            1 <= i <= n,
            out@.len() == i,
            forall|j: int| 0 <= j < i ==> out@[j] == nega_perm_spec(v@)[j],
        decreases n - i,
    {
        let x = v[n - i];
        let neg: u32 = if x == 0 {
            0
        } else {
            (0xffffffffu32 - x) + 1
        };
        proof {
            if x != 0 {
                assert((((OUTPUT_RANGE as int) - (x as int)) % (OUTPUT_RANGE as int)) == (
                OUTPUT_RANGE as int) - (x as int)) by {
                    vstd::arithmetic::div_mod::lemma_small_mod(
                        ((OUTPUT_RANGE as int) - (x as int)) as nat,
                        OUTPUT_RANGE as nat,
                    );
                }
            } else {
                assert((((OUTPUT_RANGE as int) - 0) % (OUTPUT_RANGE as int)) == 0) by {
                    vstd::arithmetic::div_mod::lemma_mod_self_0(OUTPUT_RANGE as int);
                }
            }
        }
        out.push(neg);
        i = i + 1;
    }
    proof {
        assert(out@ =~= nega_perm_spec(v@));
    }
    out
}

/// Deterministically expand the seed into `num_rows` transform-domain public
/// rows: `n` keystream words per row, negacyclic-permuted and transformed.
/// The same seed always produces the same rows.
pub fn expand_public_rows(eng: &Engine, seed: &[u8; 32], num_rows: usize) -> (r: Vec<Vec<u64>>)
    requires
        eng.wf(),
        eng.spec_poly_len() >= 1,
    ensures
        r@.len() == num_rows,
        forall|t: int|
            0 <= t < num_rows ==> r@[t]@ == row_image(seed@, t, eng.spec_poly_len()),
        forall|t: int| 0 <= t < num_rows ==> r@[t]@.len() == 2 * eng.spec_poly_len(),
        forall|t: int, k: int|
            0 <= t < num_rows && 0 <= k < 2 * eng.spec_poly_len() ==> r@[t]@[k] < res_mod(
                eng.spec_poly_len(),
                k,
            ),
{
    let n = eng.poly_len();
    let mut rng = rng_from_seed(seed);
    let mut rows: Vec<Vec<u64>> = Vec::new();
    let mut t: usize = 0;
    while t < num_rows
        invariant
            rows@.len() == t,
            t <= num_rows,
            eng.wf(),
            n == eng.spec_poly_len(),
            n >= 1,
            rng_seed(rng) == seed@,
            rng_pos(rng) == t * n,
            forall|u: int| 0 <= u < t ==> rows@[u]@ == row_image(seed@, u, n as nat),
            forall|u: int| 0 <= u < t ==> rows@[u]@.len() == 2 * n,
            forall|u: int, k: int|
                0 <= u < t && 0 <= k < 2 * n ==> rows@[u]@[k] < res_mod(n as nat, k),
        decreases num_rows - t,
    {
        let mut row: Vec<u32> = Vec::new();
        let mut i: usize = 0;
        while i < n
            invariant
                row@.len() == i,
                i <= n,
                rng_seed(rng) == seed@,
                rng_pos(rng) == t * n + i,
                forall|j: int| 0 <= j < i ==> row@[j] == chacha_word(seed@, t * n + j),
            decreases n - i,
        {
            let w = sample_u32(&mut rng);
            row.push(w);
            i = i + 1;
        }
        proof {
            assert(row@ =~= pub_row(seed@, t as int, n as nat));
        }
        let permuted = negacyclic_perm(&row);
        let image = eng.forward(&permuted);
        rows.push(image);
        proof {
            assert(rows@[t as int]@ == row_image(seed@, t as int, n as nat));
            assert((t + 1) * n == t * n + n) by (nonlinear_arith);
        }
        t = t + 1;
    }
    rows
}

} // verus!
