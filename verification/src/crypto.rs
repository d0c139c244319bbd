//! The trusted boundary to the pairing-based cryptography library.
//!
//! Every commitment, ciphertext and scalar that the key-generation logic
//! stores or sends is held as its canonical byte encoding, so that the
//! protocol state is made of plain values. The functions here call into
//! `threshold_crypto` (and `bincode` for the canonical encoding) and are the
//! only unverified code in the crate: each carries a contract stating no more
//! than what the called library does.
//!
//! Deterministic results of pure outside computations are given opaque names
//! (`spec_commit_row` and friends), so that verified callers can state that
//! the same inputs always lead to the same outputs, without pretending to
//! know the algebra behind them.

use vstd::prelude::*;
use threshold_crypto::ff::{Field, PrimeField, PrimeFieldRepr};
use threshold_crypto::group::{CurveAffine, CurveProjective, EncodedPoint};

verus! {

// ---------------------------------------------------------------------------
// Outside types that run through the protocol logic. They are opaque to the
// verifier: values of them are only created, carried and consumed by the
// trusted functions below.
// ---------------------------------------------------------------------------

/// `threshold_crypto::SecretKey`: a node's long-term decryption key.
#[verifier::external_type_specification]
#[verifier::external_body]
pub struct ExSecretKey(threshold_crypto::SecretKey);

/// `threshold_crypto::PublicKey`: a node's long-term encryption key.
#[verifier::external_type_specification]
#[verifier::external_body]
pub struct ExPublicKey(threshold_crypto::PublicKey);

/// `threshold_crypto::Fr`: an element of the BLS12-381 scalar field.
#[verifier::external_type_specification]
#[verifier::external_body]
pub struct ExFr(threshold_crypto::Fr);

/// `threshold_crypto::poly::BivarPoly`: a symmetric bivariate polynomial.
#[verifier::external_type_specification]
#[verifier::external_body]
pub struct ExBivarPoly(threshold_crypto::poly::BivarPoly);

// ---------------------------------------------------------------------------
// Names for the results of pure outside computations on canonical bytes.
// ---------------------------------------------------------------------------

/// The canonical bytes of row `x` of the bivariate commitment encoded in
/// `commit`, or `None` when `commit` does not decode to a commitment.
pub uninterp spec fn spec_commit_row(commit: Seq<u8>, x: u64) -> Option<Seq<u8>>;

/// The canonical bytes of the sum of the two univariate commitments encoded
/// in `a` and `b`, or `None` when either does not decode.
pub uninterp spec fn spec_commit_add(a: Seq<u8>, b: Seq<u8>) -> Option<Seq<u8>>;

/// The compressed curve point at `(x, y)` of the bivariate commitment encoded
/// in `commit`, or `None` when `commit` does not decode.
pub uninterp spec fn spec_commit_evaluate(commit: Seq<u8>, x: u64, y: u64) -> Option<Seq<u8>>;

/// The compressed base-point multiple of the field element canonically
/// encoded in `v`, or `None` when `v` is not a canonical encoding.
pub uninterp spec fn spec_g1_mul_base(v: Seq<u8>) -> Option<Seq<u8>>;

/// The degree of the bivariate commitment encoded in `commit`, or `None`
/// when `commit` does not decode to a commitment.
pub uninterp spec fn spec_commit_degree(commit: Seq<u8>) -> Option<u64>;

/// The canonical bytes of the commitment to the univariate polynomial
/// encoded in `row`, or `None` when `row` does not decode to a polynomial.
pub uninterp spec fn spec_poly_commitment(row: Seq<u8>) -> Option<Seq<u8>>;

/// The canonical bytes of the value at point `x` of the univariate
/// polynomial encoded in `row`, or `None` when `row` does not decode.
pub uninterp spec fn spec_row_eval(row: Seq<u8>, x: u64) -> Option<Seq<u8>>;

/// The byte strings held by an optional byte vector, for stating contracts.
pub open spec fn as_opt_bytes(r: Option<Vec<u8>>) -> Option<Seq<u8>> {
    match r {
        Some(v) => Some(v@),
        None => None,
    }
}

// ---------------------------------------------------------------------------
// Trusted wrappers.
// ---------------------------------------------------------------------------

/// Relies on `BivarPoly::random`, `BivarPoly::commitment` and
/// `bincode::serialize`: a bivariate polynomial of the given degree in each
/// variable, sampled from the operating system's secure RNG, together with
/// the canonical bytes of its public commitment. The polynomial is random,
/// but whatever was sampled, its commitment carries the requested degree.
/// Panics only when the host cannot supply randomness or memory.
#[verifier::external_body]
pub(crate) fn random_commitment(degree: usize) -> (r: (
    threshold_crypto::poly::BivarPoly,
    Vec<u8>,
))
    requires
        degree < 0x10000,
    ensures
        spec_commit_degree(r.1@) == Some(degree as u64),
{
    let poly = threshold_crypto::poly::BivarPoly::random(degree, &mut rand::rngs::OsRng);
    let commit = bincode::serialize(&poly.commitment()).expect("serialization cannot fail");
    (poly, commit)
}

/// Relies on `BivarPoly::row` and `bincode::serialize`: the canonical bytes
/// of the univariate polynomial `f(x, y)` at the given `x`.
#[verifier::external_body]
pub(crate) fn bivar_row_bytes(poly: &threshold_crypto::poly::BivarPoly, x: u64) -> (r: Vec<u8>) {
    bincode::serialize(&poly.row(x)).expect("serializing a polynomial cannot fail")
}

/// Relies on `PublicKey::encrypt`, which consumes randomness: nothing is
/// assumed of the ciphertext bytes.
#[verifier::external_body]
pub(crate) fn encrypt(pk: &threshold_crypto::PublicKey, msg: &Vec<u8>) -> (r: Vec<u8>) {
    bincode::serialize(&pk.encrypt(msg.as_slice())).expect("serializing a ciphertext cannot fail")
}

/// Relies on `SecretKey::decrypt`: `None` when the bytes do not decode to a
/// ciphertext, or the ciphertext fails its validity check against this key.
/// The result depends on the secret key, so nothing more is assumed.
#[verifier::external_body]
pub(crate) fn decrypt(sk: &threshold_crypto::SecretKey, ct: &Vec<u8>) -> (r: Option<Vec<u8>>) {
    let c: threshold_crypto::Ciphertext = bincode::deserialize(ct).ok()?;
    sk.decrypt(&c)
}

/// Relies on `bincode::deserialize::<Poly>`, `Poly::commitment` and
/// `bincode::serialize`: the commitment to the polynomial encoded in `row`,
/// a function of the bytes alone; `None` iff the bytes do not decode.
#[verifier::external_body]
pub(crate) fn poly_commitment_bytes(row: &Vec<u8>) -> (r: Option<Vec<u8>>)
    ensures
        as_opt_bytes(r) == spec_poly_commitment(row@),
{
    let p: threshold_crypto::poly::Poly = bincode::deserialize(row).ok()?;
    bincode::serialize(&p.commitment()).ok()
}

/// Relies on `bincode::deserialize::<Poly>`, `Poly::evaluate` and the
/// canonical 32-byte encoding: the value at point `x` of the polynomial
/// encoded in `row`, a function of the bytes and the point alone. Decoding
/// fails exactly when it fails for the commitment of the same bytes, and the
/// evaluation itself is total.
#[verifier::external_body]
pub(crate) fn poly_eval_bytes(row: &Vec<u8>, x: u64) -> (r: Option<Vec<u8>>)
    ensures
        as_opt_bytes(r) == spec_row_eval(row@, x),
        r is Some <==> spec_poly_commitment(row@) is Some,
        r matches Some(v) ==> v@.len() == 32,
{
    let p: threshold_crypto::poly::Poly = bincode::deserialize(row).ok()?;
    let mut out: Vec<u8> = Vec::new();
    p.evaluate(x).into_repr().write_be(&mut out).expect("writing to a vector cannot fail");
    Some(out)
}

/// Relies on `Field::zero` for `Fr`.
#[verifier::external_body]
pub(crate) fn fr_zero() -> (r: threshold_crypto::Fr) {
    threshold_crypto::Fr::zero()
}

/// Relies on `Field::add_assign` for `Fr`: the field sum of the two elements.
#[verifier::external_body]
pub(crate) fn fr_add(a: &threshold_crypto::Fr, b: &threshold_crypto::Fr) -> (r: threshold_crypto::Fr) {
    let mut sum = *a;
    sum.add_assign(b);
    sum
}

/// Relies on `Field::mul_assign` for `Fr`: the field product of the two
/// elements.
#[verifier::external_body]
pub(crate) fn fr_mul(a: &threshold_crypto::Fr, b: &threshold_crypto::Fr) -> (r: threshold_crypto::Fr) {
    let mut prod = *a;
    prod.mul_assign(b);
    prod
}

/// Relies on `IntoFr` for `u64`: the field element with that value. Total,
/// since the field's modulus exceeds the 64-bit range.
#[verifier::external_body]
pub(crate) fn fr_from_u64(x: u64) -> (r: threshold_crypto::Fr) {
    threshold_crypto::IntoFr::into_fr(x)
}

/// Relies on `IntoFr` for `u64`, `Field::sub_assign` and `Field::inverse`:
/// the inverse of the field difference `a - b` of two distinct 64-bit
/// points. Distinct `u64` values map to distinct field elements (the
/// modulus exceeds the 64-bit range), so the difference is nonzero and
/// `inverse` cannot return `None`.
#[verifier::external_body]
pub(crate) fn fr_inv_diff(a: u64, b: u64) -> (r: threshold_crypto::Fr)
    requires
        a != b,
{
    let mut diff = threshold_crypto::IntoFr::into_fr(a);
    diff.sub_assign(&threshold_crypto::IntoFr::into_fr(b));
    diff.inverse().expect("distinct points have a nonzero difference")
}

/// Relies on `Clone::clone` for `Fr`, a plain copy: the result equals the
/// argument.
#[verifier::external_body]
pub(crate) fn fr_clone(v: &threshold_crypto::Fr) -> (r: threshold_crypto::Fr)
    ensures
        r == *v,
{
    v.clone()
}

/// Relies on `PrimeField::into_repr` and `PrimeFieldRepr::write_be`: the
/// canonical fixed-length big-endian encoding of the field element, 32
/// bytes. Whatever the element, the encoding is canonical, so it decodes
/// again (its base-point multiple is defined).
#[verifier::external_body]
pub(crate) fn fr_to_bytes(v: &threshold_crypto::Fr) -> (r: Vec<u8>)
    ensures
        r@.len() == 32,
        spec_g1_mul_base(r@) is Some,
{
    let mut out: Vec<u8> = Vec::new();
    v.into_repr().write_be(&mut out).expect("writing to a vector cannot fail");
    out
}

/// Relies on `PrimeFieldRepr::read_be` and `Fr::from_repr`: `None` iff the
/// bytes are not a 32-byte big-endian encoding of a field element below the
/// modulus. The explicit length guard is load-bearing for canonicity:
/// `read_be` alone would accept a longer input and ignore its tail.
#[verifier::external_body]
pub(crate) fn fr_from_bytes(b: &Vec<u8>) -> (r: Option<threshold_crypto::Fr>) {
    if b.len() != 32 {
        return None;
    }
    let mut repr = threshold_crypto::FrRepr::default();
    repr.read_be(&b[..]).ok()?;
    threshold_crypto::Fr::from_repr(repr).ok()
}

/// Relies on `bincode::deserialize::<BivarCommitment>`, `BivarCommitment::row`
/// and `bincode::serialize`: row `x` of the commitment is a function of the
/// commitment bytes and the point alone.
#[verifier::external_body]
pub(crate) fn commit_row_bytes(commit: &Vec<u8>, x: u64) -> (r: Option<Vec<u8>>)
    ensures
        as_opt_bytes(r) == spec_commit_row(commit@, x),
{
    let c: threshold_crypto::poly::BivarCommitment = bincode::deserialize(commit).ok()?;
    bincode::serialize(&c.row(x)).ok()
}

/// Relies on `bincode::deserialize::<Commitment>`, commitment addition and
/// `bincode::serialize`: the homomorphic sum is a function of the two byte
/// strings alone.
#[verifier::external_body]
pub(crate) fn commit_add_bytes(a: &Vec<u8>, b: &Vec<u8>) -> (r: Option<Vec<u8>>)
    ensures
        as_opt_bytes(r) == spec_commit_add(a@, b@),
{
    let ca: threshold_crypto::poly::Commitment = bincode::deserialize(a).ok()?;
    let cb: threshold_crypto::poly::Commitment = bincode::deserialize(b).ok()?;
    bincode::serialize(&(ca + cb)).ok()
}

/// Relies on `bincode::deserialize::<BivarCommitment>` and
/// `BivarCommitment::evaluate`, compressed to canonical point bytes: a
/// function of the commitment bytes and the two points alone.
#[verifier::external_body]
pub(crate) fn commit_evaluate_bytes(commit: &Vec<u8>, x: u64, y: u64) -> (r: Option<Vec<u8>>)
    ensures
        as_opt_bytes(r) == spec_commit_evaluate(commit@, x, y),
{
    let c: threshold_crypto::poly::BivarCommitment = bincode::deserialize(commit).ok()?;
    Some(c.evaluate(x, y).into_affine().into_compressed().as_ref().to_vec())
}

/// Relies on `CurveAffine::mul` at the fixed generator of `G1`, compressed to
/// canonical point bytes: a function of the scalar's canonical encoding
/// alone. `None` iff the bytes are not a canonical encoding; the explicit
/// length guard is load-bearing for canonicity, since `read_be` alone would
/// accept a longer input and ignore its tail.
#[verifier::external_body]
pub(crate) fn g1_mul_base_bytes(v: &Vec<u8>) -> (r: Option<Vec<u8>>)
    ensures
        as_opt_bytes(r) == spec_g1_mul_base(v@),
{
    if v.len() != 32 {
        return None;
    }
    let mut repr = threshold_crypto::FrRepr::default();
    repr.read_be(&v[..]).ok()?;
    let fr = threshold_crypto::Fr::from_repr(repr).ok()?;
    let point = threshold_crypto::G1Affine::one().mul(fr);
    Some(point.into_affine().into_compressed().as_ref().to_vec())
}

// ---------------------------------------------------------------------------
// The zero commitment.
// ---------------------------------------------------------------------------

/// The canonical encoding of the commitment to the zero polynomial. The zero
/// polynomial has no coefficients, and a commitment is encoded as its
/// coefficient sequence behind a fixed eight-byte little-endian count, so the
/// encoding is eight zero bytes.
pub open spec fn zero_commitment_spec() -> Seq<u8> {
    seq![0u8, 0u8, 0u8, 0u8, 0u8, 0u8, 0u8, 0u8]
}

/// The canonical bytes of the commitment to the zero polynomial.
pub(crate) fn zero_commitment_bytes() -> (r: Vec<u8>)
    ensures
        r@ == zero_commitment_spec(),
{
    let mut out: Vec<u8> = Vec::new();
    out.push(0u8);
    out.push(0u8);
    out.push(0u8);
    out.push(0u8);
    out.push(0u8);
    out.push(0u8);
    out.push(0u8);
    out.push(0u8);
    proof {
        assert(out@ =~= zero_commitment_spec());
    }
    out
}

} // verus!
