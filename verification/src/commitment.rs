//! The compression layer: commit, then compress the resulting group
//! element to its affine x-coordinate.
//!
//! `commit` delegates to the Pedersen primitive (a sum of per-bit base
//! points plus a blinding multiple of the blinding base), converts the
//! result to affine form, rejects the point at infinity, validates
//! membership in the prime-order subgroup, and only then releases the
//! x-coordinate.  `spec_commit` is the exact model of this pipeline,
//! including which error every input earns.

use crate::curve::{
    is_in_subgroup, lemma_neg_in_subgroup, lemma_neg_shares_x, lemma_spt_add_valid,
    lemma_ssmul_valid, pt_add, pt_valid, pt_x, scalar_mul, sin_subgroup, spt_add, spt_neg, ssmul,
    Point, SUBGROUP_ORDER,
};
use crate::errors::CommitmentError;
use crate::params::{
    lemma_load_store_roundtrip, spec_load, spec_store, PedersenCommitmentParameters, NUM_BASES,
};
use vstd::prelude::*;

verus! {

/// Maximum message length in bytes: one bit per base point.
pub const MAX_INPUT_BYTES: usize = 8;

/// Bit `i` of the message, taking the least-significant bit of each byte
/// first.
pub open spec fn sbit_set(m: Seq<u8>, i: int) -> bool {
    (m[i / 8] >> ((i % 8) as u8)) & 1 == 1
}

/// The running sum of the base points selected by the first `n` message
/// bits.
pub open spec fn smsg_point(bases: Seq<Point>, m: Seq<u8>, n: nat) -> Point
    decreases n,
{
    if n == 0 {
        Point::Infinity
    } else {
        let prev = smsg_point(bases, m, (n - 1) as nat);
        if sbit_set(m, n - 1) {
            spt_add(prev, bases[n - 1])
        } else {
            prev
        }
    }
}

/// The uncompressed commitment: the message sum plus the blinding multiple
/// of the blinding base.
pub open spec fn scommit_point(bases: Seq<Point>, rb: Point, m: Seq<u8>, r: u64) -> Point {
    spt_add(smsg_point(bases, m, (8 * m.len()) as nat), ssmul(r as nat, rb))
}

/// The exact outcome of a commit call: which inputs succeed, which error
/// every failing input earns, and the value returned on success.
pub open spec fn spec_commit(bases: Seq<Point>, rb: Point, m: Seq<u8>, r: u64) -> Result<
    u64,
    CommitmentError,
> {
    if m.len() > MAX_INPUT_BYTES {
        Err(CommitmentError::InputTooLarge)
    } else if r >= SUBGROUP_ORDER {
        Err(CommitmentError::InvalidRandomness)
    } else {
        let c = scommit_point(bases, rb, m, r);
        if c is Infinity {
            Err(CommitmentError::DegenerateCommitment)
        } else if !sin_subgroup(c) {
            Err(CommitmentError::SubgroupViolation)
        } else {
            Ok(pt_x(c))
        }
    }
}

/// Relies on rand::random::<u64>: draws one word from the thread-local
/// cryptographically secure generator.  Nothing can be promised of the
/// value drawn.
#[verifier::external_body]
fn random_u64() -> u64 {
    rand::random::<u64>()
}

/// The compressed Pedersen commitment scheme: wraps the primitive's
/// parameters and reports only validated x-coordinates.
pub struct PedersenCompressedCommitment {
    /// The public parameters of the underlying Pedersen primitive.
    pub parameters: PedersenCommitmentParameters,
}

impl PedersenCompressedCommitment {
    /// The wrapped parameters are well-formed.
    pub open spec fn wf(self) -> bool {
        self.parameters.wf()
    }

    /// Generate fresh parameters from the process entropy source.
    pub fn setup() -> (r: Self)
        ensures
            r.wf(),
            r.parameters.points_checked(),
    {
        let mut scalars: Vec<u64> = Vec::new();
        let mut i: usize = 0;
        while i < NUM_BASES + 1
            invariant
                scalars@.len() == i,
                i <= NUM_BASES + 1,
            decreases NUM_BASES + 1 - i,
        {
            scalars.push(random_u64());
            i = i + 1;
        }
        PedersenCompressedCommitment {
            parameters: PedersenCommitmentParameters::setup_with_scalars(&scalars),
        }
    }

    /// Commit to `input` under blinding scalar `randomness` and return the
    /// affine x-coordinate of the commitment point.
    ///
    /// A point and its negation share an x-coordinate, so this output binds
    /// the pair (message, randomness) only up to the sign of y.  This layer
    /// deliberately does not canonicalize the sign; callers compare
    /// commitments by x-coordinate alone and must treat the one-bit
    /// ambiguity as part of the scheme.
    pub fn commit(&self, input: &[u8], randomness: u64) -> (r: Result<u64, CommitmentError>)
        requires
            self.wf(),
        ensures
            r == spec_commit(self.parameters.bases@, self.parameters.random_base, input@, randomness),
    {
        let len = input.len();
        if len > MAX_INPUT_BYTES {
            return Err(CommitmentError::InputTooLarge);
        }
        if randomness >= SUBGROUP_ORDER {
            return Err(CommitmentError::InvalidRandomness);
        }
        let nbits = 8 * len;
        let mut acc = Point::Infinity;
        let mut i: usize = 0;
        while i < nbits
            invariant
                self.wf(),
                input@.len() == len,
                len <= MAX_INPUT_BYTES,
                nbits == 8 * len,
                i <= nbits,
                pt_valid(acc),
                acc == smsg_point(self.parameters.bases@, input@, i as nat),
            decreases nbits - i,
        {
            let byte = input[i / 8];
            let bit = (byte >> ((i % 8) as u8)) & 1;
            if bit == 1 {
                proof {
                    assert(sbit_set(input@, i as int));
                }
                acc = pt_add(acc, self.parameters.bases[i]);
            } else {
                proof {
                    assert(!sbit_set(input@, i as int));
                }
            }
            i = i + 1;
        }
        let blind = scalar_mul(randomness, self.parameters.random_base);
        let total = pt_add(acc, blind);
        match total {
            Point::Infinity => Err(CommitmentError::DegenerateCommitment),
            Point::Affine { x, y: _ } => {
                if is_in_subgroup(total) {
                    Ok(x)
                } else {
                    Err(CommitmentError::SubgroupViolation)
                }
            },
        }
    }

    /// The wrapped primitive parameters.
    pub fn parameters(&self) -> (r: &PedersenCommitmentParameters)
        ensures
            r == &self.parameters,
    {
        &self.parameters
    }

    /// Serialize the wrapped parameters.
    pub fn store(&self) -> (r: Vec<u8>)
        requires
            self.wf(),
        ensures
            r@ == spec_store(self.parameters),
    {
        self.parameters.store()
    }

    /// Deserialize and re-validate parameters, re-wrapping them on success.
    pub fn load(bytes: &Vec<u8>) -> (r: Result<Self, CommitmentError>)
        ensures
            match r {
                Ok(q) => q.wf() && q.parameters.points_checked() && spec_load(bytes@) == Ok::<
                    _,
                    CommitmentError,
                >((q.parameters.bases@, q.parameters.random_base)),
                Err(e) => spec_load(bytes@) == Err::<(Seq<Point>, Point), _>(e),
            },
    {
        match PedersenCommitmentParameters::load(bytes) {
            Ok(p) => Ok(PedersenCompressedCommitment { parameters: p }),
            Err(e) => Err(e),
        }
    }
}

/// The partial message sums of valid bases are valid points.
pub proof fn lemma_smsg_valid(bases: Seq<Point>, m: Seq<u8>, n: nat)
    requires
        forall|i: int| 0 <= i < bases.len() ==> pt_valid(#[trigger] bases[i]),
        n <= bases.len(),
    ensures
        pt_valid(smsg_point(bases, m, n)),
    decreases n,
{
    if n > 0 {
        lemma_smsg_valid(bases, m, (n - 1) as nat);
        if sbit_set(m, n - 1) {
            lemma_spt_add_valid(smsg_point(bases, m, (n - 1) as nat), bases[n - 1]);
        }
    }
}

/// Determinism: the commitment outcome is a function of the parameters'
/// points, the message and the randomness alone, so two parameter sets
/// holding the same points commit identically.
pub proof fn lemma_commit_deterministic(
    p1: PedersenCommitmentParameters,
    p2: PedersenCommitmentParameters,
    m: Seq<u8>,
    r: u64,
)
    requires
        p1.bases@ == p2.bases@,
        p1.random_base == p2.random_base,
    ensures
        spec_commit(p1.bases@, p1.random_base, m, r) == spec_commit(
            p2.bases@,
            p2.random_base,
            m,
            r,
        ),
{
}

/// Round-trip: storing then loading gives back exactly the stored points,
/// and parameters loaded from a stored form commit identically to the
/// originals, for every message and randomness.
pub proof fn lemma_roundtrip_preserves_commit(
    pp: PedersenCommitmentParameters,
    m: Seq<u8>,
    r: u64,
)
    requires
        pp.wf(),
        pp.points_checked(),
    ensures
        spec_load(spec_store(pp)) == Ok::<_, CommitmentError>((pp.bases@, pp.random_base)),
        ({
            let loaded = spec_load(spec_store(pp));
            loaded matches Ok(q) && spec_commit(q.0, q.1, m, r) == spec_commit(
                pp.bases@,
                pp.random_base,
                m,
                r,
            )
        }),
{
    lemma_load_store_roundtrip(pp);
}

/// Subgroup validity: every successful commitment output is the
/// x-coordinate of a point in the prime-order subgroup, and the point
/// reconstructed from that x-coordinate with either sign of y — the
/// commitment point or its negation — lies in the subgroup as well.
pub proof fn lemma_commit_output_subgroup(bases: Seq<Point>, rb: Point, m: Seq<u8>, r: u64)
    requires
        forall|i: int| 0 <= i < bases.len() ==> pt_valid(#[trigger] bases[i]),
        pt_valid(rb),
        bases.len() == NUM_BASES,
        spec_commit(bases, rb, m, r) is Ok,
    ensures
        ({
            let c = scommit_point(bases, rb, m, r);
            &&& spec_commit(bases, rb, m, r) == Ok::<u64, CommitmentError>(pt_x(c))
            &&& !(c is Infinity)
            &&& sin_subgroup(c)
            &&& sin_subgroup(spt_neg(c))
            &&& pt_x(spt_neg(c)) == pt_x(c)
        }),
{
    let c = scommit_point(bases, rb, m, r);
    lemma_smsg_valid(bases, m, (8 * m.len()) as nat);
    lemma_ssmul_valid(r as nat, rb);
    lemma_spt_add_valid(smsg_point(bases, m, (8 * m.len()) as nat), ssmul(r as nat, rb));
    lemma_neg_in_subgroup(c);
    lemma_neg_shares_x(c);
}

} // verus!
