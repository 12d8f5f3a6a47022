//! Public parameters of the Pedersen commitment primitive: a fixed, ordered
//! collection of base points partitioned into windows, plus one blinding
//! base, together with their byte serialization.
//!
//! The serialized form is a fixed-width record: five bytes per point (a tag
//! byte distinguishing the point at infinity, then each coordinate in
//! little-endian order), bases first, the blinding base last.  `spec_store`
//! and `spec_load` are the mathematical model of the wire format; storing
//! then loading is proved to give back exactly the stored parameters.

use crate::curve::{
    is_in_subgroup, is_on_curve, pt_valid, scalar_mul, sin_subgroup, spec_generator, spt_on_curve,
    ssmul, subgroup_generator, Point, SUBGROUP_ORDER,
};
use crate::errors::CommitmentError;
use crate::field::FIELD_MODULUS;
use vstd::prelude::*;

verus! {

/// Number of message windows.
pub const NUM_WINDOWS: usize = 8;

/// Number of message bits (and so of base points) per window.
pub const WINDOW_SIZE: usize = 8;

/// Total number of message base points.
pub const NUM_BASES: usize = 64;

/// Bytes in the serialized form of one point.
pub const POINT_BYTE_LEN: usize = 5;

/// Bytes in the serialized form of the whole parameter set.
pub const PARAMS_BYTE_LEN: usize = 325;

/// The public description of the commitment function: one base point per
/// message bit, grouped by window, and one blinding base.  Immutable after
/// generation.
#[derive(Clone, Debug)]
pub struct PedersenCommitmentParameters {
    /// Message base points; bit `i` of window `w` uses entry
    /// `w * WINDOW_SIZE + i`.
    pub bases: Vec<Point>,
    /// The base point multiplied by the blinding scalar.
    pub random_base: Point,
}

impl PedersenCommitmentParameters {
    /// Structural well-formedness: the right number of bases, all with
    /// reduced coordinates.
    pub open spec fn wf(self) -> bool {
        &&& self.bases@.len() == NUM_BASES
        &&& forall|i: int| 0 <= i < self.bases@.len() ==> pt_valid(#[trigger] self.bases@[i])
        &&& pt_valid(self.random_base)
    }

    /// Every point passed the curve-membership and subgroup checks.
    pub open spec fn points_checked(self) -> bool {
        spec_checks_ok(self.bases@, self.random_base)
    }
}

/// All candidate points satisfy the curve equation and lie in the
/// prime-order subgroup.
pub open spec fn spec_checks_ok(bs: Seq<Point>, rb: Point) -> bool {
    &&& forall|i: int|
        0 <= i < bs.len() ==> spt_on_curve(#[trigger] bs[i]) && sin_subgroup(bs[i])
    &&& spt_on_curve(rb)
    &&& sin_subgroup(rb)
}

/// The base point derived from one setup scalar: the scalar (reduced modulo
/// the subgroup order) times the subgroup generator, kept only if it passes
/// the curve and subgroup checks, and otherwise replaced by the identity.
pub open spec fn base_from_scalar(s: u64) -> Point {
    let c = ssmul((s % SUBGROUP_ORDER) as nat, spec_generator());
    if pt_valid(c) && spt_on_curve(c) && sin_subgroup(c) {
        c
    } else {
        Point::Infinity
    }
}

/// Executable derivation of one base point from a setup scalar.
pub fn make_base(s: u64) -> (r: Point)
    ensures
        r == base_from_scalar(s),
        pt_valid(r),
        spt_on_curve(r),
        sin_subgroup(r),
{
    let g = subgroup_generator();
    let c = scalar_mul(s % SUBGROUP_ORDER, g);
    if is_on_curve(c) && is_in_subgroup(c) {
        c
    } else {
        proof {
            crate::curve::lemma_ssmul_infinity(SUBGROUP_ORDER as nat);
        }
        Point::Infinity
    }
}

impl PedersenCommitmentParameters {
    /// Generate parameters from one scalar per base point (the last scalar
    /// yields the blinding base).  This is the deterministic core of setup;
    /// entropy is supplied by the caller.
    pub fn setup_with_scalars(scalars: &Vec<u64>) -> (r: Self)
        requires
            scalars@.len() == NUM_BASES + 1,
        ensures
            r.wf(),
            r.points_checked(),
            forall|i: int|
                0 <= i < NUM_BASES ==> r.bases@[i] == base_from_scalar(#[trigger] scalars@[i]),
            r.random_base == base_from_scalar(scalars@[NUM_BASES as int]),
    {
        let mut bases: Vec<Point> = Vec::new();
        let mut i: usize = 0;
        while i < NUM_BASES
            invariant
                scalars@.len() == NUM_BASES + 1,
                i <= NUM_BASES,
                bases@.len() == i,
                forall|j: int|
                    0 <= j < i ==> bases@[j] == base_from_scalar(#[trigger] scalars@[j]),
                forall|j: int|
                    0 <= j < i ==> pt_valid(#[trigger] bases@[j]) && spt_on_curve(bases@[j])
                        && sin_subgroup(bases@[j]),
            decreases NUM_BASES - i,
        {
            let b = make_base(scalars[i]);
            bases.push(b);
            i = i + 1;
        }
        let random_base = make_base(scalars[NUM_BASES]);
        PedersenCommitmentParameters { bases, random_base }
    }
}

/// The five-byte serialized form of one point: a tag byte, then each
/// coordinate in little-endian order.
pub open spec fn spec_encode_point(p: Point) -> Seq<u8> {
    match p {
        Point::Infinity => seq![0u8, 0u8, 0u8, 0u8, 0u8],
        Point::Affine { x, y } => seq![
            1u8,
            (x % 256) as u8,
            ((x / 256) % 256) as u8,
            (y % 256) as u8,
            ((y / 256) % 256) as u8,
        ],
    }
}

/// Parse one five-byte block back into a point; `None` on a bad tag, a
/// non-canonical identity encoding, or an unreduced coordinate.
pub open spec fn spec_decode_point(b: Seq<u8>) -> Option<Point> {
    if b.len() != POINT_BYTE_LEN {
        None
    } else if b[0] == 0 {
        if b[1] == 0 && b[2] == 0 && b[3] == 0 && b[4] == 0 {
            Some(Point::Infinity)
        } else {
            None
        }
    } else if b[0] == 1 {
        let x = b[1] + 256 * b[2];
        let y = b[3] + 256 * b[4];
        if x < FIELD_MODULUS && y < FIELD_MODULUS {
            Some(Point::Affine { x: x as u64, y: y as u64 })
        } else {
            None
        }
    } else {
        None
    }
}

/// The concatenated encodings of a sequence of points.
pub open spec fn spec_encode_bases(bs: Seq<Point>) -> Seq<u8>
    decreases bs.len(),
{
    if bs.len() == 0 {
        Seq::empty()
    } else {
        spec_encode_point(bs[0]) + spec_encode_bases(bs.skip(1))
    }
}

/// The serialized form of a whole parameter set: all bases, then the
/// blinding base.
pub open spec fn spec_store(pp: PedersenCommitmentParameters) -> Seq<u8> {
    spec_encode_bases(pp.bases@) + spec_encode_point(pp.random_base)
}

/// Parse `n` consecutive point encodings, requiring the input to be
/// consumed exactly.
pub open spec fn spec_decode_bases(b: Seq<u8>, n: nat) -> Option<Seq<Point>>
    decreases n,
{
    if n == 0 {
        if b.len() == 0 {
            Some(Seq::empty())
        } else {
            None
        }
    } else if b.len() < POINT_BYTE_LEN {
        None
    } else {
        match spec_decode_point(b.take(POINT_BYTE_LEN as int)) {
            None => None,
            Some(p) => match spec_decode_bases(b.skip(POINT_BYTE_LEN as int), (n - 1) as nat) {
                None => None,
                Some(rest) => Some(seq![p] + rest),
            },
        }
    }
}

/// The outcome of loading serialized parameters: the parsed points, or the
/// error that the byte string deserves.  Parse failures are persistence
/// errors; a parsed point that fails the curve or subgroup check is a
/// subgroup violation.
pub open spec fn spec_load(b: Seq<u8>) -> Result<(Seq<Point>, Point), CommitmentError> {
    if b.len() != PARAMS_BYTE_LEN {
        Err(CommitmentError::PersistenceError)
    } else {
        match spec_decode_bases(b.take(320), NUM_BASES as nat) {
            None => Err(CommitmentError::PersistenceError),
            Some(bs) => match spec_decode_point(b.skip(320)) {
                None => Err(CommitmentError::PersistenceError),
                Some(rb) => if spec_checks_ok(bs, rb) {
                    Ok((bs, rb))
                } else {
                    Err(CommitmentError::SubgroupViolation)
                },
            },
        }
    }
}

/// Prefix a decoded tail with already-decoded points, propagating failure.
pub open spec fn opt_concat(pre: Seq<Point>, rest: Option<Seq<Point>>) -> Option<Seq<Point>> {
    match rest {
        None => None,
        Some(s) => Some(pre + s),
    }
}

/// Append one point's encoding to a byte buffer.
fn encode_point_into(out: &mut Vec<u8>, p: Point)
    requires
        pt_valid(p),
    ensures
        final(out)@ == old(out)@ + spec_encode_point(p),
{
    match p {
        Point::Infinity => {
            out.push(0);
            out.push(0);
            out.push(0);
            out.push(0);
            out.push(0);
            proof {
                assert(out@ =~= old(out)@ + spec_encode_point(p));
            }
        },
        Point::Affine { x, y } => {
            out.push(1);
            out.push((x % 256) as u8);
            out.push(((x / 256) % 256) as u8);
            out.push((y % 256) as u8);
            out.push(((y / 256) % 256) as u8);
            proof {
                assert(out@ =~= old(out)@ + spec_encode_point(p));
            }
        },
    }
}

/// Read one point encoding at a byte offset.
fn decode_point_at(b: &Vec<u8>, off: usize) -> (r: Option<Point>)
    requires
        off + POINT_BYTE_LEN <= b@.len(),
    ensures
        r == spec_decode_point(b@.subrange(off as int, off as int + POINT_BYTE_LEN as int)),
        r matches Some(p) ==> pt_valid(p),
{
    let n = b.len();
    let t = b[off];
    let x0 = b[off + 1];
    let x1 = b[off + 2];
    let y0 = b[off + 3];
    let y1 = b[off + 4];
    proof {
        let s = b@.subrange(off as int, off as int + POINT_BYTE_LEN as int);
        assert(s.len() == 5);
        assert(s[0] == b@[off as int]);
        assert(s[1] == b@[off as int + 1]);
        assert(s[2] == b@[off as int + 2]);
        assert(s[3] == b@[off as int + 3]);
        assert(s[4] == b@[off as int + 4]);
    }
    if t == 0 {
        if x0 == 0 && x1 == 0 && y0 == 0 && y1 == 0 {
            Some(Point::Infinity)
        } else {
            None
        }
    } else if t == 1 {
        let x = x0 as u64 + 256 * (x1 as u64);
        let y = y0 as u64 + 256 * (y1 as u64);
        if x < FIELD_MODULUS && y < FIELD_MODULUS {
            Some(Point::Affine { x, y })
        } else {
            None
        }
    } else {
        None
    }
}

impl PedersenCommitmentParameters {
    /// Serialize the parameters to their byte form.
    pub fn store(&self) -> (r: Vec<u8>)
        requires
            self.wf(),
        ensures
            r@ == spec_store(*self),
            r@.len() == PARAMS_BYTE_LEN,
    {
        let mut out: Vec<u8> = Vec::new();
        let mut i: usize = 0;
        proof {
            assert(self.bases@.take(0) =~= Seq::<Point>::empty());
        }
        while i < NUM_BASES
            invariant
                self.wf(),
                i <= NUM_BASES,
                out@ == spec_encode_bases(self.bases@.take(i as int)),
            decreases NUM_BASES - i,
        {
            encode_point_into(&mut out, self.bases[i]);
            proof {
                assert(self.bases@.take(i as int + 1) =~= self.bases@.take(i as int).push(
                    self.bases@[i as int],
                ));
                lemma_encode_bases_push(self.bases@.take(i as int), self.bases@[i as int]);
            }
            i = i + 1;
        }
        proof {
            assert(self.bases@.take(NUM_BASES as int) =~= self.bases@);
        }
        encode_point_into(&mut out, self.random_base);
        proof {
            lemma_encode_bases_len(self.bases@);
        }
        out
    }

    /// Deserialize parameters from their byte form, re-validating every
    /// point against the curve equation and the prime-order subgroup before
    /// accepting them.
    pub fn load(bytes: &Vec<u8>) -> (r: Result<Self, CommitmentError>)
        ensures
            match r {
                Ok(q) => q.wf() && q.points_checked() && spec_load(bytes@) == Ok::<
                    _,
                    CommitmentError,
                >((q.bases@, q.random_base)),
                Err(e) => spec_load(bytes@) == Err::<(Seq<Point>, Point), _>(e),
            },
    {
        if bytes.len() != PARAMS_BYTE_LEN {
            return Err(CommitmentError::PersistenceError);
        }
        let mut bs: Vec<Point> = Vec::new();
        let mut i: usize = 0;
        proof {
            assert(bytes@.take(320).skip(0) =~= bytes@.take(320));
        }
        while i < NUM_BASES
            invariant
                bytes@.len() == PARAMS_BYTE_LEN,
                i <= NUM_BASES,
                bs@.len() == i,
                forall|j: int| 0 <= j < i ==> pt_valid(#[trigger] bs@[j]),
                opt_concat(
                    bs@,
                    spec_decode_bases(bytes@.take(320).skip(5 * i as int), (NUM_BASES - i) as nat),
                ) == spec_decode_bases(bytes@.take(320), NUM_BASES as nat),
            decreases NUM_BASES - i,
        {
            proof {
                let rem = bytes@.take(320).skip(5 * i as int);
                assert(rem.len() == 320 - 5 * i);
                assert(rem.take(POINT_BYTE_LEN as int) =~= bytes@.subrange(
                    5 * i as int,
                    5 * i as int + POINT_BYTE_LEN as int,
                ));
            }
            let p_opt = decode_point_at(bytes, 5 * i);
            match p_opt {
                None => {
                    return Err(CommitmentError::PersistenceError);
                },
                Some(p) => {
                    proof {
                        let rem = bytes@.take(320).skip(5 * i as int);
                        assert(rem.skip(POINT_BYTE_LEN as int) =~= bytes@.take(320).skip(
                            5 * (i as int + 1),
                        ));
                        match spec_decode_bases(
                            rem.skip(POINT_BYTE_LEN as int),
                            (NUM_BASES - i - 1) as nat,
                        ) {
                            None => {},
                            Some(rest) => {
                                assert(bs@ + (seq![p] + rest) =~= bs@.push(p) + rest);
                            },
                        }
                    }
                    bs.push(p);
                },
            }
            i = i + 1;
        }
        proof {
            assert(bytes@.take(320).skip(320) =~= Seq::<u8>::empty());
            assert(bs@ + Seq::<Point>::empty() =~= bs@);
            assert(spec_decode_bases(bytes@.take(320), NUM_BASES as nat) == Some(bs@));
            assert(bytes@.subrange(320, 325) =~= bytes@.skip(320));
        }
        let rb_opt = decode_point_at(bytes, 320);
        let random_base = match rb_opt {
            None => {
                return Err(CommitmentError::PersistenceError);
            },
            Some(rb) => rb,
        };
        let mut k: usize = 0;
        while k < NUM_BASES
            invariant
                bytes@.len() == PARAMS_BYTE_LEN,
                spec_decode_bases(bytes@.take(320), NUM_BASES as nat) == Some(bs@),
                spec_decode_point(bytes@.skip(320)) == Some(random_base),
                bs@.len() == NUM_BASES,
                k <= NUM_BASES,
                forall|j: int| 0 <= j < bs@.len() ==> pt_valid(#[trigger] bs@[j]),
                pt_valid(random_base),
                forall|j: int|
                    0 <= j < k ==> spt_on_curve(#[trigger] bs@[j]) && sin_subgroup(bs@[j]),
            decreases NUM_BASES - k,
        {
            let good = {
                let oc = is_on_curve(bs[k]);
                let sg = is_in_subgroup(bs[k]);
                oc && sg
            };
            if !good {
                return Err(CommitmentError::SubgroupViolation);
            }
            k = k + 1;
        }
        let rb_on_curve = is_on_curve(random_base);
        let rb_in_subgroup = is_in_subgroup(random_base);
        if !(rb_on_curve && rb_in_subgroup) {
            return Err(CommitmentError::SubgroupViolation);
        }
        Ok(PedersenCommitmentParameters { bases: bs, random_base })
    }
}

/// Appending a point extends the encoding at the back.
proof fn lemma_encode_bases_push(bs: Seq<Point>, p: Point)
    ensures
        spec_encode_bases(bs.push(p)) == spec_encode_bases(bs) + spec_encode_point(p),
    decreases bs.len(),
{
    if bs.len() == 0 {
        assert(bs.push(p)[0] == p);
        assert(bs.push(p).skip(1) =~= Seq::<Point>::empty());
        assert(spec_encode_bases(Seq::<Point>::empty()) == Seq::<u8>::empty());
        assert(spec_encode_bases(bs.push(p)) == spec_encode_point(p) + Seq::<u8>::empty());
        assert(spec_encode_point(p) + Seq::<u8>::empty() =~= spec_encode_point(p));
        assert(spec_encode_bases(bs) + spec_encode_point(p) =~= spec_encode_point(p));
    } else {
        assert(bs.push(p)[0] == bs[0]);
        assert(bs.push(p).skip(1) =~= bs.skip(1).push(p));
        lemma_encode_bases_push(bs.skip(1), p);
        assert(spec_encode_point(bs[0]) + (spec_encode_bases(bs.skip(1)) + spec_encode_point(p))
            =~= (spec_encode_point(bs[0]) + spec_encode_bases(bs.skip(1))) + spec_encode_point(p));
    }
}

/// The encoding of `n` points takes `5 * n` bytes.
proof fn lemma_encode_bases_len(bs: Seq<Point>)
    ensures
        spec_encode_bases(bs).len() == 5 * bs.len(),
    decreases bs.len(),
{
    if bs.len() > 0 {
        lemma_encode_bases_len(bs.skip(1));
    }
}

/// Decoding undoes encoding on one reduced point.
proof fn lemma_decode_encode_point(p: Point)
    requires
        pt_valid(p),
    ensures
        spec_decode_point(spec_encode_point(p)) == Some(p),
{
    match p {
        Point::Infinity => {},
        Point::Affine { x, y } => {
            assert(x == 256 * (x / 256) + x % 256) by (nonlinear_arith);
            assert(y == 256 * (y / 256) + y % 256) by (nonlinear_arith);
            assert(x / 256 < 256 && (x / 256) % 256 == x / 256) by (nonlinear_arith)
                requires x < 65536;
            assert(y / 256 < 256 && (y / 256) % 256 == y / 256) by (nonlinear_arith)
                requires y < 65536;
        },
    }
}

/// Decoding undoes encoding on a sequence of reduced points.
proof fn lemma_decode_encode_bases(bs: Seq<Point>)
    requires
        forall|i: int| 0 <= i < bs.len() ==> pt_valid(#[trigger] bs[i]),
    ensures
        spec_decode_bases(spec_encode_bases(bs), bs.len()) == Some(bs),
    decreases bs.len(),
{
    lemma_encode_bases_len(bs);
    if bs.len() == 0 {
        assert(spec_encode_bases(bs).len() == 0);
        assert(Some(bs) =~= Some(Seq::<Point>::empty()));
        assert(bs =~= Seq::<Point>::empty());
    } else {
        let e = spec_encode_bases(bs);
        let e0 = spec_encode_point(bs[0]);
        let erest = spec_encode_bases(bs.skip(1));
        lemma_encode_bases_len(bs.skip(1));
        assert(e.take(POINT_BYTE_LEN as int) =~= e0);
        lemma_decode_encode_point(bs[0]);
        assert(e.skip(POINT_BYTE_LEN as int) =~= erest);
        lemma_decode_encode_bases(bs.skip(1));
        assert(seq![bs[0]] + bs.skip(1) =~= bs);
    }
}

/// Loading undoes storing: the round-trip contract of the wire format.
pub proof fn lemma_load_store_roundtrip(pp: PedersenCommitmentParameters)
    requires
        pp.wf(),
        pp.points_checked(),
    ensures
        spec_load(spec_store(pp)) == Ok::<_, CommitmentError>((pp.bases@, pp.random_base)),
{
    let b = spec_store(pp);
    lemma_encode_bases_len(pp.bases@);
    assert(b.len() == PARAMS_BYTE_LEN);
    assert(b.take(320) =~= spec_encode_bases(pp.bases@));
    assert(b.skip(320) =~= spec_encode_point(pp.random_base));
    lemma_decode_encode_bases(pp.bases@);
    lemma_decode_encode_point(pp.random_base);
}

} // verus!
