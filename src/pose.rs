//! Pairs the bones of two skeletal poses for blending, and orients each pair along the
//! shorter rotation path.
use vstd::prelude::*;
use crate::float_bits::{is_nan_bits, less_than, neg_bits, negate, rank, SIGN_BIT};

verus! {

/// A bone of a pose; every float is held as its bit pattern.
#[derive(Debug, Clone, Copy, PartialEq)]
pub enum Bone {
    /// A dual quaternion: four rotation components, then four dual components.
    DualQuat([u32; 8]),
    /// A 4x4 transform matrix.
    Matrix([u32; 16]),
}

/// Why two poses cannot be blended.
#[derive(Debug, Clone, Copy, PartialEq, Eq)]
pub enum BlendError {
    /// The poses list different joints at the same position.
    JointMismatch { position: usize, start_joint: u8, end_joint: u8 },
    /// Only dual quaternions can be blended; this joint has a matrix in one pose.
    UnsupportedBone { joint: u8 },
    /// The poses have different numbers of joints.
    JointCountMismatch { start_count: usize, end_count: usize },
}

/// The two dual quaternions of one joint, to be blended.
#[derive(Debug, Clone, Copy, PartialEq)]
pub struct BonePair {
    pub joint: u8,
    pub start: [u32; 8],
    pub end: [u32; 8],
}

/// Whether the bones at one position of two poses can be blended.
pub open spec fn blendable(s: (u8, Bone), e: (u8, Bone)) -> bool {
    s.0 == e.0 && s.1 is DualQuat && e.1 is DualQuat
}

/// The error for a position whose bones cannot be blended.
pub open spec fn blend_error(position: int, s: (u8, Bone), e: (u8, Bone)) -> BlendError {
    if s.0 != e.0 {
        BlendError::JointMismatch { position: position as usize, start_joint: s.0, end_joint: e.0 }
    } else {
        BlendError::UnsupportedBone { joint: s.0 }
    }
}

/// Pairs the bones of two poses position by position, each pose listed in its joint
/// order. Both poses must list the same joints in the same order.
///
/// Fails when the poses have different numbers of joints (`JointCountMismatch`); else
/// at the first position where the joints differ (`JointMismatch`) or where either bone
/// is a matrix (`UnsupportedBone`).
pub fn pair_bones(start: &Vec<(u8, Bone)>, end: &Vec<(u8, Bone)>) -> (r: Result<Vec<BonePair>, BlendError>)
    ensures
        start@.len() != end@.len() ==> r == Err::<Vec<BonePair>, BlendError>(
            BlendError::JointCountMismatch {
                start_count: start@.len() as usize,
                end_count: end@.len() as usize,
            },
        ),
        start@.len() == end@.len() ==> ({
            let n = start@.len() as int;
            match r {
                Ok(pairs) => {
                    &&& forall|i: int| 0 <= i < n ==> blendable(#[trigger] start@[i], end@[i])
                    &&& pairs@.len() == n
                    &&& forall|i: int|
                        0 <= i < n ==> #[trigger] pairs@[i] == (BonePair {
                            joint: start@[i].0,
                            start: start@[i].1->DualQuat_0,
                            end: end@[i].1->DualQuat_0,
                        })
                },
                Err(e) => exists|i: int|
                    0 <= i < n && !blendable(#[trigger] start@[i], end@[i]) && (forall|j: int|
                        0 <= j < i ==> blendable(#[trigger] start@[j], end@[j])) && e == blend_error(
                        i,
                        start@[i],
                        end@[i],
                    ),
            }
        }),
{
    let n = start.len();
    if n != end.len() {
        return Err(BlendError::JointCountMismatch { start_count: n, end_count: end.len() });
    }
    let mut pairs: Vec<BonePair> = Vec::new();
    let mut i: usize = 0;
    while i < n
        invariant
            i <= n == start@.len() == end@.len(),
            pairs@.len() == i,
            forall|j: int| 0 <= j < i ==> blendable(#[trigger] start@[j], end@[j]),
            forall|j: int|
                0 <= j < i ==> #[trigger] pairs@[j] == (BonePair {
                    joint: start@[j].0,
                    start: start@[j].1->DualQuat_0,
                    end: end@[j].1->DualQuat_0,
                }),
        decreases n - i,
    {
        let (start_joint, start_bone) = start[i];
        let (end_joint, end_bone) = end[i];
        if start_joint != end_joint {
            let e = BlendError::JointMismatch { position: i, start_joint, end_joint };
            assert(!blendable(start@[i as int], end@[i as int]));
            return Err(e);
        }
        match (start_bone, end_bone) {
            (Bone::DualQuat(s), Bone::DualQuat(e)) => {
                pairs.push(BonePair { joint: start_joint, start: s, end: e });
            },
            _ => {
                assert(!blendable(start@[i as int], end@[i as int]));
                return Err(BlendError::UnsupportedBone { joint: start_joint });
            },
        }
        i += 1;
    }
    Ok(pairs)
}

/// Whether a float, given by its bit pattern, compares below zero (`x < 0.0`): false for
/// both zeros and for NaN.
pub open spec fn below_zero(b: u32) -> bool {
    !is_nan_bits(b) && rank(b) < 0
}

/// The end dual quaternion to blend towards, given the bit pattern of the dot product
/// of the two rotation parts: negated in all eight components when the dot product is
/// below zero, so that the blend takes the shorter rotation path; else as it is.
pub fn shortest_path_end(end: [u32; 8], dot: u32) -> (r: [u32; 8])
    ensures
        below_zero(dot) ==> r@ == end@.map_values(|b: u32| neg_bits(b)),
        !below_zero(dot) ==> r@ == end@,
{
    let magnitude = if dot < SIGN_BIT {
        dot
    } else {
        dot - SIGN_BIT
    };
    let negative = magnitude <= 0x7f80_0000 && less_than(dot, 0);
    if !negative {
        return end;
    }
    let mut r = end;
    let mut k: usize = 0;
    while k < 8
        invariant
            k <= 8,
            r@.len() == 8,
            end@.len() == 8,
            forall|j: int| 0 <= j < k ==> r@[j] == neg_bits(end@[j]),
            forall|j: int| k <= j < 8 ==> r@[j] == end@[j],
        decreases 8 - k,
    {
        let x = negate(r[k]);
        r[k] = x;
        k += 1;
    }
    assert(r@ =~= end@.map_values(|b: u32| neg_bits(b)));
    r
}

} // verus!
