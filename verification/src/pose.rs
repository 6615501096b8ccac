//! Decoded pose data: what one datagram says about every tracked person.

use vstd::prelude::*;
use crate::fixed::{from_double_bits, spec_from_double_bits};

verus! {

/// Fewest keypoints a person must carry for the pose to be usable.
pub const MIN_KEYPOINTS: usize = 17;

/// A 2-D point in normalized coordinates.
///
/// Both components are fixed-point numbers with
/// [`FRACTION_BITS`](crate::fixed::FRACTION_BITS) fractional bits; the
/// picture conventionally spans 0 to [`ONE`](crate::fixed::ONE) on both axes,
/// with `y` growing downward.
#[derive(Clone, Copy, Debug, PartialEq, Eq, Structural)]
pub struct Point {
    pub x: i32,
    pub y: i32,
}

impl Point {
    /// The point whose components are the binary64 numbers with the given
    /// bits, each read onto the fixed-point grid; none where a component is
    /// an infinity or a NaN.
    pub open spec fn spec_from_double_bits(x_bits: u64, y_bits: u64) -> Option<Point> {
        match (spec_from_double_bits(x_bits), spec_from_double_bits(y_bits)) {
            (Some(x), Some(y)) => Some(Point { x, y }),
            _ => None,
        }
    }

    /// Reads a point that came as two binary64 numbers. A point with a
    /// component that is no number is no point: the landmark counts as not
    /// detected.
    pub fn from_double_bits(x_bits: u64, y_bits: u64) -> (point: Option<Point>)
        ensures
            point == Point::spec_from_double_bits(x_bits, y_bits),
    {
        match (from_double_bits(x_bits), from_double_bits(y_bits)) {
            (Some(x), Some(y)) => Some(Point { x, y }),
            _ => None,
        }
    }
}

/// The pose of one person in one frame.
///
/// `keypoints[i]` is `None` where landmark `i` was not detected. An undetected
/// landmark and a landmark at the origin are different things.
#[derive(Clone, Debug, PartialEq, Eq)]
pub struct PersonData {
    pub keypoints: Vec<Option<Point>>,
    pub right_hand_closed: Option<bool>,
    pub left_hand_closed: Option<bool>,
}

/// The keypoint that arrived as a pair of binary64 numbers, or as none.
pub open spec fn keypoint_from_double_bits(keypoint: Option<(u64, u64)>) -> Option<Point> {
    match keypoint {
        Some((x_bits, y_bits)) => Point::spec_from_double_bits(x_bits, y_bits),
        None => None,
    }
}

/// The keypoints that arrived as pairs of binary64 numbers, each in its
/// place.
pub open spec fn keypoints_from_double_bits(keypoints: Seq<Option<(u64, u64)>>) -> Seq<Option<Point>> {
    keypoints.map_values(|keypoint: Option<(u64, u64)>| keypoint_from_double_bits(keypoint))
}

impl PersonData {
    /// Builds the pose of a person from what a datagram says of them. Every
    /// keypoint keeps its place; a keypoint that is absent stays absent and
    /// is not taken for a point at the origin; the hand flags are kept as
    /// they came.
    pub fn from_double_bits(
        keypoints: &[Option<(u64, u64)>],
        right_hand_closed: Option<bool>,
        left_hand_closed: Option<bool>,
    ) -> (person: PersonData)
        ensures
            person.keypoints@ == keypoints_from_double_bits(keypoints@),
            person.right_hand_closed == right_hand_closed,
            person.left_hand_closed == left_hand_closed,
    {
        let mut points: Vec<Option<Point>> = Vec::new();
        let mut i: usize = 0;
        while i < keypoints.len()
            invariant
                i <= keypoints@.len(),
                points@ == keypoints_from_double_bits(keypoints@.take(i as int)),
            decreases keypoints@.len() - i,
        {
            let point = match keypoints[i] {
                Some((x_bits, y_bits)) => Point::from_double_bits(x_bits, y_bits),
                None => None,
            };
            assert(point == keypoint_from_double_bits(keypoints@[i as int]));
            points.push(point);
            assert(points@ =~= keypoints_from_double_bits(keypoints@.take(i + 1)));
            i = i + 1;
        }
        assert(keypoints@.take(i as int) =~= keypoints@);
        PersonData { keypoints: points, right_hand_closed, left_hand_closed }
    }
}

/// One frame: the people of one datagram, indexed by person slot.
pub type PeopleData = Vec<PersonData>;

/// The keypoint at `index`: `None` where the sequence is too short or the
/// landmark was not detected.
pub open spec fn keypoint_at(keypoints: Seq<Option<Point>>, index: usize) -> Option<Point> {
    if index < keypoints.len() {
        keypoints[index as int]
    } else {
        None
    }
}

/// Looks up one landmark, tolerating any index.
pub fn get_keypoint(keypoints: &[Option<Point>], index: usize) -> (found: Option<Point>)
    ensures
        found == keypoint_at(keypoints@, index),
{
    if index < keypoints.len() {
        keypoints[index]
    } else {
        None
    }
}

} // verus!
