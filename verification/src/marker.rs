//! The marker model: which landmarks feed which marker, and where the
//! landmarks of one frame put it.

use vstd::prelude::*;
use crate::fixed::div_floor;
use crate::pose::{get_keypoint, keypoint_at, PeopleData, PersonData, Point, MIN_KEYPOINTS};

verus! {

/// The body part that a marker shows.
#[derive(Clone, Copy, Debug, PartialEq, Eq, Hash, Structural)]
pub enum KeypointType {
    Head,
    LeftHand,
    RightHand,
}

/// An opaque color, one byte per channel.
#[derive(Clone, Copy, Debug, PartialEq, Eq, Structural)]
pub struct Rgb {
    pub red: u8,
    pub green: u8,
    pub blue: u8,
}

impl KeypointType {
    /// The landmarks pooled into a marker of this kind: nose, eyes and ears
    /// for the head, one wrist for each hand.
    pub open spec fn spec_keypoint_indices(self) -> Seq<usize> {
        match self {
            KeypointType::Head => seq![0usize, 1usize, 2usize, 3usize, 4usize],
            KeypointType::LeftHand => seq![9usize],
            KeypointType::RightHand => seq![10usize],
        }
    }

    /// The landmarks pooled into a marker of this kind.
    pub fn keypoint_indices(self) -> (indices: Vec<usize>)
        ensures
            indices@ == self.spec_keypoint_indices(),
    {
        let mut indices: Vec<usize> = Vec::new();
        match self {
            KeypointType::Head => {
                indices.push(0);
                indices.push(1);
                indices.push(2);
                indices.push(3);
                indices.push(4);
            },
            KeypointType::LeftHand => {
                indices.push(9);
            },
            KeypointType::RightHand => {
                indices.push(10);
            },
        }
        assert(indices@ =~= self.spec_keypoint_indices());
        indices
    }

    /// Radius of the disc drawn for a marker of this kind, in screen units.
    pub fn radius(self) -> (radius: u16)
        ensures
            radius == (if self == KeypointType::Head { 80u16 } else { 20u16 }),
    {
        match self {
            KeypointType::Head => 80,
            KeypointType::LeftHand => 20,
            KeypointType::RightHand => 20,
        }
    }

    /// Color of the disc: yellow head, red left hand, blue right hand.
    pub fn color(self) -> (color: Rgb)
        ensures
            color == (match self {
                KeypointType::Head => (Rgb { red: 255, green: 255, blue: 0 }),
                KeypointType::LeftHand => (Rgb { red: 255, green: 0, blue: 0 }),
                KeypointType::RightHand => (Rgb { red: 0, green: 0, blue: 255 }),
            }),
    {
        match self {
            KeypointType::Head => Rgb { red: 255, green: 255, blue: 0 },
            KeypointType::LeftHand => Rgb { red: 255, green: 0, blue: 0 },
            KeypointType::RightHand => Rgb { red: 0, green: 0, blue: 255 },
        }
    }
}

/// The points found at `indices`, in the order of `indices`, leaving out
/// every index that `keypoints` does not reach or holds no point at.
pub open spec fn present_points(indices: Seq<usize>, keypoints: Seq<Option<Point>>) -> Seq<Point> {
    indices.filter_map(|index: usize| keypoint_at(keypoints, index))
}

/// Sum of the `x` components.
pub open spec fn sum_x(points: Seq<Point>) -> int
    decreases points.len(),
{
    if points.len() == 0 {
        0
    } else {
        sum_x(points.drop_last()) + points.last().x
    }
}

/// Sum of the `y` components.
pub open spec fn sum_y(points: Seq<Point>) -> int
    decreases points.len(),
{
    if points.len() == 0 {
        0
    } else {
        sum_y(points.drop_last()) + points.last().y
    }
}

/// Component-wise arithmetic mean of `points`, each component rounded toward
/// negative infinity to the fixed-point grid; `None` for no points.
pub open spec fn centroid(points: Seq<Point>) -> Option<Point> {
    if points.len() == 0 {
        None
    } else {
        Some(
            Point {
                x: (sum_x(points) / (points.len() as int)) as i32,
                y: (sum_y(points) / (points.len() as int)) as i32,
            },
        )
    }
}

/// Each sum of `n` components lies between `n` times the least and `n` times
/// the greatest 32-bit value.
pub proof fn lemma_sum_bounds(points: Seq<Point>)
    ensures
        i32::MIN * points.len() <= sum_x(points) <= i32::MAX * points.len(),
        i32::MIN * points.len() <= sum_y(points) <= i32::MAX * points.len(),
    decreases points.len(),
{
    if points.len() > 0 {
        lemma_sum_bounds(points.drop_last());
    }
}

/// A quotient of a sum of `n` 32-bit values by `n` is a 32-bit value.
pub proof fn lemma_mean_in_range(sum: int, n: int)
    requires
        n > 0,
        i32::MIN * n <= sum <= i32::MAX * n,
    ensures
        i32::MIN <= sum / n <= i32::MAX,
{
    let q = sum / n;
    let r = sum % n;
    assert(sum == q * n + r && 0 <= r < n) by (nonlinear_arith)
        requires
            n > 0,
            q == sum / n,
            r == sum % n,
    ;
    assert(i32::MIN <= q <= i32::MAX) by (nonlinear_arith)
        requires
            n > 0,
            sum == q * n + r,
            0 <= r < n,
            i32::MIN * n <= sum <= i32::MAX * n,
    ;
}

/// Whether the `k`-th landmark of the list `indices` is present in
/// `keypoints`.
pub open spec fn landmark_present(indices: Seq<usize>, keypoints: Seq<Option<Point>>, k: int) -> bool {
    0 <= k < indices.len() && keypoint_at(keypoints, indices[k]) is Some
}

/// There are points to average exactly when some landmark of the list is
/// present, and never more points than landmarks in the list.
pub proof fn lemma_present_points_len(indices: Seq<usize>, keypoints: Seq<Option<Point>>)
    ensures
        present_points(indices, keypoints).len() <= indices.len(),
        present_points(indices, keypoints).len() > 0 <==> exists|k: int| landmark_present(indices, keypoints, k),
    decreases indices.len(),
{
    if indices.len() > 0 {
        let earlier = indices.drop_last();
        let last = indices.len() - 1;
        lemma_present_points_len(earlier, keypoints);
        if keypoint_at(keypoints, indices.last()) is Some {
            assert(landmark_present(indices, keypoints, last));
        } else {
            if exists|k: int| landmark_present(earlier, keypoints, k) {
                let k = choose|k: int| landmark_present(earlier, keypoints, k);
                assert(landmark_present(indices, keypoints, k));
            }
            if exists|k: int| landmark_present(indices, keypoints, k) {
                let k = choose|k: int| landmark_present(indices, keypoints, k);
                assert(landmark_present(earlier, keypoints, k));
            }
        }
    }
}

/// Where every landmark of the list is present, the points to average are
/// the landmarks themselves, in the order of the list.
pub proof fn lemma_present_points_all(indices: Seq<usize>, keypoints: Seq<Option<Point>>)
    requires
        forall|k: int| 0 <= k < indices.len() ==> landmark_present(indices, keypoints, k),
    ensures
        present_points(indices, keypoints).len() == indices.len(),
        forall|k: int|
            0 <= k < indices.len() ==> Some(#[trigger] present_points(indices, keypoints)[k]) == keypoints[indices[k] as int],
    decreases indices.len(),
{
    if indices.len() > 0 {
        let earlier = indices.drop_last();
        assert forall|k: int| 0 <= k < earlier.len() implies landmark_present(earlier, keypoints, k) by {
            assert(landmark_present(indices, keypoints, k));
        }
        lemma_present_points_all(earlier, keypoints);
        assert(landmark_present(indices, keypoints, indices.len() - 1));
    }
}

/// The centroid of at least one point is, on each axis, the arithmetic mean
/// of the components rounded down to the grid: the greatest value whose
/// multiple by the number of points does not exceed their sum.
pub proof fn lemma_centroid_is_mean(points: Seq<Point>)
    requires
        points.len() > 0,
    ensures
        centroid(points) matches Some(c) && {
            &&& c.x == sum_x(points) / (points.len() as int)
            &&& c.y == sum_y(points) / (points.len() as int)
            &&& c.x * points.len() <= sum_x(points) < (c.x + 1) * points.len()
            &&& c.y * points.len() <= sum_y(points) < (c.y + 1) * points.len()
        },
{
    let n = points.len() as int;
    lemma_sum_bounds(points);
    lemma_mean_in_range(sum_x(points), n);
    lemma_mean_in_range(sum_y(points), n);
    lemma_floor_brackets(sum_x(points), n);
    lemma_floor_brackets(sum_y(points), n);
}

/// The quotient by a positive `n` is the greatest `q` with `q * n <= sum`.
proof fn lemma_floor_brackets(sum: int, n: int)
    requires
        n > 0,
    ensures
        (sum / n) * n <= sum < (sum / n + 1) * n,
{
    let q = sum / n;
    let r = sum % n;
    assert(sum == q * n + r && 0 <= r < n && (q + 1) * n == q * n + n) by (nonlinear_arith)
        requires
            n > 0,
            q == sum / n,
            r == sum % n,
    ;
}

/// The centroid of points that all coincide is that point.
pub proof fn lemma_centroid_of_equal_points(points: Seq<Point>, point: Point)
    requires
        points.len() > 0,
        forall|i: int| 0 <= i < points.len() ==> points[i] == point,
    ensures
        centroid(points) == Some(point),
{
    lemma_sum_of_equal_points(points, point);
    let n = points.len() as int;
    assert((point.x * n) / n == point.x && (point.y * n) / n == point.y) by (nonlinear_arith)
        requires
            n > 0,
    ;
}

proof fn lemma_sum_of_equal_points(points: Seq<Point>, point: Point)
    requires
        forall|i: int| 0 <= i < points.len() ==> points[i] == point,
    ensures
        sum_x(points) == point.x * points.len(),
        sum_y(points) == point.y * points.len(),
    decreases points.len(),
{
    if points.len() > 0 {
        lemma_sum_of_equal_points(points.drop_last(), point);
        let n = points.len() as int;
        assert(point.x * (n - 1) + point.x == point.x * n && point.y * (n - 1) + point.y == point.y * n)
            by (nonlinear_arith);
    }
}

/// What one marker is fed from: a person slot and the landmarks that are
/// pooled into the marker's position.
#[derive(Clone, Debug, PartialEq, Eq)]
pub struct StickFigureCircle {
    /// Slot of the person in a frame.
    pub person_id: usize,
    /// The part of the person that the marker shows.
    pub keypoint_type: KeypointType,
    /// Places in the person's keypoint list of the landmarks to average.
    pub keypoint_indices: Vec<usize>,
}

impl StickFigureCircle {
    /// The marker of the given part of the person in slot `person_id`.
    pub fn new(person_id: usize, keypoint_type: KeypointType) -> (circle: Self)
        ensures
            circle.person_id == person_id,
            circle.keypoint_type == keypoint_type,
            circle.keypoint_indices@ == keypoint_type.spec_keypoint_indices(),
    {
        StickFigureCircle { person_id, keypoint_type, keypoint_indices: keypoint_type.keypoint_indices() }
    }

    /// Centroid of the landmarks of this marker that `keypoints` holds.
    pub open spec fn spec_calculate_average_position(&self, keypoints: Seq<Option<Point>>) -> Option<Point> {
        centroid(present_points(self.keypoint_indices@, keypoints))
    }

    /// Where `people` puts this marker: the centroid of its landmarks in the
    /// pose of its person, provided the frame has that person and the pose
    /// has at least [`MIN_KEYPOINTS`] entries.
    pub open spec fn spec_average_position(&self, people: Seq<PersonData>) -> Option<Point> {
        if self.person_id < people.len() && people[self.person_id as int].keypoints@.len() >= MIN_KEYPOINTS {
            self.spec_calculate_average_position(people[self.person_id as int].keypoints@)
        } else {
            None
        }
    }

    /// Averages the landmarks of this marker that are present in `keypoints`.
    pub fn calculate_average_position(&self, keypoints: &[Option<Point>]) -> (average: Option<Point>)
        ensures
            average == self.spec_calculate_average_position(keypoints@),
            average is None <==> present_points(self.keypoint_indices@, keypoints@).len() == 0,
            average matches Some(c) ==> {
                let points = present_points(self.keypoint_indices@, keypoints@);
                &&& c.x == sum_x(points) / (points.len() as int)
                &&& c.y == sum_y(points) / (points.len() as int)
            },
    {
        let ghost indices = self.keypoint_indices@;
        let mut total_x: i128 = 0;
        let mut total_y: i128 = 0;
        let mut count: usize = 0;
        let mut k: usize = 0;
        while k < self.keypoint_indices.len()
            invariant
                indices == self.keypoint_indices@,
                k <= indices.len(),
                count <= k,
                count == present_points(indices.take(k as int), keypoints@).len(),
                total_x == sum_x(present_points(indices.take(k as int), keypoints@)),
                total_y == sum_y(present_points(indices.take(k as int), keypoints@)),
            decreases indices.len() - k,
        {
            let found = get_keypoint(keypoints, self.keypoint_indices[k]);
            proof {
                let before = indices.take(k as int);
                let after = indices.take(k + 1);
                assert(after.drop_last() =~= before);
                assert(after.last() == indices[k as int]);
                let points = present_points(before, keypoints@);
                lemma_sum_bounds(points);
                if let Some(point) = found {
                    assert(present_points(after, keypoints@) == points + seq![point]);
                    assert((points + seq![point]).drop_last() =~= points);
                } else {
                    assert(present_points(after, keypoints@) == points);
                }
            }
            if let Some(point) = found {
                total_x = total_x + point.x as i128;
                total_y = total_y + point.y as i128;
                count = count + 1;
            }
            k = k + 1;
        }
        proof {
            assert(indices.take(k as int) =~= indices);
        }
        if count == 0 {
            None
        } else {
            let mean_x = div_floor(total_x, count as i128);
            let mean_y = div_floor(total_y, count as i128);
            proof {
                let points = present_points(indices, keypoints@);
                lemma_sum_bounds(points);
                lemma_mean_in_range(sum_x(points), points.len() as int);
                lemma_mean_in_range(sum_y(points), points.len() as int);
            }
            Some(Point { x: mean_x as i32, y: mean_y as i32 })
        }
    }

    /// Where the frame `people` puts this marker, if anywhere.
    pub fn average_position(&self, people: &PeopleData) -> (average: Option<Point>)
        ensures
            average == self.spec_average_position(people@),
    {
        if self.person_id < people.len() {
            let person = &people[self.person_id];
            if person.keypoints.len() >= MIN_KEYPOINTS {
                self.calculate_average_position(person.keypoints.as_slice())
            } else {
                None
            }
        } else {
            None
        }
    }
}

/// A marker none of whose landmarks is present in a pose gets no position
/// from it, whatever else the pose holds.
pub proof fn lemma_no_landmark_no_position(circle: StickFigureCircle, keypoints: Seq<Option<Point>>)
    requires
        forall|k: int|
            0 <= k < circle.keypoint_indices@.len() ==> keypoint_at(keypoints, #[trigger] circle.keypoint_indices@[k])
                is None,
    ensures
        circle.spec_calculate_average_position(keypoints) is None,
{
    lemma_present_points_len(circle.keypoint_indices@, keypoints);
}

/// A marker gets a position from a pose exactly when one of its landmarks is
/// present in it, and the position is then the rounded mean of the present
/// landmarks and of nothing else.
pub proof fn lemma_position_is_mean_of_present(circle: StickFigureCircle, keypoints: Seq<Option<Point>>)
    ensures
        circle.spec_calculate_average_position(keypoints) is Some <==> exists|k: int|
            landmark_present(circle.keypoint_indices@, keypoints, k),
        circle.spec_calculate_average_position(keypoints) matches Some(c) ==> {
            let points = present_points(circle.keypoint_indices@, keypoints);
            &&& c.x * points.len() <= sum_x(points) < (c.x + 1) * points.len()
            &&& c.y * points.len() <= sum_y(points) < (c.y + 1) * points.len()
        },
{
    let points = present_points(circle.keypoint_indices@, keypoints);
    lemma_present_points_len(circle.keypoint_indices@, keypoints);
    if points.len() > 0 {
        lemma_centroid_is_mean(points);
    }
}

/// A frame gives no position to a marker none of whose landmarks is present
/// in the pose of its person.
pub proof fn lemma_no_landmark_no_average(circle: StickFigureCircle, people: Seq<PersonData>)
    requires
        circle.person_id < people.len() ==> forall|k: int|
            !landmark_present(circle.keypoint_indices@, people[circle.person_id as int].keypoints@, k),
    ensures
        circle.spec_average_position(people) is None,
{
    if circle.person_id < people.len() {
        lemma_present_points_len(circle.keypoint_indices@, people[circle.person_id as int].keypoints@);
    }
}

/// A frame gives a marker no position where it lacks the marker's person,
/// or holds fewer than [`MIN_KEYPOINTS`] entries for that person, whichever
/// of them are present.
pub proof fn lemma_incomplete_pose_no_position(circle: StickFigureCircle, people: Seq<PersonData>)
    requires
        circle.person_id >= people.len() || people[circle.person_id as int].keypoints@.len() < MIN_KEYPOINTS,
    ensures
        circle.spec_average_position(people) is None,
{
}

} // verus!
