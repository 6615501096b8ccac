//! The marker table and the per-tick pipeline that drives it.

use vstd::prelude::*;
use crate::marker::{
    centroid, landmark_present, lemma_incomplete_pose_no_position, lemma_present_points_len, present_points,
    KeypointType, StickFigureCircle,
};
use crate::pose::{PeopleData, PersonData, MIN_KEYPOINTS};
use crate::screen::{
    normalize_to_screen_coords, spec_normalize_to_screen_coords, spec_smooth, MarkerState, ScreenPoint,
    DEFAULT_VIEWPORT_HEIGHT,
};

verus! {

/// Number of person slots that get markers unless configured otherwise.
pub const DEFAULT_PERSON_COUNT: usize = 4;

/// One marker: what feeds it, and what is drawn of it.
#[derive(Debug, PartialEq, Eq)]
pub struct Marker {
    /// What feeds the marker. It never changes.
    pub circle: StickFigureCircle,
    /// What is drawn of the marker. It changes with every frame followed.
    pub state: MarkerState,
}

impl StickFigureCircle {
    /// The screen point that the frame `people` steers this marker toward.
    pub open spec fn spec_target(&self, people: Seq<PersonData>, viewport_height: u16) -> Option<ScreenPoint> {
        match self.spec_average_position(people) {
            Some(average) => Some(spec_normalize_to_screen_coords(average, viewport_height)),
            None => None,
        }
    }

    /// Where on the screen the frame `people` wants this marker, if anywhere.
    pub fn target(&self, people: &PeopleData, viewport_height: u16) -> (target: Option<ScreenPoint>)
        ensures
            target == self.spec_target(people@, viewport_height),
    {
        match self.average_position(people) {
            Some(average) => Some(normalize_to_screen_coords(average, viewport_height)),
            None => None,
        }
    }
}

/// The part shown by the `k`-th marker of a person.
pub open spec fn keypoint_type_at(k: int) -> KeypointType {
    if k == 0 {
        KeypointType::Head
    } else if k == 1 {
        KeypointType::LeftHand
    } else {
        KeypointType::RightHand
    }
}

/// `markers` has one marker for each of the first `person_count` person
/// slots and each part: head, left hand and right hand of person 0, then of
/// person 1 and so on, each fed by the landmarks of its part.
pub open spec fn has_layout(markers: Seq<Marker>, person_count: usize) -> bool {
    &&& markers.len() == 3 * person_count
    &&& forall|i: int|
        0 <= i < markers.len() ==> {
            &&& (#[trigger] markers[i]).circle.person_id == i / 3
            &&& markers[i].circle.keypoint_type == keypoint_type_at(i % 3)
            &&& markers[i].circle.keypoint_indices@ == keypoint_type_at(i % 3).spec_keypoint_indices()
        }
}

/// `markers` is the table that [`setup_figures`] builds for `person_count`
/// people: laid out by person and part, no marker fed yet.
pub open spec fn is_fresh_table(markers: Seq<Marker>, person_count: usize) -> bool {
    &&& has_layout(markers, person_count)
    &&& forall|i: int| 0 <= i < markers.len() ==> (#[trigger] markers[i]).state == MarkerState::spec_new()
}

/// Builds the marker table for `person_count` people.
pub fn setup_figures(person_count: usize) -> (markers: Vec<Marker>)
    ensures
        is_fresh_table(markers@, person_count),
{
    let mut markers: Vec<Marker> = Vec::new();
    let mut person_id: usize = 0;
    while person_id < person_count
        invariant
            person_id <= person_count,
            is_fresh_table(markers@, person_id),
        decreases person_count - person_id,
    {
        markers.push(Marker { circle: StickFigureCircle::new(person_id, KeypointType::Head), state: MarkerState::new() });
        markers.push(
            Marker { circle: StickFigureCircle::new(person_id, KeypointType::LeftHand), state: MarkerState::new() },
        );
        markers.push(
            Marker { circle: StickFigureCircle::new(person_id, KeypointType::RightHand), state: MarkerState::new() },
        );
        person_id = person_id + 1;
    }
    markers
}

/// Whether `marker` is the one of the given person and part.
pub open spec fn shows(marker: Marker, person_id: usize, keypoint_type: KeypointType) -> bool {
    marker.circle.person_id == person_id && marker.circle.keypoint_type == keypoint_type
}

/// In a table laid out for `person_count` people every pair of a person
/// slot below `person_count` and a part has exactly one marker, and no other
/// pair has any.
pub proof fn lemma_layout_one_marker_each(
    markers: Seq<Marker>,
    person_count: usize,
    person_id: usize,
    keypoint_type: KeypointType,
)
    requires
        has_layout(markers, person_count),
    ensures
        person_id < person_count ==> exists|i: int|
            {
                &&& 0 <= i < markers.len()
                &&& #[trigger] shows(markers[i], person_id, keypoint_type)
                &&& forall|j: int| 0 <= j < markers.len() && #[trigger] shows(markers[j], person_id, keypoint_type) ==> j == i
            },
        person_id >= person_count ==> forall|i: int|
            0 <= i < markers.len() ==> !#[trigger] shows(markers[i], person_id, keypoint_type),
{
    if person_id < person_count {
        let k: int = match keypoint_type {
            KeypointType::Head => 0,
            KeypointType::LeftHand => 1,
            KeypointType::RightHand => 2,
        };
        let i = 3 * person_id + k;
        assert(shows(markers[i], person_id, keypoint_type));
    }
}

/// What one attempt to receive a datagram brought.
#[derive(Debug, PartialEq, Eq)]
pub enum Received {
    /// No datagram was waiting.
    Nothing,
    /// A datagram arrived whose payload is not a frame.
    Undecodable,
    /// A datagram arrived and was decoded.
    People(PeopleData),
}

/// What became of a [`Received`].
#[derive(Clone, Copy, Debug, PartialEq, Eq, Structural)]
pub enum ReceiveOutcome {
    /// Nothing arrived, nothing changed.
    Idle,
    /// The payload was rejected; the frame held before still stands.
    DecodeFailure,
    /// The frame was replaced.
    Replaced,
}

/// Everything the pipeline keeps between ticks.
#[derive(Debug, PartialEq, Eq)]
pub struct Figures {
    /// The frame that the markers follow: the last one decoded.
    pub people: PeopleData,
    /// Whether `people` was replaced since the markers last followed it.
    pub changed: bool,
    /// The marker table.
    pub markers: Vec<Marker>,
    /// Height of the viewport in screen units.
    pub viewport_height: u16,
}

impl Default for Figures {
    /// A pipeline for [`DEFAULT_PERSON_COUNT`] people and a viewport of
    /// [`DEFAULT_VIEWPORT_HEIGHT`] that has seen no frame yet.
    fn default() -> (figures: Figures)
        ensures
            figures.people@.len() == 0,
            !figures.changed,
            is_fresh_table(figures.markers@, DEFAULT_PERSON_COUNT),
            figures.viewport_height == DEFAULT_VIEWPORT_HEIGHT,
    {
        Figures::new(DEFAULT_PERSON_COUNT, DEFAULT_VIEWPORT_HEIGHT)
    }
}

impl Figures {
    /// A pipeline for `person_count` people that has seen no frame yet.
    pub fn new(person_count: usize, viewport_height: u16) -> (figures: Figures)
        ensures
            figures.people@.len() == 0,
            !figures.changed,
            is_fresh_table(figures.markers@, person_count),
            figures.viewport_height == viewport_height,
    {
        Figures { people: Vec::new(), changed: false, markers: setup_figures(person_count), viewport_height }
    }

    /// Takes in what one receive attempt brought. Only a decoded frame
    /// changes anything: it replaces the held frame whole and marks it as
    /// changed.
    pub fn receive_data(&mut self, received: Received) -> (outcome: ReceiveOutcome)
        ensures
            match received {
                Received::Nothing => outcome == ReceiveOutcome::Idle && *final(self) == *old(self),
                Received::Undecodable => outcome == ReceiveOutcome::DecodeFailure && *final(self) == *old(self),
                Received::People(people) => {
                    &&& outcome == ReceiveOutcome::Replaced
                    &&& *final(self) == (Figures { people, changed: true, ..*old(self) })
                },
            },
    {
        match received {
            Received::Nothing => ReceiveOutcome::Idle,
            Received::Undecodable => ReceiveOutcome::DecodeFailure,
            Received::People(people) => {
                self.people = people;
                self.changed = true;
                ReceiveOutcome::Replaced
            },
        }
    }

    /// The marker table after the markers have followed the held frame once.
    pub open spec fn spec_updated_markers(&self) -> Seq<Marker> {
        Seq::new(
            self.markers@.len(),
            |i: int|
                Marker {
                    circle: self.markers@[i].circle,
                    state: self.markers@[i].state.spec_advance(
                        self.markers@[i].circle.spec_target(self.people@, self.viewport_height),
                    ),
                },
        )
    }

    /// Lets every marker follow the held frame, if the frame changed since
    /// the last call; returns whether it did.
    pub fn update_figures(&mut self) -> (updated: bool)
        ensures
            updated == old(self).changed,
            !updated ==> *final(self) == *old(self),
            updated ==> {
                &&& final(self).markers@ == old(self).spec_updated_markers()
                &&& !final(self).changed
                &&& final(self).people == old(self).people
                &&& final(self).viewport_height == old(self).viewport_height
            },
    {
        if !self.changed {
            return false;
        }
        let mut i: usize = 0;
        while i < self.markers.len()
            invariant
                self.people == old(self).people,
                self.changed == old(self).changed,
                self.viewport_height == old(self).viewport_height,
                self.markers@.len() == old(self).markers@.len(),
                i <= self.markers@.len(),
                forall|j: int| 0 <= j < i ==> self.markers@[j] == old(self).spec_updated_markers()[j],
                forall|j: int| i <= j < self.markers@.len() ==> self.markers@[j] == old(self).markers@[j],
            decreases self.markers@.len() - i,
        {
            let target = self.markers[i].circle.target(&self.people, self.viewport_height);
            self.markers[i].state.advance(target);
            i = i + 1;
        }
        self.changed = false;
        true
    }

    /// What is drawn of the marker of the given person and part: the state
    /// of the first marker in the table that shows them, if there is one.
    pub fn marker_state(&self, person_id: usize, keypoint_type: KeypointType) -> (found: Option<MarkerState>)
        ensures
            match found {
                Some(state) => exists|i: int|
                    {
                        &&& 0 <= i < self.markers@.len()
                        &&& #[trigger] shows(self.markers@[i], person_id, keypoint_type)
                        &&& self.markers@[i].state == state
                        &&& forall|j: int| 0 <= j < i ==> !#[trigger] shows(self.markers@[j], person_id, keypoint_type)
                    },
                None => forall|i: int|
                    0 <= i < self.markers@.len() ==> !#[trigger] shows(self.markers@[i], person_id, keypoint_type),
            },
    {
        let mut i: usize = 0;
        while i < self.markers.len()
            invariant
                i <= self.markers@.len(),
                forall|j: int| 0 <= j < i ==> !#[trigger] shows(self.markers@[j], person_id, keypoint_type),
            decreases self.markers@.len() - i,
        {
            let marker = &self.markers[i];
            if marker.circle.person_id == person_id && marker.circle.keypoint_type == keypoint_type {
                assert(shows(self.markers@[i as int], person_id, keypoint_type));
                return Some(marker.state);
            }
            i = i + 1;
        }
        None
    }
}

/// Following a frame moves no marker to another person or part: the table
/// keeps its layout.
pub proof fn lemma_update_keeps_layout(figures: Figures, person_count: usize)
    requires
        has_layout(figures.markers@, person_count),
    ensures
        has_layout(figures.spec_updated_markers(), person_count),
{
    let updated = figures.spec_updated_markers();
    assert forall|i: int| 0 <= i < updated.len() implies {
        &&& (#[trigger] updated[i]).circle.person_id == i / 3
        &&& updated[i].circle.keypoint_type == keypoint_type_at(i % 3)
        &&& updated[i].circle.keypoint_indices@ == keypoint_type_at(i % 3).spec_keypoint_indices()
    } by {
        assert(updated[i].circle == figures.markers@[i].circle);
    }
}

/// A marker whose person is missing from the held frame, or has fewer than
/// [`MIN_KEYPOINTS`] entries in it, is hidden by following the frame and
/// does not move.
pub proof fn lemma_incomplete_pose_freezes_marker(figures: Figures, i: int)
    requires
        0 <= i < figures.markers@.len(),
        ({
            let person_id = figures.markers@[i].circle.person_id;
            person_id >= figures.people@.len() || figures.people@[person_id as int].keypoints@.len() < MIN_KEYPOINTS
        }),
    ensures
        figures.spec_updated_markers()[i].state == (MarkerState {
            position: figures.markers@[i].state.position,
            visible: false,
        }),
{
    lemma_incomplete_pose_no_position(figures.markers@[i].circle, figures.people@);
}

/// A marker none of whose landmarks is present in the pose of its person is
/// hidden by following the frame and does not move.
pub proof fn lemma_absent_landmarks_freeze_marker(figures: Figures, i: int)
    requires
        0 <= i < figures.markers@.len(),
        ({
            let circle = figures.markers@[i].circle;
            circle.person_id < figures.people@.len() ==> forall|k: int|
                !landmark_present(circle.keypoint_indices@, figures.people@[circle.person_id as int].keypoints@, k)
        }),
    ensures
        figures.spec_updated_markers()[i].state == (MarkerState {
            position: figures.markers@[i].state.position,
            visible: false,
        }),
{
    let circle = figures.markers@[i].circle;
    if circle.person_id < figures.people@.len() {
        lemma_present_points_len(circle.keypoint_indices@, figures.people@[circle.person_id as int].keypoints@);
    }
}

/// A marker with a landmark present in a pose of at least
/// [`MIN_KEYPOINTS`] entries is shown by following the frame, halfway
/// between where it was and the screen point of the landmarks' centroid.
pub proof fn lemma_present_landmark_moves_marker(figures: Figures, i: int, k: int)
    requires
        0 <= i < figures.markers@.len(),
        figures.markers@[i].circle.person_id < figures.people@.len(),
        figures.people@[figures.markers@[i].circle.person_id as int].keypoints@.len() >= MIN_KEYPOINTS,
        landmark_present(
            figures.markers@[i].circle.keypoint_indices@,
            figures.people@[figures.markers@[i].circle.person_id as int].keypoints@,
            k,
        ),
    ensures
        ({
            let circle = figures.markers@[i].circle;
            let keypoints = figures.people@[circle.person_id as int].keypoints@;
            let state = figures.spec_updated_markers()[i].state;
            &&& centroid(present_points(circle.keypoint_indices@, keypoints)) matches Some(average)
            &&& state.visible
            &&& state.position == spec_smooth(
                figures.markers@[i].state.position,
                spec_normalize_to_screen_coords(average, figures.viewport_height),
            )
        }),
{
    let circle = figures.markers@[i].circle;
    lemma_present_points_len(circle.keypoint_indices@, figures.people@[circle.person_id as int].keypoints@);
}

} // verus!
