//! Screen space: mapping normalized points to the screen and easing a
//! marker toward its target.

use vstd::prelude::*;
use crate::fixed::{div_floor, HALF};
use crate::pose::Point;

verus! {

/// Height of the viewport, in screen units, unless configured otherwise.
pub const DEFAULT_VIEWPORT_HEIGHT: u16 = 1000;

/// A 2-D point in screen coordinates: origin at the centre of the viewport,
/// `y` growing upward. Both components are fixed-point numbers with
/// [`FRACTION_BITS`](crate::fixed::FRACTION_BITS) fractional bits.
#[derive(Clone, Copy, Debug, PartialEq, Eq, Structural)]
pub struct ScreenPoint {
    pub x: i64,
    pub y: i64,
}

/// The screen point of a normalized point, for a viewport of the given
/// height: `x` is re-centred and scaled, `y` is re-centred, flipped and
/// scaled. The mapping is exact.
pub open spec fn spec_normalize_to_screen_coords(keypoint: Point, viewport_height: u16) -> ScreenPoint {
    ScreenPoint {
        x: ((keypoint.x - HALF) * viewport_height) as i64,
        y: ((HALF - keypoint.y) * viewport_height) as i64,
    }
}

/// Maps a normalized point to the screen.
pub fn normalize_to_screen_coords(keypoint: Point, viewport_height: u16) -> (screen: ScreenPoint)
    ensures
        screen == spec_normalize_to_screen_coords(keypoint, viewport_height),
        screen.x == (keypoint.x - HALF) * viewport_height,
        screen.y == (HALF - keypoint.y) * viewport_height,
{
    let height: i64 = viewport_height as i64;
    let dx: i64 = keypoint.x as i64 - HALF;
    let dy: i64 = HALF - keypoint.y as i64;
    assert(-0x1_0000_0000_0000 <= dx * height <= 0x1_0000_0000_0000) by (nonlinear_arith)
        requires
            -0x1_0000_0000 <= dx <= 0x1_0000_0000,
            0 <= height <= 0x1_0000,
    ;
    assert(-0x1_0000_0000_0000 <= dy * height <= 0x1_0000_0000_0000) by (nonlinear_arith)
        requires
            -0x1_0000_0000 <= dy <= 0x1_0000_0000,
            0 <= height <= 0x1_0000,
    ;
    ScreenPoint { x: dx * height, y: dy * height }
}

/// The midpoint of `previous` and `target`, each component rounded toward
/// negative infinity: an exponential moving average of weight one half.
pub open spec fn spec_smooth(previous: ScreenPoint, target: ScreenPoint) -> ScreenPoint {
    ScreenPoint {
        x: ((previous.x + target.x) / 2) as i64,
        y: ((previous.y + target.y) / 2) as i64,
    }
}

/// Moves halfway from `previous` to `target`.
pub fn smooth(previous: ScreenPoint, target: ScreenPoint) -> (eased: ScreenPoint)
    ensures
        eased == spec_smooth(previous, target),
        eased.x == (previous.x + target.x) / 2,
        eased.y == (previous.y + target.y) / 2,
{
    let x = div_floor(previous.x as i128 + target.x as i128, 2);
    let y = div_floor(previous.y as i128 + target.y as i128, 2);
    ScreenPoint { x: x as i64, y: y as i64 }
}

/// What is drawn of one marker: where, and whether at all.
#[derive(Clone, Copy, Debug, PartialEq, Eq, Structural)]
pub struct MarkerState {
    pub position: ScreenPoint,
    pub visible: bool,
}

impl MarkerState {
    /// The state of a marker that has not been fed yet: hidden, at the
    /// centre of the viewport.
    pub open spec fn spec_new() -> MarkerState {
        MarkerState { position: ScreenPoint { x: 0, y: 0 }, visible: false }
    }

    /// A marker that is hidden until the first frame feeds it.
    pub fn new() -> (state: MarkerState)
        ensures
            state == MarkerState::spec_new(),
    {
        MarkerState { position: ScreenPoint { x: 0, y: 0 }, visible: false }
    }

    /// The state after one tick. Without a target the marker is hidden and
    /// stays where it is; with one it is shown, halfway to the target.
    pub open spec fn spec_advance(self, target: Option<ScreenPoint>) -> MarkerState {
        match target {
            None => MarkerState { position: self.position, visible: false },
            Some(target) => MarkerState { position: spec_smooth(self.position, target), visible: true },
        }
    }

    /// Applies one tick to the marker.
    pub fn advance(&mut self, target: Option<ScreenPoint>)
        ensures
            *final(self) == old(self).spec_advance(target),
            target is None ==> final(self).position == old(self).position && !final(self).visible,
            target is Some ==> final(self).visible,
    {
        match target {
            None => {
                self.visible = false;
            },
            Some(target) => {
                self.position = smooth(self.position, target);
                self.visible = true;
            },
        }
    }

    /// The state after a run of ticks, the first element of `targets` first.
    pub open spec fn spec_advance_all(self, targets: Seq<Option<ScreenPoint>>) -> MarkerState
        decreases targets.len(),
    {
        if targets.len() == 0 {
            self
        } else {
            self.spec_advance_all(targets.drop_last()).spec_advance(targets.last())
        }
    }
}

/// A marker that gets no target for any number of ticks, at least one, is
/// hidden and has not moved.
pub proof fn lemma_hidden_marker_stays_put(state: MarkerState, targets: Seq<Option<ScreenPoint>>)
    requires
        targets.len() > 0,
        forall|i: int| 0 <= i < targets.len() ==> targets[i] is None,
    ensures
        state.spec_advance_all(targets) == (MarkerState { position: state.position, visible: false }),
    decreases targets.len(),
{
    let earlier = targets.drop_last();
    assert(targets.last() is None);
    if earlier.len() > 0 {
        lemma_hidden_marker_stays_put(state, earlier);
    } else {
        assert(state.spec_advance_all(earlier) == state);
    }
}

/// After any number of ticks without a target, the first tick with one shows
/// the marker at once, halfway between where it was frozen and the target.
pub proof fn lemma_marker_shows_again(state: MarkerState, targets: Seq<Option<ScreenPoint>>, target: ScreenPoint)
    requires
        forall|i: int| 0 <= i < targets.len() ==> targets[i] is None,
    ensures
        state.spec_advance_all(targets.push(Some(target))) == (MarkerState {
            position: spec_smooth(state.position, target),
            visible: true,
        }),
{
    let run = targets.push(Some(target));
    assert(run.drop_last() =~= targets);
    assert(run.last() == Some(target));
    if targets.len() > 0 {
        lemma_hidden_marker_stays_put(state, targets);
    } else {
        assert(state.spec_advance_all(targets) == state);
    }
}

/// One tick of smoothing leaves at most half the distance to the target,
/// rounded up, on each axis, and never overshoots.
pub proof fn lemma_smooth_halves_distance(previous: ScreenPoint, target: ScreenPoint)
    ensures
        ({
            let eased = spec_smooth(previous, target);
            &&& previous.x <= target.x ==> previous.x <= eased.x <= target.x && 2 * (target.x - eased.x) <= target.x
                - previous.x + 1
            &&& previous.x >= target.x ==> target.x <= eased.x <= previous.x && 2 * (eased.x - target.x) <= previous.x
                - target.x
            &&& previous.y <= target.y ==> previous.y <= eased.y <= target.y && 2 * (target.y - eased.y) <= target.y
                - previous.y + 1
            &&& previous.y >= target.y ==> target.y <= eased.y <= previous.y && 2 * (eased.y - target.y) <= previous.y
                - target.y
        }),
{
}

} // verus!
