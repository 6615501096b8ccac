use pose_markers::fixed::ONE;
use pose_markers::screen::{smooth, MarkerState, ScreenPoint};

fn at(x: i64, y: i64) -> ScreenPoint {
    ScreenPoint { x: x * ONE, y: y * ONE }
}

#[test]
fn new_marker_is_hidden_at_the_centre() {
    let state = MarkerState::new();
    assert_eq!(state, MarkerState { position: at(0, 0), visible: false });
}

#[test]
fn one_tick_goes_halfway() {
    assert_eq!(smooth(at(0, 0), at(100, 0)), at(50, 0));
}

#[test]
fn second_tick_halves_what_is_left() {
    let first = smooth(at(0, 0), at(100, 0));
    let second = smooth(first, at(100, 0));
    assert_eq!(second, at(75, 0));
}

#[test]
fn smoothing_works_on_both_axes() {
    assert_eq!(smooth(at(-40, 10), at(20, -30)), at(-10, -10));
}

#[test]
fn smoothing_rounds_down_on_the_grid() {
    assert_eq!(smooth(ScreenPoint { x: 0, y: 0 }, ScreenPoint { x: 1, y: 3 }), ScreenPoint { x: 0, y: 1 });
    assert_eq!(smooth(ScreenPoint { x: 0, y: 0 }, ScreenPoint { x: -1, y: -3 }), ScreenPoint { x: -1, y: -2 });
    assert_eq!(smooth(ScreenPoint { x: -1, y: 2 }, ScreenPoint { x: 0, y: -5 }), ScreenPoint { x: -1, y: -2 });
}

#[test]
fn smoothing_at_the_target_stays() {
    assert_eq!(smooth(at(7, -9), at(7, -9)), at(7, -9));
}

#[test]
fn smoothing_takes_the_extremes() {
    let high = ScreenPoint { x: i64::MAX, y: i64::MAX };
    let low = ScreenPoint { x: i64::MIN, y: i64::MIN };
    assert_eq!(smooth(high, high), high);
    assert_eq!(smooth(low, low), low);
    assert_eq!(smooth(low, high), ScreenPoint { x: -1, y: -1 });
    assert_eq!(smooth(high, ScreenPoint { x: 0, y: 0 }), ScreenPoint { x: i64::MAX / 2, y: i64::MAX / 2 });
}

#[test]
fn advance_with_a_target_shows_and_eases() {
    let mut state = MarkerState::new();
    state.advance(Some(at(100, 0)));
    assert_eq!(state, MarkerState { position: at(50, 0), visible: true });
    state.advance(Some(at(100, 0)));
    assert_eq!(state, MarkerState { position: at(75, 0), visible: true });
}

#[test]
fn advance_without_a_target_hides_and_freezes() {
    let mut state = MarkerState { position: at(12, -34), visible: true };
    state.advance(None);
    assert_eq!(state, MarkerState { position: at(12, -34), visible: false });
}

#[test]
fn hidden_marker_does_not_drift() {
    let mut state = MarkerState { position: at(12, -34), visible: true };
    for _ in 0..25 {
        state.advance(None);
        assert_eq!(state, MarkerState { position: at(12, -34), visible: false });
    }
}

#[test]
fn hidden_marker_shows_at_once_with_the_usual_blend() {
    let mut state = MarkerState { position: at(40, 40), visible: true };
    for _ in 0..3 {
        state.advance(None);
    }
    state.advance(Some(at(0, 100)));
    assert_eq!(state, MarkerState { position: at(20, 70), visible: true });
}

#[test]
fn marker_can_hide_and_show_again_and_again() {
    let mut state = MarkerState::new();
    state.advance(Some(at(8, 8)));
    assert!(state.visible);
    state.advance(None);
    assert!(!state.visible);
    state.advance(Some(at(8, 8)));
    assert_eq!(state, MarkerState { position: at(6, 6), visible: true });
    state.advance(None);
    assert_eq!(state, MarkerState { position: at(6, 6), visible: false });
}
