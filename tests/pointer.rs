use minesweeper::pointer::{MouseState, PointerAction, PointerFrame};

fn frame(just_pressed: bool, pressed: bool, released: bool, far: bool) -> PointerFrame {
    PointerFrame {
        left_just_pressed: just_pressed,
        left_pressed: pressed,
        left_just_released: released,
        right_just_pressed: false,
        right_pressed: false,
        right_just_released: false,
        far_from_start: far,
        right_far_from_start: false,
        cell: Some((2, 3)),
    }
}

fn right_frame(
    just_pressed: bool, pressed: bool, released: bool, far: bool, cell: Option<(usize, usize)>,
) -> PointerFrame {
    PointerFrame {
        left_just_pressed: false,
        left_pressed: false,
        left_just_released: false,
        right_just_pressed: just_pressed,
        right_pressed: pressed,
        right_just_released: released,
        far_from_start: false,
        right_far_from_start: far,
        cell,
    }
}

fn run(frames: &[PointerFrame]) -> Vec<PointerAction> {
    let mut state = MouseState::new();
    frames.iter().map(|f| state.frame(f)).collect()
}

fn clicks(actions: &[PointerAction]) -> usize {
    actions
        .iter()
        .filter(|a| matches!(a, PointerAction::LeftClick(..) | PointerAction::RightClick(..)))
        .count()
}

#[test]
fn short_press_is_one_click() {
    let actions = run(&[
        frame(true, true, false, false),
        frame(false, true, false, false),
        frame(false, true, false, false),
        frame(false, false, true, false),
    ]);
    assert_eq!(clicks(&actions), 1);
    assert_eq!(actions.last(), Some(&PointerAction::LeftClick(2, 3)));
    assert_eq!(actions[0], PointerAction::Arm);
}

#[test]
fn drag_is_no_click() {
    let actions = run(&[
        frame(true, true, false, false),
        frame(false, true, false, false),
        frame(false, true, false, true),
        // Back near the start: still a drag.
        frame(false, true, false, false),
        frame(false, false, true, false),
    ]);
    assert_eq!(clicks(&actions), 0);
    assert_eq!(actions[2], PointerAction::Pan);
    assert_eq!(actions[3], PointerAction::Pan);
    assert_eq!(actions[4], PointerAction::Nothing);
}

#[test]
fn release_off_the_board_is_no_click() {
    let mut release = frame(false, false, true, false);
    release.cell = None;
    let actions = run(&[frame(true, true, false, false), release]);
    assert_eq!(clicks(&actions), 0);
}

#[test]
fn secondary_click_comes_on_release_for_the_cell_then() {
    let actions = run(&[
        right_frame(true, true, false, false, Some((0, 0))),
        right_frame(false, true, false, false, Some((1, 0))),
        right_frame(false, false, true, false, Some((1, 0))),
    ]);
    assert_eq!(actions, vec![PointerAction::Nothing, PointerAction::Nothing, PointerAction::RightClick(1, 0)]);
}

#[test]
fn secondary_press_off_the_board_released_on_a_cell() {
    let actions = run(&[
        right_frame(true, true, false, false, None),
        right_frame(false, true, false, false, Some((4, 1))),
        right_frame(false, false, true, false, Some((4, 1))),
    ]);
    assert_eq!(clicks(&actions), 1);
    assert_eq!(actions.last(), Some(&PointerAction::RightClick(4, 1)));
}

#[test]
fn secondary_drag_is_no_click() {
    let actions = run(&[
        right_frame(true, true, false, false, Some((0, 0))),
        right_frame(false, true, false, true, Some((0, 0))),
        right_frame(false, true, false, false, Some((0, 0))),
        right_frame(false, false, true, false, Some((0, 0))),
    ]);
    assert_eq!(clicks(&actions), 0);
    assert!(!actions.contains(&PointerAction::Pan));
}

#[test]
fn primary_press_with_secondary_held_is_not_armed() {
    let mut press = frame(true, true, false, false);
    press.right_pressed = true;
    let mut state = MouseState { dragging: true, right_dragging: false };
    assert_eq!(state.frame(&press), PointerAction::Pan);
    assert!(state.dragging);
}

#[test]
fn check_dragging_is_sticky() {
    let mut state = MouseState::new();
    assert!(!state.check_dragging(false));
    assert!(state.check_dragging(true));
    assert!(state.check_dragging(false));
    state.set();
    assert!(!state.dragging);
}
