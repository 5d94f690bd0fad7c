use kimi_pet::edge_hide::{
    animate, attach, get_edge_hide, hide_target, is_measurable, is_ready, is_slidable, on_moved,
    reveal_window, set_animating, set_edge_hide, set_hidden, Area, Edge, EdgeHide, Position,
    WindowSignal, WindowTask,
};

fn area(x: i32, y: i32, width: u32, height: u32) -> Area {
    Area { x, y, width, height }
}

fn place(screen: Area, window: Area) -> Option<(Edge, Position)> {
    assert!(is_measurable(screen, window));
    hide_target(screen, window)
}

#[test]
fn hides_at_the_left() {
    let screen = area(100, 50, 1920, 1080);
    assert_eq!(
        place(screen, area(108, 300, 220, 220)),
        Some((Edge::Left, Position { x: 100 - 165, y: 300 }))
    );
    assert_eq!(place(screen, area(109, 300, 220, 220)), None);
}

#[test]
fn hides_at_the_right() {
    let screen = area(0, 0, 1920, 1080);
    assert_eq!(
        place(screen, area(1695, 1000, 220, 220)),
        Some((Edge::Right, Position { x: 1920 - 55, y: 860 }))
    );
}

#[test]
fn hides_at_the_top() {
    let screen = area(0, 0, 1920, 1080);
    assert_eq!(
        place(screen, area(500, -3, 220, 221)),
        Some((Edge::Top, Position { x: 500, y: -(221 - 55) }))
    );
}

#[test]
fn left_goes_before_right_and_top() {
    let screen = area(0, 0, 230, 1080);
    assert_eq!(place(screen, area(5, 5, 220, 220)).unwrap().0, Edge::Left);
    assert_eq!(place(screen, area(7, 3, 220, 220)).unwrap().0, Edge::Right);
    assert_eq!(place(screen, area(5, 4, 220, 220)).unwrap().0, Edge::Top);
}

#[test]
fn no_hiding_in_the_middle_or_at_the_bottom() {
    let screen = area(0, 0, 1920, 1080);
    assert_eq!(place(screen, area(500, 500, 220, 220)), None);
    assert_eq!(place(screen, area(500, 1070, 220, 220)), None);
}

#[test]
fn no_hiding_of_windows_as_large_as_the_screen() {
    let screen = area(0, 0, 1920, 1080);
    assert_eq!(place(screen, area(0, 0, 1920, 500)), None);
    assert_eq!(place(screen, area(0, 0, 500, 1080)), None);
}

#[test]
fn far_places_cannot_be_measured() {
    let screen = area(i32::MAX - 100, 0, 1920, 1080);
    assert!(!is_measurable(screen, area(0, 0, 220, 220)));
    assert!(is_measurable(screen, area(0, 0, 2000, 220)));
    assert!(!is_measurable(area(i32::MIN, 0, 1000, 1000), area(i32::MIN, 500, 220, 220)));
}

#[test]
fn slide_in_ten_steps() {
    let from = Position { x: 0, y: 100 };
    let target = Position { x: -165, y: 105 };
    assert!(is_slidable(from, target));
    let steps = animate(from, target);
    assert_eq!(steps.len(), 10);
    assert_eq!(steps[0], Position { x: -16, y: 100 });
    assert_eq!(steps[4], Position { x: -82, y: 102 });
    assert_eq!(steps[9], target);
}

#[test]
fn slides_too_long_to_compute() {
    let from = Position { x: 0, y: 0 };
    assert!(is_slidable(from, Position { x: 214748364, y: -214748364 }));
    assert!(!is_slidable(from, Position { x: 214748365, y: 0 }));
    assert!(!is_slidable(from, Position { x: 0, y: i32::MIN }));
}

#[test]
fn moves_settle_before_hiding() {
    let mut state = EdgeHide::new();
    assert!(get_edge_hide(&state));
    assert!(!is_ready(&state, 10_000));
    assert!(on_moved(&mut state, 1_000));
    assert!(!is_ready(&state, 1_349));
    assert!(is_ready(&state, 1_350));
    assert_eq!(attach(&mut state, WindowSignal::Moved, 1_300), WindowTask::Settle);
    assert!(!is_ready(&state, 1_350));
    assert!(is_ready(&state, 1_650));
}

#[test]
fn own_slide_is_no_move() {
    let mut state = EdgeHide::new();
    on_moved(&mut state, 5);
    set_animating(&mut state, true);
    assert!(!on_moved(&mut state, 100));
    assert_eq!(attach(&mut state, WindowSignal::Moved, 100), WindowTask::Nothing);
    assert_eq!(state.last_move, Some(5));
    assert!(!is_ready(&state, 9_000));
    set_animating(&mut state, false);
    assert!(is_ready(&state, 9_000));
}

#[test]
fn pointer_takes_out_of_hiding() {
    let mut state = EdgeHide::new();
    let full = Position { x: 3, y: 4 };
    on_moved(&mut state, 0);
    assert_eq!(attach(&mut state, WindowSignal::PointerEntered, 1), WindowTask::Nothing);
    set_hidden(&mut state, Edge::Left, full);
    assert!(!is_ready(&state, 9_000));
    assert_eq!(attach(&mut state, WindowSignal::Other, 1), WindowTask::Nothing);
    assert_eq!(attach(&mut state, WindowSignal::PointerEntered, 1), WindowTask::Slide(full));
    assert_eq!(attach(&mut state, WindowSignal::PointerEntered, 2), WindowTask::Nothing);
    assert_eq!(reveal_window(&mut state), None);
    set_hidden(&mut state, Edge::Top, full);
    assert_eq!(reveal_window(&mut state), Some(full));
}

#[test]
fn switching_off_takes_out_of_hiding() {
    let mut state = EdgeHide::new();
    let full = Position { x: 3, y: 4 };
    set_hidden(&mut state, Edge::Right, full);
    assert_eq!(set_edge_hide(&mut state, true, true), None);
    assert!(state.hidden.is_some());
    assert_eq!(set_edge_hide(&mut state, false, true), Some(full));
    assert!(!get_edge_hide(&state));
    assert!(state.hidden.is_none());
    on_moved(&mut state, 0);
    assert!(!is_ready(&state, 9_000));
    assert_eq!(set_edge_hide(&mut state, false, true), None);
}

#[test]
fn switching_off_without_a_window_keeps_the_place() {
    let mut state = EdgeHide::new();
    let full = Position { x: 3, y: 4 };
    set_hidden(&mut state, Edge::Right, full);
    assert_eq!(set_edge_hide(&mut state, false, false), None);
    assert!(!get_edge_hide(&state));
    assert_eq!(reveal_window(&mut state), Some(full));
}
