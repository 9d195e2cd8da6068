use cloth_sim::interaction::{pick, Selection};

#[test]
fn pick_takes_the_nearest_within_the_limit() {
    assert_eq!(pick(&vec![50, 7, 30], 400), Some(1));
}

#[test]
fn pick_takes_the_first_of_equally_near_particles() {
    assert_eq!(pick(&vec![9, 3, 8, 3, 3], 400), Some(1));
}

#[test]
fn pick_finds_nothing_beyond_the_limit() {
    assert_eq!(pick(&vec![400, 401, 9000], 400), None);
    assert_eq!(pick(&vec![399, 401, 9000], 400), Some(0));
}

#[test]
fn pick_finds_nothing_among_no_particles() {
    assert_eq!(pick(&Vec::new(), 400), None);
}

#[test]
fn pick_with_limit_zero_finds_nothing() {
    assert_eq!(pick(&vec![0, 0], 0), None);
}

#[test]
fn pick_handles_the_largest_key() {
    assert_eq!(pick(&vec![u32::MAX, u32::MAX], u32::MAX), None);
    assert_eq!(pick(&vec![u32::MAX, u32::MAX - 1], u32::MAX), Some(1));
}

#[test]
fn pick_orders_squared_distances_by_their_bits() {
    let pointer = (12.0f32, 9.0f32);
    let particles = [(0.0f32, 0.0f32), (10.0, 10.0), (20.0, 0.0), (10.0, 20.0)];
    let keys: Vec<u32> = particles
        .iter()
        .map(|p| {
            let d = (p.0 - pointer.0) * (p.0 - pointer.0) + (p.1 - pointer.1) * (p.1 - pointer.1);
            d.to_bits()
        })
        .collect();
    assert_eq!(pick(&keys, 400.0f32.to_bits()), Some(1));
    assert_eq!(pick(&keys, 5.0f32.to_bits()), None);
}

#[test]
fn press_selects_the_picked_particle() {
    assert_eq!(Selection::Idle.press(false, Some(7)), Selection::Dragging(7));
    assert_eq!(Selection::Dragging(2).press(false, Some(7)), Selection::Dragging(7));
}

#[test]
fn press_over_the_panel_selects_nothing() {
    assert_eq!(Selection::Idle.press(true, Some(7)), Selection::Idle);
    assert_eq!(Selection::Dragging(2).press(true, Some(7)), Selection::Dragging(2));
}

#[test]
fn press_out_of_reach_leaves_the_selection() {
    assert_eq!(Selection::Idle.press(false, None), Selection::Idle);
    assert_eq!(Selection::Dragging(2).press(false, None), Selection::Dragging(2));
}

#[test]
fn hold_drags_the_selected_particle() {
    assert_eq!(Selection::Dragging(3).hold(12), (Selection::Dragging(3), Some(3)));
    assert_eq!(Selection::Dragging(0).hold(12), (Selection::Dragging(0), Some(0)));
    assert_eq!(Selection::Dragging(11).hold(12), (Selection::Dragging(11), Some(11)));
}

#[test]
fn hold_drops_a_stale_selection() {
    assert_eq!(Selection::Dragging(12).hold(12), (Selection::Idle, None));
    assert_eq!(Selection::Dragging(40).hold(4), (Selection::Idle, None));
}

#[test]
fn hold_without_a_selection_drags_nothing() {
    assert_eq!(Selection::Idle.hold(12), (Selection::Idle, None));
}

#[test]
fn release_ends_the_drag() {
    assert_eq!(Selection::Dragging(3).release(), Selection::Idle);
    assert_eq!(Selection::Idle.release(), Selection::Idle);
}

#[test]
fn selected_names_the_particle() {
    assert_eq!(Selection::Idle.selected(), None);
    assert_eq!(Selection::Dragging(5).selected(), Some(5));
}
