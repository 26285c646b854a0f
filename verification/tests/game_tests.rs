use raytrace::game::control::ControlSet;

const KEY_W: u32 = 22;
const KEY_S: u32 = 18;

#[test]
fn controls_track_presses_and_releases() {
    let mut set = ControlSet::new();
    set.add_control("forward", KEY_W);
    set.add_control("backward", KEY_S);
    assert!(!set.is_held("forward"));
    assert!(!set.is_held("unknown"));

    set.tick();
    set.on_pressed(KEY_W);
    assert!(set.is_held("forward"));
    assert!(set.is_pressed("forward"));
    assert!(!set.is_released("forward"));
    assert!(!set.is_held("backward"));

    set.tick();
    assert!(set.is_held("forward"));
    assert!(!set.is_pressed("forward"));

    set.on_released(KEY_W);
    assert!(!set.is_held("forward"));
    assert!(set.is_released("forward"));

    set.tick();
    assert!(!set.is_released("forward"));
    // A key that is bound to nothing changes nothing.
    set.on_pressed(99);
    assert!(!set.is_held("forward") && !set.is_held("backward"));
}

#[test]
fn rebinding_a_name_points_it_at_the_new_control() {
    let mut set = ControlSet::new();
    set.add_control("jump", 1);
    set.add_control("jump", 2);
    set.on_pressed(1);
    assert!(!set.is_held("jump"));
    set.on_pressed(2);
    assert!(set.is_held("jump"));
}
