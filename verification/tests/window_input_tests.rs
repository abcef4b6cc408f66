use rencache::window_input::{Button, WindowMode};

#[test]
fn window_mode_from_raw_maps_the_three_modes() {
    assert_eq!(WindowMode::from_raw(0), WindowMode::Normal);
    assert_eq!(WindowMode::from_raw(1), WindowMode::Maximized);
    assert_eq!(WindowMode::from_raw(2), WindowMode::Fullscreen);
}

#[test]
fn button_names() {
    assert_eq!(Button::Left.name(), "left");
    assert_eq!(Button::Middle.name(), "middle");
    assert_eq!(Button::Right.name(), "right");
    assert_eq!(Button::Unknown.name(), "?");
}
