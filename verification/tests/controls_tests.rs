use rust_verlet::application::{scene_after_event, KEY_BACKQUOTE};
use rust_verlet::keyboard::KeyboardEvent;
use rust_verlet::mouse::{MouseButton, MouseButtonEvent, MouseButtons};

#[test]
fn backquote_moves_to_the_next_scene_and_wraps() {
    let press = KeyboardEvent::KeyDown(Some(KEY_BACKQUOTE));
    assert_eq!(scene_after_event(0, 2, press), 1);
    assert_eq!(scene_after_event(1, 2, press), 0);
    assert_eq!(scene_after_event(0, 1, press), 0);
    assert_eq!(scene_after_event(usize::MAX, 3, press), 1);
}

#[test]
fn other_events_and_no_scenes_keep_the_scene() {
    assert_eq!(scene_after_event(1, 2, KeyboardEvent::KeyUp(Some(KEY_BACKQUOTE))), 1);
    assert_eq!(scene_after_event(1, 2, KeyboardEvent::KeyDown(Some(122))), 1);
    assert_eq!(scene_after_event(1, 2, KeyboardEvent::KeyDown(None)), 1);
    assert_eq!(scene_after_event(1, 2, KeyboardEvent::Other), 1);
    assert_eq!(scene_after_event(4, 0, KeyboardEvent::KeyDown(Some(KEY_BACKQUOTE))), 4);
}

#[test]
fn left_pulls_and_right_cuts_while_held() {
    let mut b = MouseButtons::new();
    assert!(!b.left_button_down && !b.right_button_down);
    b.process_event(MouseButtonEvent::Down(MouseButton::Left));
    assert!(b.left_button_down && !b.right_button_down);
    b.process_event(MouseButtonEvent::Down(MouseButton::Right));
    assert!(b.left_button_down && b.right_button_down);
    b.process_event(MouseButtonEvent::Down(MouseButton::Middle));
    b.process_event(MouseButtonEvent::Other);
    assert!(b.left_button_down && b.right_button_down);
    b.process_event(MouseButtonEvent::Up(MouseButton::Left));
    assert!(!b.left_button_down && b.right_button_down);
    b.process_event(MouseButtonEvent::Up(MouseButton::Right));
    assert!(!b.left_button_down && !b.right_button_down);
}
