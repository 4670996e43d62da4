use piston_tutorial::input::{Button, Controls, Key, MouseButton};

const ARROWS: [Key; 4] = [Key::Up, Key::Down, Key::Left, Key::Right];

fn held(c: &Controls) -> Vec<Key> {
    ARROWS.iter().copied().filter(|k| c.is_held(*k)).collect()
}

#[test]
fn new_holds_nothing() {
    let c = Controls::new();
    assert_eq!(held(&c), vec![]);
    assert!(!c.is_held(Key::Other));
    assert_eq!(c.moves(), vec![]);
}

#[test]
fn press_holds_each_arrow() {
    for k in ARROWS {
        let mut c = Controls::new();
        c.on_press(k);
        assert_eq!(held(&c), vec![k]);
    }
}

#[test]
fn other_key_is_ignored() {
    let mut c = Controls::new();
    c.on_press(Key::Left);
    c.on_press(Key::Other);
    assert_eq!(held(&c), vec![Key::Left]);
    assert!(!c.is_held(Key::Other));
    c.on_release(Key::Other);
    assert_eq!(held(&c), vec![Key::Left]);
}

#[test]
fn release_clears_only_that_key() {
    let mut c = Controls::new();
    c.on_press(Key::Up);
    c.on_press(Key::Right);
    c.on_release(Key::Up);
    assert_eq!(held(&c), vec![Key::Right]);
    c.on_release(Key::Down);
    assert_eq!(held(&c), vec![Key::Right]);
}

#[test]
fn press_then_release_leaves_no_trace() {
    let mut a = Controls::new();
    a.on_press(Key::Down);
    let mut b = Controls::new();
    b.on_press(Key::Down);
    a.on_press(Key::Left);
    a.on_release(Key::Left);
    b.on_release(Key::Left);
    assert_eq!(held(&a), held(&b));
    assert_eq!(held(&a), vec![Key::Down]);
}

#[test]
fn release_then_press_holds_key() {
    let mut c = Controls::new();
    c.on_press(Key::Up);
    c.on_release(Key::Up);
    c.on_press(Key::Up);
    assert_eq!(held(&c), vec![Key::Up]);
}

#[test]
fn press_twice_same_as_once() {
    let mut c = Controls::new();
    c.on_press(Key::Right);
    c.on_press(Key::Right);
    assert_eq!(held(&c), vec![Key::Right]);
    c.on_release(Key::Right);
    assert_eq!(held(&c), vec![]);
}

#[test]
fn distinct_keys_commute() {
    let mut a = Controls::new();
    a.on_press(Key::Up);
    a.on_press(Key::Left);
    let mut b = Controls::new();
    b.on_press(Key::Left);
    b.on_press(Key::Up);
    assert_eq!(held(&a), held(&b));
}

#[test]
fn moves_come_up_down_left_right() {
    let mut c = Controls::new();
    c.on_press(Key::Right);
    c.on_press(Key::Left);
    c.on_press(Key::Down);
    c.on_press(Key::Up);
    assert_eq!(c.moves(), vec![Key::Up, Key::Down, Key::Left, Key::Right]);
    c.on_release(Key::Down);
    assert_eq!(c.moves(), vec![Key::Up, Key::Left, Key::Right]);
}

#[test]
fn keyboard_button_press_and_release() {
    let mut c = Controls::new();
    c.on_button_press(Button::Keyboard(Key::Left));
    assert_eq!(held(&c), vec![Key::Left]);
    let fire = c.on_button_release(Button::Keyboard(Key::Left));
    assert!(!fire);
    assert_eq!(held(&c), vec![]);
}

#[test]
fn left_mouse_release_fires_and_keeps_keys() {
    let mut c = Controls::new();
    c.on_press(Key::Up);
    c.on_button_press(Button::Mouse(MouseButton::Left));
    assert_eq!(held(&c), vec![Key::Up]);
    assert!(c.on_button_release(Button::Mouse(MouseButton::Left)));
    assert_eq!(held(&c), vec![Key::Up]);
}

#[test]
fn other_buttons_do_not_fire() {
    let mut c = Controls::new();
    c.on_press(Key::Down);
    for b in [
        Button::Mouse(MouseButton::Right),
        Button::Mouse(MouseButton::Middle),
        Button::Mouse(MouseButton::Other),
        Button::Other,
        Button::Keyboard(Key::Other),
    ] {
        c.on_button_press(b);
        assert!(!c.on_button_release(b));
        assert_eq!(held(&c), vec![Key::Down]);
    }
}
