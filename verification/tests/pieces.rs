use lilah::components::{Animator, Sprite, Text};
use lilah::input::{BindingInfo, Input, InputInfo};
use lilah::math::Vec2;
use lilah::time::Timer;

#[test]
fn vector_arithmetic() {
    let a = Vec2::new(3, 4);
    let b = Vec2::new(-2, 5);
    assert_eq!(a.add(b), Vec2::new(1, 9));
    assert_eq!(a.sub(b), Vec2::new(5, -1));
    assert_eq!(Vec2::dot(a, b), 14);
    assert_eq!(Vec2::cross(a, b), 23);
    assert_eq!(Vec2::perp(a), Vec2::new(4, -3));
    assert_eq!(a.magnitude_sqr(), 25);
    assert_eq!(a.scale(3), Vec2::new(9, 12));
    assert_eq!(a.neg(), Vec2::new(-3, -4));
}

#[test]
fn sprite_sheet_cut_and_cell_pointing() {
    let mut s = Sprite::new("sheet.png");
    s.base_size = (64, 64);
    s.cut_sprite_sheet(0, 0, 4, 4);
    assert_eq!(s.get_size(), (16, 16));
    s.anim_sprite_sheet(2, 3);
    assert_eq!(s.index, (32, 48));
}

#[test]
fn sprite_sort_flag_reads_once() {
    let mut s = Sprite::new("sheet.png");
    s.set_sort(7);
    assert_eq!(s.get_sort(), 7);
    assert!(s.check_dirty());
    assert!(!s.check_dirty());
}

#[test]
fn text_load_requests_rasterize_only_when_known_font_changed() {
    let mut t = Text::new("hello", "font.ttf");
    let expected_texture = t.texture_id.clone();
    let fonts = vec!["font.ttf".to_string()];
    let (_, request) = t.load(&fonts);
    assert_eq!(request, Some(expected_texture));
    let (_, again) = t.load(&fonts);
    assert_eq!(again, None);
    t.set_text("changed");
    let no_fonts: Vec<String> = vec![];
    let (_, missing) = t.load(&no_fonts);
    assert_eq!(missing, None);
    assert!(!t.changed);
}

#[test]
fn text_setters_mark_changed() {
    let mut t = Text::new("hello", "font.ttf");
    let fonts = vec!["font.ttf".to_string()];
    let _ = t.load(&fonts);
    t.set_font_size(32);
    assert_eq!(t.get_font_size(), 32);
    assert!(t.changed);
}

#[test]
fn animator_states_and_wrap() {
    let mut a = Animator::new()
        .with("run", 4, 1)
        .at_speed(1000000)
        .build_playing();
    a.set_state("run");
    assert_eq!(a.get_state(), "run");
    a.set_state("missing");
    assert_eq!(a.get_state(), "run");
    // one displayed frame is a million micro-frames; at this speed one
    // microsecond of tick advances one frame
    a.update(3);
    assert_eq!(a.current_frame, 3000000);
    // past the state's frame count the head wraps to zero
    a.update(2);
    assert_eq!(a.current_frame, 0);
}

#[test]
fn animator_points_sprite_at_current_cell() {
    let mut a = Animator::new().with("run", 4, 3).at_speed(1000000).build_playing();
    a.set_state("run");
    a.current_frame = 2000000;
    let mut s = Sprite::new("sheet.png");
    s.base_size = (64, 64);
    s.cut_sprite_sheet(0, 0, 4, 4);
    a.update_sprite(&mut s);
    assert_eq!(s.index, (32, 48));
}

#[test]
fn input_mappings_and_bindings() {
    let mut inp = Input::new();
    inp.update_mapping(10, InputInfo { pressed: true, pressed_down: true });
    inp.update_mapping(20, InputInfo { pressed: false, pressed_down: false });
    assert!(inp.get_key(10));
    assert!(!inp.get_key(20));
    assert!(!inp.get_key(99));
    // the went-down flag is consumed by the first read
    assert!(inp.get_key_down(10));
    assert!(!inp.get_key_down(10));
    assert!(inp.get_key(10));

    inp.update_binding("walk", BindingInfo { positive: 10, negative: 20 });
    assert_eq!(inp.bind_to_axis(&"walk".to_string()), 1);
    inp.update_mapping(20, InputInfo { pressed: true, pressed_down: true });
    assert_eq!(inp.bind_to_axis(&"walk".to_string()), 0);
    inp.update_mapping(10, InputInfo { pressed: false, pressed_down: false });
    assert_eq!(inp.bind_to_axis(&"walk".to_string()), -1);
    assert_eq!(inp.bind_to_axis(&"unbound".to_string()), 0);
    let v = inp.bind_to_2d(&"walk".to_string(), &"unbound".to_string());
    assert_eq!(v, Vec2::new(-1, 0));
}

#[test]
fn timer_accounts_frames() {
    let mut t = Timer::new();
    t.capture(16000);
    assert_eq!(t.delta_time, 16000);
    assert_eq!(t.fps(), 62);
    assert_eq!(t.delta_time_scaled(), 16000);
    t.capture(48000);
    // the scaled step is clamped to the budget ceiling
    assert_eq!(t.delta_time_scaled(), 32000);
    assert_eq!(t.time(), 64000);
    assert_eq!(t.smooth_delta_time, 32000);
}

#[test]
fn timer_fps_zero_before_first_frame() {
    let t = Timer::new();
    assert_eq!(t.fps(), 0);
}
