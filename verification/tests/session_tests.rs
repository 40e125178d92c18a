use shellshock_trainer::platform::{Cursor, Handle, Rect, VK};
use shellshock_trainer::session::{Mode, Session};

#[test]
fn rising_edge_fires_once_until_released() {
    let mut s = Session::new();
    let ev = s.observe_keys(true, false, false, false, false);
    assert!(ev.mark_source);
    // still held: no second fire
    let ev = s.observe_keys(true, false, false, false, false);
    assert!(!ev.mark_source);
    // released, then pressed again: fires again
    let ev = s.observe_keys(false, false, false, false, false);
    assert!(!ev.mark_source);
    let ev = s.observe_keys(true, false, false, false, false);
    assert!(ev.mark_source);
}

#[test]
fn buttons_edge_detect_independently() {
    let mut s = Session::new();
    let ev = s.observe_keys(true, true, false, false, false);
    assert!(ev.mark_source && ev.mark_target && !ev.solve && !ev.clear && !ev.toggle_mode);
    let ev = s.observe_keys(true, false, true, false, true);
    assert!(!ev.mark_source && !ev.mark_target && ev.solve && !ev.clear && ev.toggle_mode);
}

#[test]
fn mode_starts_at_velocity_and_toggles() {
    let mut s = Session::new();
    assert_eq!(s.get_mode(), Mode::Velocity);
    s.toggle_mode();
    assert_eq!(s.get_mode(), Mode::Angle);
    s.toggle_mode();
    assert_eq!(s.get_mode(), Mode::Velocity);
}

#[test]
fn solve_waits_for_both_marks() {
    let mut s = Session::new();
    assert!(!s.has_both_marks());
    assert!(s.get_marks().is_none());
    s.set_source(Cursor::new(10, 20));
    assert!(!s.has_both_marks());
    s.set_target(Cursor::new(30, 40));
    assert!(s.has_both_marks());
    let (from, to) = s.get_marks().unwrap();
    assert_eq!((from.get_x(), from.get_y()), (10, 20));
    assert_eq!((to.get_x(), to.get_y()), (30, 40));
}

#[test]
fn clearing_forgets_both_marks() {
    let mut s = Session::new();
    s.set_source(Cursor::new(1, 2));
    s.set_target(Cursor::new(3, 4));
    s.clear_marks();
    assert!(!s.has_both_marks());
    assert!(s.get_marks().is_none());
}

#[test]
fn remarking_overwrites_the_old_mark() {
    let mut s = Session::new();
    s.set_source(Cursor::new(1, 2));
    s.set_source(Cursor::new(5, 6));
    s.set_target(Cursor::new(3, 4));
    let (from, _) = s.get_marks().unwrap();
    assert_eq!((from.get_x(), from.get_y()), (5, 6));
}

struct ScriptedHandle {
    down: [bool; 5],
    rect: Rect,
    cursor: Cursor,
}

impl Handle for ScriptedHandle {
    fn is_key_pressed(&self, vk: VK) -> bool {
        let i = match vk {
            VK::Key1 => 0,
            VK::Key2 => 1,
            VK::Key3 => 2,
            VK::Key4 => 3,
            VK::Key5 => 4,
        };
        self.down[i]
    }

    fn get_window_rect(&self) -> Rect {
        Rect::new(self.rect.get_width(), self.rect.get_height())
    }

    fn get_mouse_position_in_window(&self) -> Cursor {
        Cursor::new(self.cursor.get_x(), self.cursor.get_y())
    }
}

#[test]
fn a_scripted_poll_cycle_drives_the_session() {
    let handle = ScriptedHandle {
        down: [true, false, false, false, false],
        rect: Rect::new(1768, 992),
        cursor: Cursor::new(123, 456),
    };
    let mut s = Session::new();
    let ev = s.observe_keys(
        handle.is_key_pressed(VK::Key1),
        handle.is_key_pressed(VK::Key2),
        handle.is_key_pressed(VK::Key3),
        handle.is_key_pressed(VK::Key4),
        handle.is_key_pressed(VK::Key5),
    );
    if ev.mark_source {
        s.set_source(handle.get_mouse_position_in_window());
    }
    let rect = handle.get_window_rect();
    assert_eq!(rect.get_width(), 1768);
    assert_eq!(rect.get_height(), 992);
    let src = s.get_marks();
    assert!(src.is_none()); // only the source is marked so far
    assert!(!s.has_both_marks());
}
