use benilla_app::touch::{classify_role, over_ui, Fingers, Press, Role};

type Pos = (i32, i32);

fn press(id: u64, in_zone: bool, over_ui: bool, at: Pos) -> Press<Pos> {
    Press { id, in_zone, over_ui, kin: at }
}

fn roles(f: &Fingers<Pos>) -> Vec<(u64, Role)> {
    f.active().iter().map(|x| (x.id, x.role)).collect()
}

#[test]
fn role_order_is_stick_then_ui_then_look() {
    assert_eq!(classify_role(true, true, false, true), Role::Joystick);
    assert_eq!(classify_role(true, false, false, true), Role::Ui);
    assert_eq!(classify_role(false, true, false, true), Role::Ui);
    assert_eq!(classify_role(false, true, true, true), Role::Look);
    assert_eq!(classify_role(true, false, false, false), Role::Look);
    assert_eq!(classify_role(false, false, false, false), Role::Look);
}

#[test]
fn the_stick_wins_its_zone_even_over_a_ui_frame() {
    let mut f = Fingers::new();
    f.claim(&vec![press(1, true, true, (10, 700))], false);
    assert_eq!(roles(&f), vec![(1, Role::Joystick)]);
    assert_eq!(f.joystick_finger().map(|x| x.kin), Some((10, 700)));
}

#[test]
fn only_one_finger_holds_the_stick() {
    let mut f = Fingers::new();
    f.claim(
        &vec![press(1, true, false, (10, 700)), press(2, true, false, (20, 710)), press(3, true, true, (30, 720))],
        false,
    );
    assert_eq!(roles(&f), vec![(1, Role::Joystick), (2, Role::Look), (3, Role::Ui)]);
    f.claim(&vec![press(4, true, false, (40, 730))], false);
    assert_eq!(roles(&f)[3], (4, Role::Look));
}

#[test]
fn a_tracked_touch_is_never_reclassified() {
    let mut f = Fingers::new();
    f.claim(&vec![press(7, false, true, (500, 100))], false);
    f.claim(&vec![press(7, true, false, (10, 700)), press(7, false, false, (1, 1))], false);
    assert_eq!(roles(&f), vec![(7, Role::Ui)]);
    assert_eq!(f.find(7).map(|x| x.kin), Some((500, 100)));
    assert!(f.find(8).is_none());
}

#[test]
fn a_hidden_ui_takes_no_finger() {
    let mut f = Fingers::new();
    f.claim(&vec![press(1, false, true, (500, 100))], true);
    assert_eq!(roles(&f), vec![(1, Role::Look)]);
    assert!(f.has_role(Role::Look));
    assert!(!f.has_role(Role::Ui));
}

#[test]
fn publish_names_pointer_look_and_stick_fingers() {
    let mut f = Fingers::new();
    f.claim(
        &vec![
            press(1, false, true, (500, 100)),
            press(2, false, false, (600, 100)),
            press(3, true, false, (10, 700)),
            press(4, false, true, (700, 100)),
            press(5, false, false, (800, 100)),
        ],
        false,
    );
    let p = f.publish(&vec![1]);
    assert_eq!(p.pointer, Some(3));
    assert!(p.pointer_just_pressed);
    assert_eq!(p.look, vec![1, 4]);
    assert_eq!(p.joystick, Some(2));
    let p = f.publish(&vec![2, 3, 5]);
    assert!(!p.pointer_just_pressed);
}

#[test]
fn publish_with_nothing_down() {
    let f: Fingers<Pos> = Fingers::new();
    let p = f.publish(&vec![]);
    assert_eq!(p.pointer, None);
    assert!(!p.pointer_just_pressed);
    assert!(p.look.is_empty());
    assert_eq!(p.joystick, None);
}

#[test]
fn retire_reports_each_release_then_drops_the_finger() {
    let mut f = Fingers::new();
    f.claim(
        &vec![
            press(1, false, true, (500, 100)),
            press(2, false, false, (600, 100)),
            press(3, true, false, (10, 700)),
            press(4, false, true, (700, 100)),
            press(5, false, false, (800, 100)),
        ],
        false,
    );
    // 1 and 2 released, 3 cancelled (no longer pressed, no release), 4 and 5 still down.
    let r = f.retire(&vec![1, 2, 4, 5], &vec![1, 2]);
    assert_eq!(r.pointer_release, Some((500, 100)));
    assert_eq!(r.taps, vec![(600, 100)]);
    assert!(r.joystick_released);
    assert_eq!(roles(&f), vec![(4, Role::Ui), (5, Role::Look)]);
    assert!(f.joystick_finger().is_none());
    let r = f.retire(&vec![4, 5], &vec![]);
    assert_eq!(r.pointer_release, None);
    assert!(r.taps.is_empty());
    assert!(!r.joystick_released);
    assert_eq!(f.len(), 2);
}

#[test]
fn the_last_lifting_ui_finger_is_the_release_position() {
    let mut f = Fingers::new();
    f.claim(&vec![press(1, false, true, (1, 1)), press(2, false, true, (2, 2))], false);
    let r = f.retire(&vec![], &vec![]);
    assert_eq!(r.pointer_release, Some((2, 2)));
    assert_eq!(f.len(), 0);
}

#[test]
fn a_tap_inside_one_frame_keeps_both_halves() {
    let mut f = Fingers::new();
    f.claim(&vec![press(9, false, true, (300, 300))], false);
    let p = f.publish(&vec![9]);
    assert_eq!(p.pointer, Some(0));
    assert!(p.pointer_just_pressed);
    let r = f.retire(&vec![], &vec![9]);
    assert_eq!(r.pointer_release, Some((300, 300)));
    assert_eq!(f.len(), 0);
}

#[test]
fn the_stick_frees_up_once_its_finger_lifts() {
    let mut f = Fingers::new();
    f.claim(&vec![press(1, true, false, (10, 700))], false);
    f.retire(&vec![], &vec![1]);
    f.claim(&vec![press(2, true, false, (20, 720))], false);
    assert_eq!(roles(&f), vec![(2, Role::Joystick)]);
    assert_eq!(f.joystick_finger().map(|x| x.kin), Some((20, 720)));
}

#[test]
fn set_kin_moves_a_finger_without_changing_its_role() {
    let mut f = Fingers::new();
    f.claim(&vec![press(1, false, false, (0, 0)), press(2, true, false, (5, 5))], false);
    f.set_kin(0, (40, 40));
    assert_eq!(roles(&f), vec![(1, Role::Look), (2, Role::Joystick)]);
    assert_eq!(f.active()[0].kin, (40, 40));
    assert_eq!(f.active()[1].kin, (5, 5));
}

#[test]
fn clear_forgets_every_finger() {
    let mut f = Fingers::new();
    f.claim(&vec![press(1, true, false, (0, 0)), press(2, false, true, (5, 5))], false);
    f.clear();
    assert_eq!(f.len(), 0);
    assert!(f.joystick_finger().is_none());
}

#[test]
fn the_world_frame_does_not_count_as_ui() {
    assert!(over_ui(Some(false)));
    assert!(!over_ui(Some(true)));
    assert!(!over_ui(None));
}

#[test]
fn a_whole_frame_keeps_every_remaining_role() {
    let mut f = Fingers::new();
    f.claim(&vec![press(1, true, false, (10, 700)), press(2, false, true, (500, 100))], false);
    // Next frame: finger 3 lands in the zone while 1 still holds the stick; 2 is pressed again.
    f.claim(&vec![press(3, true, false, (20, 710)), press(2, true, false, (0, 0))], false);
    f.set_kin(0, (15, 690));
    f.set_kin(2, (25, 705));
    let r = f.retire(&vec![1, 3], &vec![]);
    assert_eq!(r.pointer_release, Some((500, 100)));
    assert!(!r.joystick_released);
    assert_eq!(roles(&f), vec![(1, Role::Joystick), (3, Role::Look)]);
    assert_eq!(f.find(1).map(|x| x.kin), Some((15, 690)));
}
