use emergency_backup::activation::{Action, DetectionState};
use emergency_backup::input::{generate_path, Area, Coordinate, Shape, Status, Tracker};

fn pt(x: i32, y: i32) -> Coordinate {
    Coordinate { x, y }
}

fn centre(a: &Area) -> Coordinate {
    pt((a.top_left.x + a.bottom_right.x) / 2, (a.top_left.y + a.bottom_right.y) / 2)
}

fn rect(x0: i32, y0: i32, x1: i32, y1: i32) -> Area {
    Area::new(pt(x0, y0), pt(x1, y1))
}

#[test]
fn area_contains_is_inclusive() {
    let a = rect(0, 0, 10, 20);
    assert!(a.contains(&pt(0, 0)));
    assert!(a.contains(&pt(10, 20)));
    assert!(a.contains(&pt(5, 7)));
    assert!(!a.contains(&pt(11, 5)));
    assert!(!a.contains(&pt(5, -1)));
    assert!(!a.contains(&pt(-1, 21)));
}

#[test]
fn activation_path_cells_on_full_hd() {
    // cell 135, extra cells (1920 - 1080) / 135 = 6
    let p = generate_path(1920, 1080, Shape::Activation);
    assert_eq!(p.len(), 8 + 13 + 7 + 12);
    assert_eq!(p[0], rect(-100, 0, 135, 135));
    assert_eq!(p[6], rect(-100, 810, 135, 945));
    assert_eq!(p[7], rect(-100, 945, 135, 1180));
    assert_eq!(p[8], rect(135, 945, 270, 1180));
    assert_eq!(p[20], rect(1755, 945, 2020, 1180));
    assert_eq!(p[21], rect(1785, 810, 2020, 945));
    assert_eq!(p[27], rect(1785, -100, 2020, 135));
    assert_eq!(p[28], rect(1650, -100, 1785, 135));
    assert_eq!(p[39], rect(135, -100, 300, 135));
}

#[test]
fn confirmation_path_cells_on_full_hd() {
    let p = generate_path(1920, 1080, Shape::Confirmation);
    assert_eq!(p.len(), 14);
    assert_eq!(p[0], rect(0, 270, 135, 810));
    assert_eq!(p[12], rect(1620, 270, 1755, 810));
    assert_eq!(p[13], rect(1755, 270, 1920, 810));
}

#[test]
fn square_screen_paths() {
    // cell 100, no extra cells
    let a = generate_path(800, 800, Shape::Activation);
    assert_eq!(a.len(), 28);
    assert_eq!(a[14], rect(700, 700, 900, 900));
    assert_eq!(a[27], rect(100, -100, 200, 100));
    let c = generate_path(800, 800, Shape::Confirmation);
    assert_eq!(c.len(), 8);
    assert_eq!(c[7], rect(700, 200, 800, 600));
}

#[test]
fn generation_is_deterministic() {
    for shape in [Shape::Activation, Shape::Confirmation] {
        let a = generate_path(1366, 768, shape);
        let b = generate_path(1366, 768, shape);
        assert_eq!(a, b);
    }
    assert_ne!(
        generate_path(1366, 768, Shape::Activation),
        generate_path(1366, 768, Shape::Confirmation)
    );
}

fn walk(t: &mut Tracker, path: &[Area]) -> Vec<Status> {
    path[1..].iter().map(|a| t.update(centre(a))).collect()
}

#[test]
fn ordered_walk_completes_once_at_the_end() {
    let mut t = Tracker::new(1920, 1080);
    let act = generate_path(1920, 1080, Shape::Activation);
    assert_eq!(t.update(centre(&act[0])), Status::InsideCurrentArea);
    let st = walk(&mut t, &act);
    assert_eq!(st.len(), act.len() - 1);
    for s in &st[..st.len() - 1] {
        assert_eq!(*s, Status::InsideNextArea);
    }
    assert_eq!(st[st.len() - 1], Status::ActivationShapeCompleted);

    let conf = generate_path(1920, 1080, Shape::Confirmation);
    let st = walk(&mut t, &conf);
    for s in &st[..st.len() - 1] {
        assert_eq!(*s, Status::InsideNextArea);
    }
    assert_eq!(st[st.len() - 1], Status::ConfirmationShapeCompleted);

    // back on the activation shape
    let st = walk(&mut t, &act);
    assert_eq!(st[st.len() - 1], Status::ActivationShapeCompleted);
}

#[test]
fn off_path_point_restarts() {
    let mut t = Tracker::new(1920, 1080);
    let act = generate_path(1920, 1080, Shape::Activation);
    for a in &act[1..20] {
        assert_eq!(t.update(centre(a)), Status::InsideNextArea);
    }
    assert_eq!(t.update(pt(960, 540)), Status::OutsideBoundaries);
    // progress is gone: the twenty-first region is no longer next
    assert_eq!(t.update(centre(&act[20])), Status::OutsideBoundaries);
    assert_eq!(t.update(centre(&act[0])), Status::InsideCurrentArea);
    assert_eq!(t.update(centre(&act[1])), Status::InsideNextArea);
}

#[test]
fn skipping_a_region_restarts() {
    let mut t = Tracker::new(1920, 1080);
    let act = generate_path(1920, 1080, Shape::Activation);
    assert_eq!(t.update(centre(&act[2])), Status::OutsideBoundaries);
}

#[test]
fn coordinator_arms_then_backs_up_once() {
    let mut d = DetectionState::new();
    assert!(!d.is_armed());
    assert_eq!(d.handle(Status::ConfirmationShapeCompleted), Action::Nothing);
    assert_eq!(d.handle(Status::ActivationShapeCompleted), Action::NotifyActivation);
    assert!(d.is_armed());
    assert_eq!(d.handle(Status::ActivationShapeCompleted), Action::Nothing);
    assert_eq!(d.handle(Status::InsideNextArea), Action::Nothing);
    assert_eq!(d.handle(Status::ConfirmationShapeCompleted), Action::StartBackup);
    assert!(!d.is_armed());
    assert_eq!(d.handle(Status::ConfirmationShapeCompleted), Action::Nothing);
}

#[test]
fn coordinator_direct_handlers() {
    let mut d = DetectionState::new();
    assert!(!d.handle_confirmation());
    assert!(d.handle_activation());
    assert!(!d.handle_activation());
    assert!(d.handle_confirmation());
    assert!(!d.handle_confirmation());
}
