use ellipse_fit::point::COORD_LIMIT;
use ellipse_fit::pose::FRAME_SCALE;
use ellipse_fit::{Frame, GeometryError, Nearby, Point, Pose};

const S: i64 = FRAME_SCALE;

fn frame(a: [i64; 3], b: [i64; 3], c: [i64; 3]) -> Frame {
    Frame::new(
        Point::new(a[0], a[1], a[2]),
        Point::new(b[0], b[1], b[2]),
        Point::new(c[0], c[1], c[2]),
    )
    .unwrap()
}

/// The basis of a pose looking along (1, 1, 1) with no roll.
fn diagonal_frame() -> Frame {
    frame(
        [759_250_125, -759_250_125, 0],
        [619_925_131, 619_925_131, 619_925_131],
        [-438_353_264, -438_353_264, 876_706_528],
    )
}

/// The angles of a pose looking along (1, 1, 1): yaw pi/4, pitch atan(1/sqrt 2).
fn diagonal(roll: i64) -> Pose {
    Pose::new(Point::new(0, 0, 0), 785_398, roll, 615_480)
}

#[test]
fn scaled() {
    assert!(Pose::from_pos(Point::new(1_000_000, 1_000_000, 2_000_000))
        .scaled(-3)
        .pos
        .near(&Point::new(-3_000_000, -3_000_000, -6_000_000), 1));
}

#[test]
fn scaled_keeps_angles() {
    let p = Pose::from_numbers(2, 1, 3, 10, 20, 30).scaled(4);
    assert_eq!(p, Pose::new(Point::new(4, 8, 12), 10, 20, 30));
}

#[test]
fn chain_poses_orientation_identity_left() {
    let pose1 = Pose::from_pos(Point::new(0, 0, 0));
    let pose2 = diagonal(0);
    assert!(pose1.chain(&pose2, &Frame::identity()).like(&diagonal(0), 1));
}

#[test]
fn chain_poses_orientation_identity_right() {
    let pose1 = diagonal(0);
    let pose2 = Pose::from_pos(Point::new(0, 0, 0));
    assert!(pose1.chain(&pose2, &diagonal_frame()).like(&diagonal(0), 1));
}

#[test]
fn chain_poses_orientation_identity_roll() {
    let pose1 = diagonal(1_000_000);
    let pose2 = Pose::new(Point::new(0, 0, 0), 0, 2_000_000, 0);
    let f = frame(
        [779_086_146, -41_363_040, -737_723_106],
        [619_925_131, 619_925_131, 619_925_131],
        [402_043_671, -875_730_230, 473_686_559],
    );
    assert!(pose1.chain(&pose2, &f).like(&diagonal(3_000_000), 1));
}

#[test]
fn chain_poses_orientation_identity_offsets_1() {
    // Parent looks along +x: yaw pi/2.
    let pose1 = Pose::new(Point::new(0, 0, 0), 1_570_796, 0, 0);
    let f = frame([0, -S, 0], [S, 0, 0], [0, 0, S]);
    let pose2 = diagonal(0).with_dist(1_000_000);
    // Expected: looking along (1, -1, 1), shifted by one unit.
    let expected = Pose::new(Point::new(0, 0, 0), 2_356_194, 0, 615_480).with_shift(1_000_000);
    assert!(pose1.chain(&pose2, &f).like(&expected, 1));
}

#[test]
fn chain_poses_orientation_identity_offsets_2() {
    // Parent looks along (1, 1, 0): yaw pi/4.
    let pose1 = Pose::new(Point::new(0, 0, 0), 785_398, 0, 0);
    let f = frame([759_250_125, -759_250_125, 0], [759_250_125, 759_250_125, 0], [0, 0, S]);
    // Child looks straight up, sqrt(2) units ahead.
    let pose2 = Pose::new(Point::new(0, 0, 0), 0, 0, 1_570_796).with_dist(1_414_214);
    let r = pose1.chain(&pose2, &f);
    assert!(r.pos.near(&Point::new(1_000_000, 1_000_000, 0), 1));
    assert_eq!((r.yaw, r.roll, r.pitch), (785_398, 0, 1_570_796));
}

#[test]
fn chain_poses_orientation_identity_offsets_3() {
    // Parent looks ahead, rolled by pi.
    let pose1 = Pose::new(Point::new(0, 0, 0), 0, 3_141_593, 0);
    let f = frame([-S, 0, 0], [0, S, 0], [0, 0, -S]);
    let pose2 = Pose::from_pos(Point::new(0, 0, 0)).with_shift(1_000_000);
    let expected = Pose::new(Point::new(0, 0, 0), 0, 3_141_593, 0).with_shift(-1_000_000);
    assert!(pose1.chain(&pose2, &f).like(&expected, 1));
}

#[test]
fn chain_poses_orientation_identity_offsets_4() {
    // Parent looks along (1, 1, 0), rolled by pi.
    let pose1 = Pose::new(Point::new(0, 0, 0), 785_398, 3_141_593, 0);
    let f = frame([-759_250_125, 759_250_125, 0], [759_250_125, 759_250_125, 0], [0, 0, -S]);
    let pose2 = Pose::new(Point::new(0, 0, 0), 0, 0, 1_570_796).with_dist(1_414_214);
    let r = pose1.chain(&pose2, &f);
    assert!(r.pos.near(&Point::new(1_000_000, 1_000_000, 0), 1));
    assert_eq!((r.yaw, r.roll, r.pitch), (785_398, 3_141_593, 1_570_796));
}

#[test]
fn chain_adds_parent_position() {
    let parent = Pose::from_numbers(5, 6, 7, 1, 2, 3);
    let child = Pose::from_numbers(1, 2, 3, 10, 20, 30);
    let r = parent.chain(&child, &Frame::identity());
    assert_eq!(r, Pose::new(Point::new(8, 6, 10), 11, 22, 33));
}

#[test]
fn chain_identity_child_keeps_parent() {
    let parent = Pose::from_numbers(5, -6, 7, 100, -200, 300);
    let child = Pose::from_pos(Point::new(0, 0, 0));
    let f = frame([S, 0, 0], [0, -S, S / 2], [1, 2, 3]);
    assert_eq!(parent.chain(&child, &f), parent);
}

#[test]
fn chain_rounds_through_frame() {
    // Half scale: 3 steps map to 1.5, rounded up to 2.
    let f = frame([S / 2, 0, 0], [0, S / 2, 0], [0, 0, S / 2]);
    let r = Pose::from_pos(Point::new(0, 0, 0)).chain(&Pose::from_pos(Point::new(3, -3, 4)), &f);
    assert_eq!(r.pos, Point::new(2, -1, 2));
}

#[test]
fn frame_rejects_long_axes() {
    let ok = Point::new(S, 0, 0);
    assert!(Frame::new(ok, ok, Point::new(0, -S - 1, 0)).is_none());
    assert!(Frame::new(ok, ok, ok).is_some());
    assert_eq!(Frame::new(Point::new(S, 0, 0), Point::new(0, S, 0), Point::new(0, 0, S)), Some(Frame::identity()));
}

#[test]
fn pose_from_numbers_axis_order() {
    let p = Pose::from_numbers(1, 2, 3, 4, 5, 6);
    assert_eq!((p.dist(), p.shift(), p.height()), (1, 2, 3));
    assert_eq!((p.yaw, p.roll, p.pitch), (4, 5, 6));
}

#[test]
fn pose_with_fields() {
    let p = Pose::from_numbers(1, 2, 3, 4, 5, 6);
    assert_eq!(p.with_shift(9), Pose::from_numbers(1, 9, 3, 4, 5, 6));
    assert_eq!(p.with_dist(9), Pose::from_numbers(9, 2, 3, 4, 5, 6));
    assert_eq!(p.with_height(9), Pose::from_numbers(1, 2, 9, 4, 5, 6));
    assert_eq!(p.with_yaw(9), Pose::from_numbers(1, 2, 3, 9, 5, 6));
    assert_eq!(p.with_roll(9), Pose::from_numbers(1, 2, 3, 4, 9, 6));
    assert_eq!(p.with_pitch(9), Pose::from_numbers(1, 2, 3, 4, 5, 9));
    assert_eq!(p.with_pos(Point::new(7, 8, 9)), Pose::from_numbers(8, 7, 9, 4, 5, 6));
    assert_eq!(p, Pose::from_numbers(1, 2, 3, 4, 5, 6));
}

#[test]
fn pose_like_checks_every_part() {
    let p = Pose::from_numbers(0, 0, 0, 0, 0, 0);
    assert!(p.like(&Pose::from_numbers(3, 4, 0, 0, 0, 0), 5));
    assert!(!p.like(&Pose::from_numbers(3, 4, 0, 0, 0, 0), 4));
    assert!(!p.like(&p.with_yaw(6), 5));
    assert!(!p.like(&p.with_roll(-6), 5));
    assert!(!p.like(&p.with_pitch(6), 5));
    assert!(p.like(&p.with_pitch(-5), 5));
    assert!(!p.like(&p, -1));
}

#[test]
fn try_chain_matches_chain() {
    let parent = Pose::from_numbers(5, 6, 7, 1, 2, 3);
    let child = Pose::from_numbers(1, 2, 3, 10, 20, 30);
    let f = frame([0, -S, 0], [S, 0, 0], [0, 0, S]);
    assert_eq!(parent.try_chain(&child, &f), Ok(parent.chain(&child, &f)));
    assert_eq!(parent.chain(&child, &f), Pose::new(Point::new(7, 3, 10), 11, 22, 33));
}

#[test]
fn try_chain_reports_overflow() {
    let far = Pose::from_pos(Point::new(i64::MAX, 0, 0));
    let step = Pose::from_pos(Point::new(1, 0, 0));
    assert_eq!(far.try_chain(&step, &Frame::identity()), Err(GeometryError::OutOfRange));
    let turned = Pose::new(Point::new(0, 0, 0), i64::MAX, 0, 0);
    let more = Pose::new(Point::new(0, 0, 0), 1, 0, 0);
    assert_eq!(turned.try_chain(&more, &Frame::identity()), Err(GeometryError::OutOfRange));
    let beyond = Pose::from_pos(Point::new(0, COORD_LIMIT + 1, 0));
    assert_eq!(step.try_chain(&beyond, &Frame::identity()), Err(GeometryError::OutOfRange));
}
