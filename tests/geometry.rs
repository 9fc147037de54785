use tlc::geometry::{isqrt, Circle, Point, Quad};
use tlc::plate::{
    classify_angle, corner_pairs, corners_or_default, downscale_exponent, propose_destination,
    LineOrientation, ANGLE_TOLERANCE, DETECTION_SIZE,
};

#[test]
fn test_destination_proposal() {
    let given = Quad::from_simple_vec(vec![1728, 3710, 155, 3710, 131, 819, 1720, 819]);
    let (when, _, _) = propose_destination(&given);
    let then: [(i64, i64); 4] = [(0, 0), (1588, 0), (1588, 2890), (0, 2890)];
    assert!(when.iter().zip(then.iter()).all(|(a, b)| a.0 == b.0 && a.1 == b.1));
}

#[test]
fn test_destination_proposal_angled() {
    let given = Quad::from_simple_vec(vec![1703, 3645, 196, 3710, 147, 892, 1712, 843]);
    let (when, _, _) = propose_destination(&given);
    let then: [(i64, i64); 4] = [(0, 0), (1564, 0), (1564, 2817), (0, 2817)];
    assert!(when.iter().zip(then.iter()).all(|(a, b)| a.0 == b.0 && a.1 == b.1));
}

#[test]
fn destination_reports_width_and_height() {
    let given = Quad::from_simple_vec(vec![1728, 3710, 155, 3710, 131, 819, 1720, 819]);
    let (_, w, h) = propose_destination(&given);
    assert_eq!((w, h), (1589, 2891));
}

fn rect_quad(l: i64, t: i64, r: i64, b: i64) -> Quad {
    Quad {
        top_left: Point { x: l, y: t },
        top_right: Point { x: r, y: t },
        bottom_right: Point { x: r, y: b },
        bottom_left: Point { x: l, y: b },
    }
}

#[test]
fn rectangle_corners_in_any_order_give_same_quad() {
    let corners = [(10, 20), (110, 20), (110, 70), (10, 70)];
    let orders: [[usize; 4]; 6] = [
        [0, 1, 2, 3],
        [3, 2, 1, 0],
        [2, 0, 3, 1],
        [1, 3, 0, 2],
        [2, 3, 0, 1],
        [0, 2, 1, 3],
    ];
    for order in orders.iter() {
        let mut coords: Vec<i32> = Vec::new();
        for &k in order.iter() {
            coords.push(corners[k].0);
            coords.push(corners[k].1);
        }
        let q = Quad::from_simple_vec(coords);
        assert_eq!(q, rect_quad(10, 20, 110, 70));
        assert_eq!(q.dimensions(), (100, 50));
        assert!(q.aspect_ratio_within(2000, 2000));
        assert!(!q.aspect_ratio_within(2001, 3000));
    }
}

#[test]
fn quad_ties_on_y_keep_input_order() {
    let q = Quad::from_simple_vec(vec![5, 0, 5, 0, 1, 9, 7, 9]);
    assert_eq!(q.top_left, Point { x: 5, y: 0 });
    assert_eq!(q.top_right, Point { x: 5, y: 0 });
    assert_eq!(q.bottom_left, Point { x: 1, y: 9 });
    assert_eq!(q.bottom_right, Point { x: 7, y: 9 });
}

#[test]
fn quad_simple_vec_round_trip() {
    let q = rect_quad(3, 4, 13, 24);
    let v = q.to_simple_vec();
    assert_eq!(v, vec![3, 4, 13, 4, 13, 24, 3, 24]);
    assert_eq!(Quad::from_simple_vec(v), q);
    assert_eq!(q.to_tuple_vec(), vec![(3, 4), (13, 4), (13, 24), (3, 24)]);
}

#[test]
fn aspect_ratio_of_flat_quad_is_rejected() {
    let q = rect_quad(0, 5, 10, 5);
    assert_eq!(q.dimensions(), (10, 0));
    assert!(!q.aspect_ratio_within(0, 1_000_000));
}

#[test]
fn circle_to_quad_and_back() {
    let c = Circle::new(50, 40, 6);
    assert_eq!(c.to_quad(), rect_quad(44, 34, 56, 46));
    assert_eq!(c.to_tuples(), (50, 40, 6));
    let v = c.to_simple_vec();
    assert_eq!(v, vec![50, 40, 6]);
    assert_eq!(Circle::from_simple_vec(v), c);
}

#[test]
fn circle_simple_vec_saturates() {
    let c = Circle::new(5_000_000_000, -5_000_000_000, 1);
    assert_eq!(c.to_simple_vec(), vec![i32::MAX, i32::MIN, 1]);
}

#[test]
fn integer_square_root() {
    assert_eq!(isqrt(0), 0);
    assert_eq!(isqrt(1), 1);
    assert_eq!(isqrt(15), 3);
    assert_eq!(isqrt(16), 4);
    assert_eq!(isqrt(u128::MAX), u64::MAX as u128);
}

#[test]
fn downscale_exponent_halves_until_small() {
    assert_eq!(downscale_exponent(4000, 3000, DETECTION_SIZE), 4);
    assert_eq!(downscale_exponent(100, 100, DETECTION_SIZE), 1);
    assert_eq!(downscale_exponent(512, 513, DETECTION_SIZE), 1);
    assert_eq!(downscale_exponent(1024, 513, DETECTION_SIZE), 2);
    assert_eq!(downscale_exponent(u32::MAX, u32::MAX, 0), 32);
}

#[test]
fn fallback_corners_are_inset_by_a_tenth() {
    let q = corners_or_default(None, 1000, 500);
    assert_eq!(q, rect_quad(100, 50, 900, 450));
    let found = rect_quad(1, 2, 3, 4);
    assert_eq!(corners_or_default(Some(found), 1000, 500), found);
}

#[test]
fn line_angles_are_classified() {
    assert_eq!(classify_angle(90, ANGLE_TOLERANCE), LineOrientation::Horizontal);
    assert_eq!(classify_angle(88, ANGLE_TOLERANCE), LineOrientation::Horizontal);
    assert_eq!(classify_angle(93, ANGLE_TOLERANCE), LineOrientation::Oblique);
    assert_eq!(classify_angle(0, ANGLE_TOLERANCE), LineOrientation::Vertical);
    assert_eq!(classify_angle(179, ANGLE_TOLERANCE), LineOrientation::Vertical);
    assert_eq!(classify_angle(45, ANGLE_TOLERANCE), LineOrientation::Oblique);
}

#[test]
fn corner_pairs_follow_dominant_axis() {
    assert_eq!(corner_pairs(200, 100), [(0, 1), (2, 3)]);
    assert_eq!(corner_pairs(100, 200), [(0, 3), (1, 2)]);
}
