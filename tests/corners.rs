use tlc::corners::{assemble_corners, average_corners, nearest_corner, SUBPIXEL};
use tlc::geometry::{Point, Quad};

fn sp(x: i64, y: i64) -> Point {
    Point { x: x * SUBPIXEL, y: y * SUBPIXEL }
}

#[test]
fn intersections_go_to_nearest_image_corner() {
    assert_eq!(nearest_corner(sp(1, 2), 100, 50), 0);
    assert_eq!(nearest_corner(sp(90, 3), 100, 50), 1);
    assert_eq!(nearest_corner(sp(99, 49), 100, 50), 2);
    assert_eq!(nearest_corner(sp(2, 45), 100, 50), 3);
    // equally near the top corners: the first one wins
    assert_eq!(nearest_corner(sp(50, 0), 100, 50), 0);
    // equally near all four: still the first
    assert_eq!(nearest_corner(sp(50, 25), 100, 50), 0);
}

#[test]
fn corner_positions_are_floored_means() {
    let pts = vec![sp(1, 1), sp(2, 4), Point { x: 1, y: 0 }, sp(95, 45)];
    let avg = average_corners(&pts, 100, 50);
    assert_eq!(avg.len(), 4);
    let x = (SUBPIXEL + 2 * SUBPIXEL + 1) / 3;
    let y = (SUBPIXEL + 4 * SUBPIXEL) / 3;
    assert_eq!(avg[0], Some(Point { x, y }));
    assert_eq!(avg[1], None);
    assert_eq!(avg[2], Some(sp(95, 45)));
    assert_eq!(avg[3], None);
}

#[test]
fn all_four_corners_assemble_into_upscaled_quad() {
    let averaged = vec![Some(sp(5, 4)), Some(sp(95, 6)), Some(sp(94, 46)), Some(sp(6, 44))];
    let q = assemble_corners(&averaged, &vec![None; 4], 100, 50, 4).unwrap();
    assert_eq!(
        q,
        Quad {
            top_left: Point { x: 20, y: 16 },
            top_right: Point { x: 380, y: 24 },
            bottom_right: Point { x: 376, y: 184 },
            bottom_left: Point { x: 24, y: 176 },
        }
    );
}

#[test]
fn missing_corner_taken_from_partner_line() {
    // wide image: top-left pairs with top-right, bottom-right with bottom-left
    let averaged = vec![Some(sp(5, 4)), None, Some(sp(94, 46)), Some(sp(6, 44))];
    let fallback = vec![Some(sp(1, 1)), Some(sp(100, 7)), None, None];
    let q = assemble_corners(&averaged, &fallback, 100, 50, 2).unwrap();
    assert_eq!(q.top_left, Point { x: 10, y: 8 });
    assert_eq!(q.top_right, Point { x: 200, y: 14 });
    // without a fallback point the corner stays unresolved
    assert!(assemble_corners(&averaged, &vec![None; 4], 100, 50, 2).is_none());
}

#[test]
fn corner_without_partner_cannot_be_recovered() {
    // both top corners missing: a fallback point is not used
    let averaged = vec![None, None, Some(sp(94, 46)), Some(sp(6, 44))];
    let fallback = vec![Some(sp(1, 1)), Some(sp(99, 1)), None, None];
    assert!(assemble_corners(&averaged, &fallback, 100, 50, 2).is_none());
}

#[test]
fn tall_image_pairs_left_and_right_edges() {
    // tall image: top-left pairs with bottom-left
    let averaged = vec![None, Some(sp(45, 5)), Some(sp(44, 95)), Some(sp(4, 94))];
    let fallback = vec![Some(sp(3, 0)), None, None, None];
    let q = assemble_corners(&averaged, &fallback, 50, 100, 1).unwrap();
    assert_eq!(q.top_left, Point { x: 3, y: 0 });
}

#[test]
fn assembled_corners_stay_inside_the_scaled_image() {
    let averaged = vec![Some(sp(0, 0)), Some(sp(100, 0)), Some(sp(100, 50)), Some(sp(0, 50))];
    let q = assemble_corners(&averaged, &vec![None; 4], 100, 50, 8).unwrap();
    assert_eq!(q.top_left, Point { x: 0, y: 0 });
    assert_eq!(q.bottom_right, Point { x: 800, y: 400 });
    for p in [q.top_left, q.top_right, q.bottom_right, q.bottom_left] {
        assert!((0..=800).contains(&p.x) && (0..=400).contains(&p.y));
    }
}
