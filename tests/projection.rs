use wireframe::camera::{Camera, Screen};
use wireframe::ratio::Ratio;
use wireframe::vec3::Vec3;

fn pt(x: i64, y: i64, z: i64) -> Vec3 {
    Vec3::new(x, y, z)
}

fn axis_aligned_camera(width: i64, height: i64, distance: i64) -> Camera {
    let screen = Screen::new(pt(0, 0, 0), pt(width, 0, 0), pt(0, height, 0), pt(width, height, 0));
    Camera::new(pt(width / 2, height / 2, distance), screen)
}

fn same(r: Ratio, num: i128, den: i128) -> bool {
    r.den > 0 && r.num * den == num * r.den
}

#[test]
fn center_projects_to_middle() {
    let camera = axis_aligned_camera(20, 10, 7);
    let (u, v) = camera.find_projection(&pt(10, 5, 0)).unwrap();
    assert!(same(u, 1, 2));
    assert!(same(v, 1, 2));
}

#[test]
fn corners_project_to_unit_square() {
    let camera = axis_aligned_camera(40, 30, 12);
    let (u, v) = camera.find_projection(&pt(0, 0, 0)).unwrap();
    assert!(same(u, 0, 1) && same(v, 0, 1));
    let (u, v) = camera.find_projection(&pt(40, 0, 0)).unwrap();
    assert!(same(u, 1, 1) && same(v, 0, 1));
    let (u, v) = camera.find_projection(&pt(0, 30, 0)).unwrap();
    assert!(same(u, 0, 1) && same(v, 1, 1));
    let (u, v) = camera.find_projection(&pt(40, 30, 0)).unwrap();
    assert!(same(u, 1, 1) && same(v, 1, 1));
}

#[test]
fn projection_is_scale_invariant() {
    let scene = |k: i64| {
        let screen = Screen::new(pt(0, 0, 0), pt(0, 20 * k, 0), pt(20 * k, 0, 0), pt(20 * k, 20 * k, 0));
        let camera = Camera::new(pt(10 * k, 10 * k, 10 * k), screen);
        camera.find_projection(&pt(3 * k, 7 * k, 25 * k)).unwrap()
    };
    let (u1, v1) = scene(1);
    let (u3, v3) = scene(3);
    assert!(same(u3, u1.num, u1.den));
    assert!(same(v3, v1.num, v1.den));
}

#[test]
fn point_behind_screen_projects_through_pin_hole() {
    let screen = Screen::new(pt(0, 0, 0), pt(0, 20, 0), pt(20, 0, 0), pt(20, 20, 0));
    let camera = Camera::new(pt(10, 10, 10), screen);
    let (u, v) = camera.find_projection(&pt(5, 5, 20)).unwrap();
    assert!(same(u, 3, 4) && same(v, 3, 4));
    let (u, v) = camera.find_projection(&pt(15, 15, 20)).unwrap();
    assert!(same(u, 1, 4) && same(v, 1, 4));
}

#[test]
fn ray_parallel_to_screen_is_undefined() {
    let camera = axis_aligned_camera(10, 10, 5);
    assert!(camera.find_projection(&pt(100, 5, 5)).is_none());
}

#[test]
fn pin_hole_on_screen_is_undefined() {
    let camera = axis_aligned_camera(10, 10, 0);
    assert!(camera.find_projection(&pt(1, 2, 3)).is_none());
}

#[test]
fn zero_length_edge_is_undefined() {
    let screen = Screen::new(pt(0, 0, 0), pt(0, 0, 0), pt(0, 10, 0), pt(0, 10, 0));
    let camera = Camera::new(pt(0, 5, 5), screen);
    assert!(camera.find_projection(&pt(1, 1, 1)).is_none());
}

#[test]
fn ratio_is_normalized_and_rounds_to_pixels() {
    let r = Ratio::new(3, -4);
    assert_eq!((r.num, r.den), (-3, 4));
    assert_eq!(r.to_pixel(100), 0);
    assert_eq!(Ratio::new(1, 2).to_pixel(5), 3);
    assert_eq!(Ratio::new(1, 3).to_pixel(5), 2);
    assert_eq!(Ratio::new(3, 4).to_pixel(100), 75);
    assert_eq!(Ratio::new(1_000_000_000_000, 1).to_pixel(100), u32::MAX);
}

#[test]
fn vector_operations() {
    let a = pt(1, -2, 3);
    let b = pt(4, 5, -6);
    assert_eq!(Vec3::add(&a, &b), pt(5, 3, -3));
    assert_eq!(Vec3::from_two_position(&a, &b), pt(3, 7, -9));
    assert_eq!(a.scale(-3), pt(-3, 6, -9));
    assert_eq!(Vec3::dot_product(&a, &b), 4 - 10 - 18);
}
