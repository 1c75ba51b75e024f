use wireframe::camera::{Camera, Screen};
use wireframe::frame::{pack_rgb, project_edge, render_frame, BACKGROUND_COLOR, EDGE_COLOR};
use wireframe::vec3::Vec3;

fn scene_camera() -> Camera {
    let screen = Screen::new(
        Vec3::new(0, 0, 0),
        Vec3::new(0, 20, 0),
        Vec3::new(20, 0, 0),
        Vec3::new(20, 20, 0),
    );
    Camera::new(Vec3::new(10, 10, 10), screen)
}

#[test]
fn full_scenario_draws_one_diagonal() {
    let camera = scene_camera();
    let a = Vec3::new(5, 5, 20);
    let b = Vec3::new(15, 15, 20);
    assert_eq!(project_edge(&camera, &a, &b, 100, 100), Some((75, 75, 25, 25)));
    let frame = render_frame(&camera, &vec![(a, b)], 100, 100);
    assert_eq!(frame.len(), 100 * 100);
    let mut painted = Vec::new();
    for (index, color) in frame.iter().enumerate() {
        if *color == EDGE_COLOR {
            painted.push((index % 100, index / 100));
        } else {
            assert_eq!(*color, BACKGROUND_COLOR);
        }
    }
    let expected: Vec<(usize, usize)> = (25..=75).map(|i| (i, i)).collect();
    assert_eq!(painted, expected);
}

#[test]
fn undefined_edge_is_not_drawn() {
    let camera = scene_camera();
    let a = Vec3::new(100, 10, 10);
    let b = Vec3::new(15, 15, 20);
    assert_eq!(project_edge(&camera, &a, &b, 10, 10), None);
    let frame = render_frame(&camera, &vec![(a, b)], 10, 10);
    assert!(frame.iter().all(|c| *c == BACKGROUND_COLOR));
}

#[test]
fn pixels_of_several_edges_are_combined() {
    let camera = scene_camera();
    let edges = vec![
        (Vec3::new(0, 0, 0), Vec3::new(0, 20, 0)),
        (Vec3::new(0, 0, 0), Vec3::new(20, 0, 0)),
    ];
    let frame = render_frame(&camera, &edges, 8, 6);
    let lit: Vec<usize> = (0..48).filter(|i| frame[*i] == EDGE_COLOR).collect();
    let mut expected: Vec<usize> = (0..8).collect();
    expected.extend((1..6).map(|y| y * 8));
    assert_eq!(lit, expected);
}

#[test]
fn colors_are_packed() {
    assert_eq!(pack_rgb(0, 255, 0), EDGE_COLOR);
    assert_eq!(pack_rgb(0, 0, 0), BACKGROUND_COLOR);
    assert_eq!(pack_rgb(1, 2, 3), 3 + 2 * 256 + 65536);
}
