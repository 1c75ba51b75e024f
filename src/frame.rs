use vstd::prelude::*;
use crate::camera::{in_world, projection, Camera};
use crate::raster::{check_point_on_line, on_segment};
use crate::ratio::{round_div, saturate_u32};
use crate::vec3::Vec3;

verus! {

/// Color of a pixel on an edge: pure green.
pub const EDGE_COLOR: u32 = 0x00ff00;

/// Color of every other pixel: black.
pub const BACKGROUND_COLOR: u32 = 0;

/// Packs a color as `blue | green << 8 | red << 16`.
pub fn pack_rgb(red: u8, green: u8, blue: u8) -> (r: u32)
    ensures
        r as int == blue as int + 256 * green as int + 65536 * red as int,
{
    let (r32, g32, b32) = (red as u32, green as u32, blue as u32);
    let r = b32 | (g32 << 8) | (r32 << 16);
    assert(r == b32 + g32 * 256 + r32 * 65536) by (bit_vector)
        requires
            r == b32 | (g32 << 8) | (r32 << 16),
            b32 < 256,
            g32 < 256,
            r32 < 256,
    ;
    r
}

/// The pixel index of the fraction `f` of `extent` pixels.
pub open spec fn to_pixel(f: (int, int), extent: int) -> int {
    saturate_u32(round_div(f.0 * extent, f.1))
}

/// The pixel endpoints `(x1, y1, x2, y2)` of the edge from `a` to `b` in a
/// `width` x `height` frame, or `None` where either projection is undefined.
pub open spec fn pixel_edge(
    camera: ((int, int, int), ((int, int, int), (int, int, int), (int, int, int), (int, int, int))),
    a: (int, int, int),
    b: (int, int, int),
    width: int,
    height: int,
) -> Option<(int, int, int, int)> {
    let (pin, s) = camera;
    match (projection(pin, s.0, s.1, s.2, a), projection(pin, s.0, s.1, s.2, b)) {
        (Some((u1, v1)), Some((u2, v2))) => Some(
            (to_pixel(u1, width), to_pixel(v1, height), to_pixel(u2, width), to_pixel(v2, height)),
        ),
        _ => None,
    }
}

/// Pixel `(cx, cy)` lies on the drawn segment `e`, if it is drawn.
pub open spec fn hits(e: Option<(int, int, int, int)>, cx: int, cy: int) -> bool {
    match e {
        Some((x1, y1, x2, y2)) => on_segment(x1, y1, x2, y2, cx, cy),
        None => false,
    }
}

pub open spec fn edges_view(edges: Seq<(Vec3, Vec3)>) -> Seq<((int, int, int), (int, int, int))> {
    edges.map_values(|e: (Vec3, Vec3)| (e.0@, e.1@))
}

/// Pixel `(cx, cy)` lies on at least one of the drawn edges.
pub open spec fn painted(
    camera: ((int, int, int), ((int, int, int), (int, int, int), (int, int, int), (int, int, int))),
    edges: Seq<((int, int, int), (int, int, int))>,
    width: int,
    height: int,
    cx: int,
    cy: int,
) -> bool {
    exists|i: int|
        0 <= i < edges.len() && #[trigger] hits(pixel_edge(camera, edges[i].0, edges[i].1, width, height), cx, cy)
}

pub open spec fn matches_pixels(r: Option<(u32, u32, u32, u32)>, e: Option<(int, int, int, int)>) -> bool {
    match r {
        Some((x1, y1, x2, y2)) => e == Some((x1 as int, y1 as int, x2 as int, y2 as int)),
        None => e is None,
    }
}

/// The pixel endpoints of the edge from `from` to `to` in a `width` x `height`
/// frame: each projected coordinate times the frame's extent, rounded.
pub fn project_edge(camera: &Camera, from: &Vec3, to: &Vec3, width: u32, height: u32) -> (r: Option<(u32, u32, u32, u32)>)
    requires
        camera.wf(),
        in_world(from@),
        in_world(to@),
    ensures
        matches_pixels(r, pixel_edge(camera@, from@, to@, width as int, height as int)),
{
    match (camera.find_projection(from), camera.find_projection(to)) {
        (Some((u1, v1)), Some((u2, v2))) => Some(
            (u1.to_pixel(width), v1.to_pixel(height), u2.to_pixel(width), v2.to_pixel(height)),
        ),
        _ => None,
    }
}

/// Draws the edges into a row-major `width` x `height` frame: pixel
/// `y * width + x` is `EDGE_COLOR` if it lies on a projected edge, else
/// `BACKGROUND_COLOR`.
pub fn render_frame(camera: &Camera, edges: &Vec<(Vec3, Vec3)>, width: u32, height: u32) -> (r: Vec<u32>)
    requires
        camera.wf(),
        width > 0,
        height > 0,
        width as int * height as int <= usize::MAX,
        forall|i: int| 0 <= i < edges@.len() ==> in_world(#[trigger] edges@[i].0@) && in_world(edges@[i].1@),
    ensures
        r@.len() == width as int * height as int,
        forall|i: int|
            0 <= i < r@.len() ==> #[trigger] r@[i] == if painted(
                camera@,
                edges_view(edges@),
                width as int,
                height as int,
                i % width as int,
                i / width as int,
            ) {
                EDGE_COLOR
            } else {
                BACKGROUND_COLOR
            },
{
    let ghost ev = edges_view(edges@);
    let mut projected: Vec<Option<(u32, u32, u32, u32)>> = Vec::new();
    let mut k: usize = 0;
    while k < edges.len()
        invariant
            camera.wf(),
            k <= edges@.len(),
            ev == edges_view(edges@),
            projected@.len() == k,
            forall|i: int| 0 <= i < edges@.len() ==> in_world(#[trigger] edges@[i].0@) && in_world(edges@[i].1@),
            forall|j: int|
                0 <= j < k ==> matches_pixels(
                    #[trigger] projected@[j],
                    pixel_edge(camera@, ev[j].0, ev[j].1, width as int, height as int),
                ),
        decreases edges@.len() - k,
    {
        let e = &edges[k];
        let pe = project_edge(camera, &e.0, &e.1, width, height);
        projected.push(pe);
        k += 1;
    }
    let total: usize = (width as usize) * (height as usize);
    let mut frame: Vec<u32> = Vec::new();
    let mut index: usize = 0;
    while index < total
        invariant
            total == width as int * height as int,
            width > 0,
            index <= total,
            frame@.len() == index,
            projected@.len() == ev.len(),
            forall|j: int|
                0 <= j < ev.len() ==> matches_pixels(
                    #[trigger] projected@[j],
                    pixel_edge(camera@, ev[j].0, ev[j].1, width as int, height as int),
                ),
            forall|i: int|
                0 <= i < index ==> #[trigger] frame@[i] == if painted(
                    camera@,
                    ev,
                    width as int,
                    height as int,
                    i % width as int,
                    i / width as int,
                ) {
                    EDGE_COLOR
                } else {
                    BACKGROUND_COLOR
                },
        decreases total - index,
    {
        let current_x = (index % width as usize) as u32;
        proof {
            let (ii, w, h) = (index as int, width as int, height as int);
            assert(ii / w < h) by (nonlinear_arith)
                requires 0 <= ii < w * h, w > 0;
        }
        let current_y = (index / width as usize) as u32;
        let mut hit = false;
        let mut j: usize = 0;
        while j < projected.len()
            invariant
                j <= projected@.len(),
                projected@.len() == ev.len(),
                forall|q: int|
                    0 <= q < ev.len() ==> matches_pixels(
                        #[trigger] projected@[q],
                        pixel_edge(camera@, ev[q].0, ev[q].1, width as int, height as int),
                    ),
                hit == exists|q: int|
                    0 <= q < j && #[trigger] hits(
                        pixel_edge(camera@, ev[q].0, ev[q].1, width as int, height as int),
                        current_x as int,
                        current_y as int,
                    ),
            decreases projected@.len() - j,
        {
            let on_edge = match projected[j] {
                Some((x1, y1, x2, y2)) => check_point_on_line(x1, y1, x2, y2, current_x, current_y),
                None => false,
            };
            proof {
                let e = pixel_edge(camera@, ev[j as int].0, ev[j as int].1, width as int, height as int);
                assert(matches_pixels(projected@[j as int], e));
                assert(on_edge == hits(e, current_x as int, current_y as int));
                if on_edge {
                    assert(hits(e, current_x as int, current_y as int));
                }
            }
            hit = hit || on_edge;
            j += 1;
        }
        frame.push(if hit { EDGE_COLOR } else { BACKGROUND_COLOR });
        index += 1;
    }
    frame
}

} // verus!
