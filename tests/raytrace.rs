use metaview::raytrace::{closest_hit, closest_intersection, RayHit};
use metaview::scene::ModelRef;
use metaview::transform::RenderRow;

fn bits(d: f32) -> Option<u32> {
    Some(d.to_bits())
}

#[test]
fn closest_positive_hit_wins() {
    let distances = vec![bits(5.0), None, bits(2.5), bits(-1.0), bits(3.0)];
    assert_eq!(closest_intersection(&distances), Some(2));
}

#[test]
fn first_of_equal_hits_wins() {
    let distances = vec![None, bits(1.5), bits(1.5)];
    assert_eq!(closest_intersection(&distances), Some(1));
}

#[test]
fn no_hit_gives_none() {
    assert_eq!(closest_intersection(&Vec::new()), None);
    let distances = vec![None, bits(0.0), bits(-2.0), bits(f32::INFINITY), bits(f32::NAN)];
    assert_eq!(closest_intersection(&distances), None);
}

#[test]
fn unit_sphere_hit_distance() {
    // A ray from (0, 0, -5) along +z meets the unit sphere at the origin at
    // distance 4; a second sphere row further away is not chosen.
    let origin = [0.0f32, 0.0, -5.0];
    let direction = [0.0f32, 0.0, 1.0];
    let b = 2.0 * (origin[0] * direction[0] + origin[1] * direction[1] + origin[2] * direction[2]);
    let c = origin[0] * origin[0] + origin[1] * origin[1] + origin[2] * origin[2] - 1.0;
    let near = (-b - (b * b - 4.0 * c).sqrt()) / 2.0;
    let distances = vec![bits(9.0), bits(near)];
    let i = closest_intersection(&distances).unwrap();
    assert_eq!(i, 1);
    let chosen = f32::from_bits(distances[i].unwrap());
    assert!((chosen - 4.0).abs() < 1e-4);
}

#[test]
fn small_distances_order_like_numbers() {
    let distances = vec![bits(1e-30), bits(1e-38), bits(f32::MIN_POSITIVE), bits(1e-40)];
    assert_eq!(closest_intersection(&distances), Some(3));
}

#[test]
fn closest_hit_names_the_row_entity() {
    let rows: Vec<RenderRow<u8>> = vec![
        RenderRow { entity: 4, transform: 0, model: ModelRef { owner: 0, index: 0 } },
        RenderRow { entity: 9, transform: 0, model: ModelRef { owner: 1, index: 2 } },
        RenderRow { entity: 6, transform: 0, model: ModelRef { owner: 0, index: 1 } },
    ];
    let distances = vec![bits(8.0), bits(0.75), None];
    assert_eq!(closest_hit(&rows, &distances), Some(RayHit { entity: 9, distance_bits: 0.75f32.to_bits() }));
    assert_eq!(closest_hit(&rows, &vec![None, None, bits(-3.0)]), None);
}
