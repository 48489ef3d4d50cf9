use core::f32::consts::FRAC_1_SQRT_2;

use glam::{Vec3, Vec3A, Vec4, Vec4Swizzles};
use message_bus::view_frustum::{ViewFrustum, FAR_PLANE_IDX, NEAR_PLANE_IDX};

/// A half-space as the frustum's users keep it: the unit normal of the
/// bounding plane and the plane's distance from the origin.
#[derive(Clone, Copy, Debug, PartialEq)]
struct HalfSpace {
    normal_d: Vec4,
}

impl HalfSpace {
    fn new(normal_d: Vec4) -> Self {
        Self {
            normal_d: normal_d * normal_d.xyz().length_recip(),
        }
    }

    fn normal(&self) -> Vec3A {
        Vec3A::from_vec4(self.normal_d)
    }

    fn d(&self) -> f32 {
        self.normal_d.w
    }

    fn intersection_point(a: HalfSpace, b: HalfSpace, c: HalfSpace) -> Option<Vec3> {
        let an = a.normal();
        let bn = b.normal();
        let cn = c.normal();

        let x = Vec3A::new(an.x, bn.x, cn.x);
        let y = Vec3A::new(an.y, bn.y, cn.y);
        let z = Vec3A::new(an.z, bn.z, cn.z);

        let d = -Vec3A::new(a.d(), b.d(), c.d());

        let u = y.cross(z);
        let v = x.cross(d);

        let denom = x.dot(u);

        if denom.abs() < f32::EPSILON {
            return None;
        }

        Some(Vec3::new(d.dot(u), z.dot(v), -y.dot(v)) / denom)
    }
}

const INACTIVE_HALF_SPACE: Vec4 = Vec4::new(0.0, 0.0, 0.0, f32::INFINITY);

fn relative_eq(a: f32, b: f32, epsilon: f32) -> bool {
    if a == b {
        return true;
    }
    if a.is_infinite() || b.is_infinite() {
        return false;
    }
    let difference = (a - b).abs();
    difference <= epsilon || difference <= a.abs().max(b.abs()) * f32::EPSILON
}

fn assert_relative_eq(a: Vec3, b: Vec3, epsilon: f32) {
    assert!(
        relative_eq(a.x, b.x, epsilon)
            && relative_eq(a.y, b.y, epsilon)
            && relative_eq(a.z, b.z, epsilon),
        "{a} is not {b}"
    );
}

#[test]
fn cuboid_frustum_corners() {
    let cuboid_frustum = ViewFrustum {
        // left: x = -5; right: x = 4
        // near: y = 0; far: y = 6
        // top: z = 3; bottom: z = -2
        half_spaces: [
            // left: yz plane at x = -5
            HalfSpace::new(Vec4::new(1., 0., 0., 5.)),
            // right: yz plane at x = 4
            HalfSpace::new(Vec4::new(-1., 0., 0., 4.)),
            // top: xy plane at z = 3
            HalfSpace::new(Vec4::new(0., 0., -1., 3.)),
            // bottom: xy plane at z = -2
            HalfSpace::new(Vec4::new(0., 0., 1., 2.)),
            // near: xz plane at origin (y = 0)
            HalfSpace::new(Vec4::new(0., 1., 0., 0.)),
            // far: xz plane at y = 6
            HalfSpace::new(Vec4::new(0., -1., 0., 6.)),
        ],
    };
    let corners = cuboid_frustum
        .corners(HalfSpace::intersection_point)
        .unwrap();
    // near top left
    assert_relative_eq(corners[0], Vec3::new(-5., 0., 3.), 2e-7);
    // near top right
    assert_relative_eq(corners[1], Vec3::new(4., 0., 3.), 2e-7);
    // near bottom right
    assert_relative_eq(corners[2], Vec3::new(4., 0., -2.), 2e-7);
    // near bottom left
    assert_relative_eq(corners[3], Vec3::new(-5., 0., -2.), 2e-7);
    // far top left
    assert_relative_eq(corners[4], Vec3::new(-5., 6., 3.), 2e-7);
    // far top right
    assert_relative_eq(corners[5], Vec3::new(4., 6., 3.), 2e-7);
    // far bottom right
    assert_relative_eq(corners[6], Vec3::new(4., 6., -2.), 2e-7);
    // far bottom left
    assert_relative_eq(corners[7], Vec3::new(-5., 6., -2.), 2e-7);
}

#[test]
fn pyramid_frustum_corners() {
    // a frustum where the near plane intersects the left right top and bottom planes
    // at a single point
    let pyramid_frustum = ViewFrustum {
        half_spaces: [
            // left
            HalfSpace::new(Vec4::new(FRAC_1_SQRT_2, FRAC_1_SQRT_2, 0., FRAC_1_SQRT_2)),
            // right
            HalfSpace::new(Vec4::new(-FRAC_1_SQRT_2, FRAC_1_SQRT_2, 0., FRAC_1_SQRT_2)),
            // top
            HalfSpace::new(Vec4::new(0., FRAC_1_SQRT_2, -FRAC_1_SQRT_2, FRAC_1_SQRT_2)),
            // bottom
            HalfSpace::new(Vec4::new(0., FRAC_1_SQRT_2, FRAC_1_SQRT_2, FRAC_1_SQRT_2)),
            // near: xz plane at y = -1
            HalfSpace::new(Vec4::new(0., 1., 0., 1.)),
            // far: xz plane at y = 3
            HalfSpace::new(Vec4::new(0., -1., 0., 3.)),
        ],
    };
    let corners = pyramid_frustum
        .corners(HalfSpace::intersection_point)
        .unwrap();
    // near top left
    assert_relative_eq(corners[0], Vec3::new(0., -1., 0.), 2e-7);
    // near top right
    assert_relative_eq(corners[1], Vec3::new(0., -1., 0.), 2e-7);
    // near bottom right
    assert_relative_eq(corners[2], Vec3::new(0., -1., 0.), 2e-7);
    // near bottom left
    assert_relative_eq(corners[3], Vec3::new(0., -1., 0.), 2e-7);
    // far top left
    assert_relative_eq(corners[4], Vec3::new(-4., 3., 4.), 2e-7);
    // far top right
    assert_relative_eq(corners[5], Vec3::new(4., 3., 4.), 2e-7);
    // far bottom right
    assert_relative_eq(corners[6], Vec3::new(4., 3., -4.), 2e-7);
    // far bottom left
    assert_relative_eq(corners[7], Vec3::new(-4., 3., -4.), 2e-7);
}

#[test]
fn frustum_with_some_nan_corners() {
    // frustum with no far plane has NAN far corners
    let no_far = ViewFrustum {
        half_spaces: [
            // left: a yz plane rotated outwards
            HalfSpace::new(Vec4::new(FRAC_1_SQRT_2, FRAC_1_SQRT_2, 0., FRAC_1_SQRT_2)),
            // right: a yz plane rotated outwards
            HalfSpace::new(Vec4::new(-FRAC_1_SQRT_2, FRAC_1_SQRT_2, 0., FRAC_1_SQRT_2)),
            // top: an xz plane rotated outwards
            HalfSpace::new(Vec4::new(0., FRAC_1_SQRT_2, -FRAC_1_SQRT_2, FRAC_1_SQRT_2)),
            // bottom: xz plane rotated outwards
            HalfSpace::new(Vec4::new(0., FRAC_1_SQRT_2, FRAC_1_SQRT_2, FRAC_1_SQRT_2)),
            // near: xz plane at origin (y = 0)
            HalfSpace::new(Vec4::new(0., 1., 0., 0.)),
            // far
            HalfSpace::new(INACTIVE_HALF_SPACE),
        ],
    };
    let corners = no_far.corners(HalfSpace::intersection_point).unwrap();
    // near top left
    assert_relative_eq(corners[0], Vec3::new(-1., 0., 1.), 2e-7);
    // near top right
    assert_relative_eq(corners[1], Vec3::new(1., 0., 1.), 2e-7);
    // near bottom right
    assert_relative_eq(corners[2], Vec3::new(1., 0., -1.), 2e-7);
    // near bottom left
    assert_relative_eq(corners[3], Vec3::new(-1., 0., -1.), 2e-7);
    // far top left
    assert!(corners[4].is_nan());
    // far top right
    assert!(corners[5].is_nan());
    // far bottom right
    assert!(corners[6].is_nan());
    // far bottom left
    assert!(corners[7].is_nan());
}

#[test]
fn invalid_frustum_corners() {
    let invalid = ViewFrustum {
        half_spaces: [
            // the left and the top half spaces are the same, resulting in no intersection point
            HalfSpace::new(Vec4::new(FRAC_1_SQRT_2, FRAC_1_SQRT_2, 0., FRAC_1_SQRT_2)),
            HalfSpace::new(Vec4::new(-FRAC_1_SQRT_2, FRAC_1_SQRT_2, 0., -FRAC_1_SQRT_2)),
            HalfSpace::new(Vec4::new(FRAC_1_SQRT_2, FRAC_1_SQRT_2, 0., FRAC_1_SQRT_2)),
            HalfSpace::new(Vec4::new(0., FRAC_1_SQRT_2, FRAC_1_SQRT_2, FRAC_1_SQRT_2)),
            HalfSpace::new(Vec4::new(0., 1., 0., 0.)),
            HalfSpace::new(Vec4::new(0., -1., 0., 3.)),
        ],
    };
    assert!(invalid.corners(HalfSpace::intersection_point).is_none());
}

#[test]
fn corners_ask_for_the_planes_of_each_corner_in_order() {
    let frustum = ViewFrustum {
        half_spaces: ['l', 'r', 't', 'b', 'n', 'f'],
    };
    let corners = frustum
        .corners(|a, b, c| Some([a, b, c].iter().collect::<String>()))
        .unwrap();
    assert_eq!(
        corners,
        ["tln", "trn", "brn", "bln", "tlf", "trf", "brf", "blf"]
    );
    assert_eq!(frustum.half_spaces[NEAR_PLANE_IDX], 'n');
    assert_eq!(frustum.half_spaces[FAR_PLANE_IDX], 'f');
}

#[test]
fn corners_are_none_where_one_corner_is_missing() {
    let frustum = ViewFrustum {
        half_spaces: [0u8, 1, 2, 3, 4, 5],
    };
    for missing in [(2, 0, 4), (3, 1, 4), (2, 0, 5), (3, 0, 5)] {
        let corners = frustum.corners(|a, b, c| {
            if (a, b, c) == missing {
                None
            } else {
                Some((a, b, c))
            }
        });
        assert!(corners.is_none());
    }
    let all = frustum.corners(|a, b, c| Some((a, b, c))).unwrap();
    assert_eq!(all[0], (2, 0, 4));
    assert_eq!(all[6], (3, 1, 5));
}
