//! A region of space that six half-spaces bound, and its corners.
use vstd::prelude::*;

verus! {

/// A region of space: what six half-spaces have in common.
///
/// The half-spaces are ordered left, right, top, bottom, near, far. What a
/// half-space is made of is the caller's business: the frustum keeps the
/// six, and knows which three of them meet in which corner.
#[derive(Debug, PartialEq)]
pub struct ViewFrustum<H> {
    /// The six half-spaces that bound the region.
    pub half_spaces: [H; 6],
}

/// The place of the left half-space among the six.
pub const LEFT_PLANE_IDX: usize = 0;

/// The place of the right half-space among the six.
pub const RIGHT_PLANE_IDX: usize = 1;

/// The place of the top half-space among the six.
pub const TOP_PLANE_IDX: usize = 2;

/// The place of the bottom half-space among the six.
pub const BOTTOM_PLANE_IDX: usize = 3;

/// The place of the near half-space among the six.
pub const NEAR_PLANE_IDX: usize = 4;

/// The place of the far half-space among the six.
pub const FAR_PLANE_IDX: usize = 5;

/// The places, among the six half-spaces, of the three that meet in a
/// corner. The corners are numbered near top left, near top right, near
/// bottom right, near bottom left, and then the same four on the far side.
pub open spec fn corner_plane_indices(corner: int) -> (int, int, int) {
    let depth = if corner < 4 {
        4
    } else {
        5
    };
    let height = if corner % 4 < 2 {
        2
    } else {
        3
    };
    let side = if corner % 4 == 0 || corner % 4 == 3 {
        0
    } else {
        1
    };
    (height, side, depth)
}

impl<H: Copy> ViewFrustum<H> {
    /// The three half-spaces that meet in a corner: the top or bottom one,
    /// the left or right one, and the near or far one, in this order.
    pub open spec fn corner_planes(self, corner: int) -> (H, H, H) {
        let (height, side, depth) = corner_plane_indices(corner);
        (self.half_spaces[height], self.half_spaces[side], self.half_spaces[depth])
    }

    /// The corners of the region, or `None` where it has not got eight.
    ///
    /// `intersection_point` is asked, corner by corner, for the point that
    /// the three half-spaces of the corner have in common. The corners come
    /// in the order near top left, near top right, near bottom right, near
    /// bottom left, far top left, far top right, far bottom right, far bottom
    /// left. Where three half-spaces do not meet in one point, the region is
    /// not properly bounded, and there are no corners at all.
    pub fn corners<P, F: Fn(H, H, H) -> Option<P>>(&self, intersection_point: F) -> (corners: Option<
        [P; 8],
    >)
        requires
            forall|corner: int|
                0 <= corner < 8 ==> call_requires(
                    intersection_point,
                    #[trigger] self.corner_planes(corner),
                ),
        ensures
            corners matches Some(points) ==> forall|corner: int|
                0 <= corner < 8 ==> call_ensures(
                    intersection_point,
                    #[trigger] self.corner_planes(corner),
                    Some(points[corner]),
                ),
            corners is None ==> exists|corner: int|
                0 <= corner < 8 && call_ensures(
                    intersection_point,
                    #[trigger] self.corner_planes(corner),
                    None,
                ),
    {
        let left = self.half_spaces[LEFT_PLANE_IDX];
        let right = self.half_spaces[RIGHT_PLANE_IDX];
        let top = self.half_spaces[TOP_PLANE_IDX];
        let bottom = self.half_spaces[BOTTOM_PLANE_IDX];
        let near = self.half_spaces[NEAR_PLANE_IDX];
        let far = self.half_spaces[FAR_PLANE_IDX];
        proof {
            assert(self.corner_planes(0) == (top, left, near));
            assert(self.corner_planes(1) == (top, right, near));
            assert(self.corner_planes(2) == (bottom, right, near));
            assert(self.corner_planes(3) == (bottom, left, near));
            assert(self.corner_planes(4) == (top, left, far));
            assert(self.corner_planes(5) == (top, right, far));
            assert(self.corner_planes(6) == (bottom, right, far));
            assert(self.corner_planes(7) == (bottom, left, far));
        }
        let points = [
            intersection_point(top, left, near)?,
            intersection_point(top, right, near)?,
            intersection_point(bottom, right, near)?,
            intersection_point(bottom, left, near)?,
            intersection_point(top, left, far)?,
            intersection_point(top, right, far)?,
            intersection_point(bottom, right, far)?,
            intersection_point(bottom, left, far)?,
        ];
        Some(points)
    }
}

} // verus!
