//! Plain geometric containers: screen points, boxes, triangles and
//! barycentric coordinates.

use vstd::prelude::*;

verus! {

/// Marker of the screen coordinate space.
pub struct ScreenSpace;

/// Marker of the world coordinate space.
pub struct WorldSpace;

/// A pixel position on screen.
#[derive(Clone, Copy, Debug, PartialEq, Eq, Structural)]
pub struct ScreenPoint {
    pub x: u32,
    pub y: u32,
}

impl ScreenPoint {
    pub fn new(x: u32, y: u32) -> (r: ScreenPoint)
        ensures
            r.x == x,
            r.y == y,
    {
        ScreenPoint { x, y }
    }

    pub fn origin() -> (r: ScreenPoint)
        ensures
            r.x == 0,
            r.y == 0,
    {
        ScreenPoint { x: 0, y: 0 }
    }
}

/// A size on screen, in pixels.
#[derive(Clone, Copy, Debug, PartialEq, Eq, Structural)]
pub struct ScreenSize {
    pub x: u32,
    pub y: u32,
}

impl ScreenSize {
    pub fn new(x: u32, y: u32) -> (r: ScreenSize)
        ensures
            r.x == x,
            r.y == y,
    {
        ScreenSize { x, y }
    }
}

/// An axis-aligned box given by its two corners.
#[derive(Clone, Copy, Debug)]
pub struct AABB<Point> {
    pub min: Point,
    pub max: Point,
}

impl<Point> AABB<Point> {
    pub fn new(min: Point, max: Point) -> (r: AABB<Point>)
        ensures
            r.min == min,
            r.max == max,
    {
        AABB { min, max }
    }

    /// Applies `f` to both corners.
    pub fn map<Point2, F: Fn(&Point) -> Point2>(&self, f: F) -> (r: AABB<Point2>)
        requires
            f.requires((&self.min,)),
            f.requires((&self.max,)),
        ensures
            f.ensures((&self.min,), r.min),
            f.ensures((&self.max,), r.max),
    {
        AABB { min: f(&self.min), max: f(&self.max) }
    }

    /// Combines corresponding corners of two boxes with `f`.
    pub fn zip_map<Point2, Point3, F: Fn(&Point, &Point2) -> Point3>(
        &self,
        rhs: &AABB<Point2>,
        f: F,
    ) -> (r: AABB<Point3>)
        requires
            f.requires((&self.min, &rhs.min)),
            f.requires((&self.max, &rhs.max)),
        ensures
            f.ensures((&self.min, &rhs.min), r.min),
            f.ensures((&self.max, &rhs.max), r.max),
    {
        AABB { min: f(&self.min, &rhs.min), max: f(&self.max, &rhs.max) }
    }
}

/// A box given by its minimum corner and its size.
#[derive(Clone, Copy, Debug)]
pub struct AABBSized<T, U> {
    pub min: T,
    pub size: U,
}

/// Three vertices of a triangle.
#[derive(Clone, Copy, Debug)]
pub struct Triangle<Point>(pub [Point; 3]);

impl<Point> Triangle<Point> {
    pub fn new(a: Point, b: Point, c: Point) -> (r: Triangle<Point>)
        ensures
            r.0@ == seq![a, b, c],
    {
        let r = Triangle([a, b, c]);
        assert(r.0@ =~= seq![a, b, c]);
        r
    }

    /// The vertices, in order.
    pub fn iter(&self) -> (r: &[Point])
        ensures
            r@ == self.0@,
    {
        self.0.as_slice()
    }

    /// Number of vertices, always three.
    pub fn len(&self) -> (r: usize)
        ensures
            r == 3,
    {
        3
    }

    /// Vertex `i`.
    pub fn index(&self, i: usize) -> (r: &Point)
        requires
            i < 3,
        ensures
            *r == self.0@[i as int],
    {
        &self.0[i]
    }

    /// Applies `f` to every vertex.
    pub fn map<Point2, F: Fn(&Point) -> Point2>(&self, f: F) -> (r: Triangle<Point2>)
        requires
            forall|i: int| 0 <= i < 3 ==> f.requires((&self.0@[i],)),
        ensures
            forall|i: int| 0 <= i < 3 ==> f.ensures((&self.0@[i],), #[trigger] r.0@[i]),
    {
        let a = f(&self.0[0]);
        let b = f(&self.0[1]);
        let c = f(&self.0[2]);
        Triangle([a, b, c])
    }

    /// Combines corresponding vertices of two triangles with `f`.
    pub fn zip_map<Point2, Point3, F: Fn(&Point, &Point2) -> Point3>(
        &self,
        rhs: &Triangle<Point2>,
        f: F,
    ) -> (r: Triangle<Point3>)
        requires
            forall|i: int| 0 <= i < 3 ==> f.requires((&self.0@[i], &rhs.0@[i])),
        ensures
            forall|i: int|
                0 <= i < 3 ==> f.ensures((&self.0@[i], &rhs.0@[i]), #[trigger] r.0@[i]),
    {
        let a = f(&self.0[0], &rhs.0[0]);
        let b = f(&self.0[1], &rhs.0[1]);
        let c = f(&self.0[2], &rhs.0[2]);
        Triangle([a, b, c])
    }

    /// Replaces every vertex by `f` of itself and the corresponding vertex of `rhs`.
    pub fn zip_apply<Point2, F: Fn(&Point, &Point2) -> Point>(
        &mut self,
        rhs: &Triangle<Point2>,
        f: F,
    )
        requires
            forall|i: int| 0 <= i < 3 ==> f.requires((&old(self).0@[i], &rhs.0@[i])),
        ensures
            forall|i: int|
                0 <= i < 3 ==> f.ensures(
                    (&old(self).0@[i], &rhs.0@[i]),
                    #[trigger] final(self).0@[i],
                ),
    {
        let a = f(&self.0[0], &rhs.0[0]);
        let b = f(&self.0[1], &rhs.0[1]);
        let c = f(&self.0[2], &rhs.0[2]);
        self.0 = [a, b, c];
    }
}

/// Barycentric coordinates `(u, v)` of a point of a triangle: the point is
/// `(1 - u - v) * a + u * b + v * c`.
#[derive(Clone, Copy, Debug)]
pub struct BarycentricCoordinates<T> {
    pub u: T,
    pub v: T,
}

} // verus!
